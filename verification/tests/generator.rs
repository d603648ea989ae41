use odin_ssg::generator::{
    assemble_manifest, course_entry, course_entry_from_text, dir_title, manifest_titles, ends_md, is_hidden, is_skipped_path_dir, lesson_title_from_file,
    lessons_from_files, path_entry, sections_from_course_manifest, sections_from_scan, CourseDirItem, CourseSource,
    OldCourseManifest, OldLessonEntry, OldSectionEntry,
};
use odin_ssg::keyed::sort_names;
use odin_ssg::manifest::{NestedLessonValue, NestedSectionData};

fn file(v: &NestedLessonValue) -> (&str, bool) {
    match v {
        NestedLessonValue::File(f) => (f.as_str(), false),
        NestedLessonValue::WithMeta { file, is_project } => (file.as_str(), *is_project),
    }
}

#[test]
fn lesson_titles_from_file_names() {
    assert_eq!(lesson_title_from_file("01_how_this_course_will_work.md", true), "How This Course Will Work");
    assert_eq!(lesson_title_from_file("01_how_this_course_will_work.md", false), "01 How This Course Will Work");
    assert_eq!(lesson_title_from_file("notes.md.md", false), "Notes");
    assert_eq!(lesson_title_from_file("__intro__text.md", true), "Intro Text");
    assert_eq!(lesson_title_from_file("123.md", true), "");
}

#[test]
fn hidden_and_skipped_directories() {
    assert!(is_hidden(".git"));
    assert!(!is_hidden("git"));
    assert!(!is_hidden(""));
    assert!(is_skipped_path_dir("scripts"));
    assert!(is_skipped_path_dir("templates"));
    assert!(is_skipped_path_dir("themes.yml"));
    assert!(is_skipped_path_dir("target"));
    assert!(is_skipped_path_dir(".hidden"));
    assert!(!is_skipped_path_dir("foundations"));
    assert_eq!(dir_title("full_stack_ruby"), "Full Stack Ruby");
    assert!(ends_md("a.md"));
    assert!(!ends_md("a.mdx"));
    assert!(!ends_md("md"));
}

#[test]
fn lessons_from_files_sorts_by_title_and_drops_empty_titles() {
    let names = vec!["02_zeta.md".to_string(), "01_alpha.md".to_string(), "99.md".to_string(), "03_alpha.md".to_string()];
    let m = lessons_from_files(names);
    let got: Vec<(&str, &str)> = m.iter().map(|(t, v)| (t.as_str(), file(v).0)).collect();
    assert_eq!(got, vec![("Alpha", "03_alpha.md"), ("Zeta", "02_zeta.md")]);
}

#[test]
fn lessons_from_files_sorts_names_before_keying() {
    let names = vec!["03_alpha.md".to_string(), "01_alpha.md".to_string()];
    let m = lessons_from_files(names);
    let got: Vec<(&str, &str)> = m.iter().map(|(t, v)| (t.as_str(), file(v).0)).collect();
    assert_eq!(got, vec![("Alpha", "03_alpha.md")]);
}

#[test]
fn sort_names_orders_by_code_point() {
    let names: Vec<String> = ["b.md", "B.md", "a.md", "é.md", "a.md"].iter().map(|s| s.to_string()).collect();
    assert_eq!(sort_names(names), vec!["B.md", "a.md", "a.md", "b.md", "é.md"]);
}

fn entry(file: Option<&str>, title: Option<&str>, is_project: Option<bool>) -> OldLessonEntry {
    OldLessonEntry { file: file.map(|s| s.to_string()), title: title.map(|s| s.to_string()), is_project }
}

#[test]
fn sections_from_an_older_manifest() {
    let sections = vec![
        OldSectionEntry {
            title: None,
            lessons: Some(vec![
                entry(Some("b.md"), Some("Beta"), Some(true)),
                entry(Some("a.md"), Some("Alpha"), None),
                entry(None, Some("No File"), None),
                entry(Some("x.md"), Some(""), None),
            ]),
        },
        OldSectionEntry { title: Some("Empty".to_string()), lessons: Some(vec![entry(None, None, None)]) },
        OldSectionEntry { title: Some("Missing".to_string()), lessons: None },
        OldSectionEntry { title: Some("Named".to_string()), lessons: Some(vec![entry(Some("n.md"), Some("N"), Some(false))]) },
    ];
    let out = sections_from_course_manifest(&sections);
    assert_eq!(out.len(), 2);
    assert_eq!(out[0].title, "Lessons");
    assert_eq!(out[0].description, "");
    let got: Vec<(&str, (&str, bool))> = out[0].lessons.iter().map(|(t, v)| (t.as_str(), file(v))).collect();
    assert_eq!(got, vec![("Alpha", ("a.md", false)), ("Beta", ("b.md", true))]);
    assert_eq!(out[1].title, "Named");
}

fn dir(name: &str, lessons: Vec<(String, NestedLessonValue)>) -> CourseDirItem {
    CourseDirItem { name: name.to_string(), is_dir: true, lessons }
}

fn plain(name: &str) -> CourseDirItem {
    CourseDirItem { name: name.to_string(), is_dir: false, lessons: vec![] }
}

#[test]
fn scan_with_subdirectories_keeps_only_their_sections() {
    let l = vec![("Alpha".to_string(), NestedLessonValue::File("01_alpha.md".to_string()))];
    let items = vec![
        dir("basic_stuff", l),
        dir("empty_dir", vec![]),
        dir(".hidden", vec![("H".to_string(), NestedLessonValue::File("h.md".to_string()))]),
        plain("root_file.md"),
        plain("manifest.yaml"),
    ];
    let out = sections_from_scan(items);
    assert_eq!(out.len(), 1);
    assert_eq!(out[0].title, "Basic Stuff");
    assert_eq!(out[0].lessons[0].0, "Alpha");
}

#[test]
fn scan_without_subdirectories_makes_a_lessons_section() {
    let items = vec![plain("second_one.md"), plain("first_one.md"), plain("readme.txt"), plain(".secret.md")];
    let out = sections_from_scan(items);
    assert_eq!(out.len(), 1);
    assert_eq!(out[0].title, "Lessons");
    let got: Vec<(&str, &str)> = out[0].lessons.iter().map(|(t, v)| (t.as_str(), file(v).0)).collect();
    assert_eq!(got, vec![("First One", "first_one.md"), ("Second One", "second_one.md")]);
}

#[test]
fn course_entries_from_manifest_or_scan() {
    let m = OldCourseManifest {
        title: Some("Custom Title".to_string()),
        description: None,
        sections: Some(vec![OldSectionEntry {
            title: Some("S".to_string()),
            lessons: Some(vec![entry(Some("a.md"), Some("A"), None)]),
        }]),
    };
    let c = course_entry("html_css", CourseSource::Manifest(m)).unwrap();
    assert_eq!(c.len(), 1);
    assert_eq!(c[0].0, "html_css");
    assert_eq!(c[0].1.title, "Custom Title");
    assert_eq!(c[0].1.description, "");
    assert_eq!(c[0].1.sections.len(), 1);

    let empty = OldCourseManifest { title: None, description: None, sections: None };
    assert!(course_entry("x", CourseSource::Manifest(empty)).is_none());

    let scanned = vec![NestedSectionData {
        title: "Lessons".to_string(),
        description: String::new(),
        lessons: vec![("A".to_string(), NestedLessonValue::File("a.md".to_string()))],
    }];
    let c = course_entry("java_script", CourseSource::Scanned(scanned)).unwrap();
    assert_eq!(c[0].1.title, "Java Script");
    assert!(course_entry("x", CourseSource::Scanned(vec![])).is_none());
}

#[test]
fn path_entries_and_assembly() {
    assert!(path_entry("p", None, None, vec![]).is_none());
    let scanned = vec![NestedSectionData {
        title: "Lessons".to_string(),
        description: String::new(),
        lessons: vec![("A".to_string(), NestedLessonValue::File("a.md".to_string()))],
    }];
    let course = course_entry("c", CourseSource::Scanned(scanned)).unwrap();
    let p = path_entry("web_dev", None, Some("about".to_string()), vec![course]).unwrap();
    assert_eq!(p[0].0, "web_dev");
    assert_eq!(p[0].1.title, "Web Dev");
    assert_eq!(p[0].1.description, "about");
    let m = assemble_manifest(None, Some("mine".to_string()), vec![p]);
    assert_eq!(m.title, "The Odin Project");
    assert_eq!(m.description, "mine");
    assert_eq!(m.nav.len(), 1);
    assert!(m.custom_colors.is_none() && m.theme_preset.is_none());
    let m2 = assemble_manifest(Some("T".to_string()), None, vec![]);
    assert_eq!(m2.title, "T");
    assert_eq!(m2.description, "A free, open-source coding curriculum.");
}

#[test]
fn course_entry_from_manifest_text() {
    let text = "title: Web Basics\nsections:\n  - title: Start\n    lessons:\n      - file: a.md\n        title: Alpha\n      - file: b.md\n        title: Beta\n        is_project: true\n      - file: c.md\n  - title: Empty\n    lessons: []\n";
    let entry = course_entry_from_text("web_basics", text).ok().unwrap().unwrap();
    assert_eq!(entry.len(), 1);
    assert_eq!(entry[0].0, "web_basics");
    let c = &entry[0].1;
    assert_eq!(c.title, "Web Basics");
    assert_eq!(c.description, "");
    assert_eq!(c.sections.len(), 1);
    assert_eq!(c.sections[0].title, "Start");
    let got: Vec<(&str, (&str, bool))> = c.sections[0].lessons.iter().map(|(t, v)| (t.as_str(), file(v))).collect();
    assert_eq!(got, vec![("Alpha", ("a.md", false)), ("Beta", ("b.md", true))]);
}

#[test]
fn course_entry_from_text_without_sections_or_yaml() {
    assert!(course_entry_from_text("x", "title: X\n").ok().unwrap().is_none());
    assert!(course_entry_from_text("x", "title: [unclosed").is_err());
}

#[test]
fn manifest_titles_reads_strings_only() {
    let (t, d) = manifest_titles("title: Odin\ndescription: 3\n").ok().unwrap();
    assert_eq!(t.as_deref(), Some("Odin"));
    assert_eq!(d, None);
    assert!(manifest_titles("a: [b").is_err());
}
