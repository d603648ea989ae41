use odin_ssg::manifest::{
    CourseManifest, CurriculumManifest, LessonManifest, NestedCourseData, NestedCurriculumManifest, NestedLessonValue,
    NestedPathData, NestedSectionData, PathManifest, SectionManifest,
};
use odin_ssg::models::{Path, Theme};
use odin_ssg::parser::markdown::{add_code_language_classes, render, CodeEvent, HtmlPiece};
use odin_ssg::parser::navigation::resolve_all;
use odin_ssg::parser::{
    build_search_index, course_slug_to_title, manifest_is_nested, parse_course, parse_lesson, parse_nested_format,
    parse_old_format, parse_path, parse_section, path_slug_to_title, resolve_theme, resolve_theme_nested, LessonSource,
};

fn lm(title: &str, is_project: bool) -> LessonManifest {
    LessonManifest {
        file: format!("{}.md", title.to_lowercase().replace(' ', "_")),
        title: title.to_string(),
        description: format!("about {}", title),
        is_project,
    }
}

fn src(n: usize) -> LessonSource {
    LessonSource { source_path: format!("/src/{}.md", n), markdown: format!("Lesson <b>{}</b> text", n) }
}

fn section(title: &str, lessons: Vec<LessonManifest>) -> SectionManifest {
    SectionManifest { title: title.to_string(), description: String::new(), position: 1, lessons }
}

fn theme(c: &str) -> Theme {
    Theme { bg: c.to_string(), text: c.to_string(), accent: c.to_string(), border: c.to_string(), accent_text: c.to_string() }
}

#[test]
fn parse_lesson_builds_every_field() {
    let sm = section("Getting Started", vec![]);
    let source = LessonSource { source_path: "/src/x.md".to_string(), markdown: "# Hi".to_string() };
    let l = parse_lesson(
        &lm("How This Course Will Work", true),
        "foundations",
        "introduction",
        "/foundations/introduction/",
        "/foundations/",
        3,
        &sm,
        &source,
    );
    assert_eq!(l.slug, "how-this-course-will-work");
    assert_eq!(l.title, "How This Course Will Work");
    assert_eq!(l.display_title, "Project: How This Course Will Work");
    assert_eq!(l.description, "about How This Course Will Work");
    assert_eq!(l.position, 3);
    assert!(l.is_project);
    assert_eq!(l.source_path, "/src/x.md");
    assert_eq!(l.url, "/foundations/introduction/how-this-course-will-work/");
    assert_eq!(l.output_path, "foundations/introduction/how-this-course-will-work/index.html");
    assert_eq!(l.html_content.as_deref(), Some("<h1>Hi</h1>\n"));
    assert!(l.prev.is_none() && l.next.is_none());
    let crumbs: Vec<(&str, &str, bool)> =
        l.breadcrumbs.iter().map(|b| (b.label.as_str(), b.url.as_str(), b.is_current)).collect();
    assert_eq!(
        crumbs,
        vec![
            ("Curriculum", "/", false),
            ("Foundations", "/foundations/", false),
            ("Introduction", "/foundations/introduction/", false),
            ("Project: How This Course Will Work", "", true),
        ]
    );
}

#[test]
fn slug_titles() {
    assert_eq!(path_slug_to_title("full-stack-javascript"), "Full Stack Javascript");
    assert_eq!(course_slug_to_title("html-and-css"), "Html And Css");
    assert_eq!(path_slug_to_title("ruby"), "Ruby");
}

#[test]
fn parse_section_numbers_lessons_from_one() {
    let sm = section("Basics", vec![lm("First One", false), lm("Second One", false)]);
    let sources = vec![src(1), src(2)];
    let s = parse_section(&sm, "p", "c", "/p/c/", "/p/", &sources);
    assert_eq!(s.title, "Basics");
    assert_eq!(s.lessons.len(), 2);
    assert_eq!(s.lessons[0].position, 1);
    assert_eq!(s.lessons[1].position, 2);
    assert_eq!(s.lessons[1].slug, "second-one");
    assert_eq!(s.lessons[1].source_path, "/src/2.md");
}

#[test]
fn parse_course_and_path_slugs_and_urls() {
    let cm = CourseManifest {
        slug: "intro_dir".to_string(),
        title: "Intro Course!".to_string(),
        description: "d".to_string(),
        position: 4,
        badge_uri: Some("badge.svg".to_string()),
        sections: vec![section("A", vec![lm("One", false)]), section("B", vec![lm("Two", false)])],
    };
    let sources = vec![src(1), src(2)];
    let c = parse_course(&cm, "found", "/found/", &sources);
    assert_eq!(c.slug, "intro-course");
    assert_eq!(c.url, "/found/intro-course/");
    assert_eq!(c.position, 4);
    assert_eq!(c.badge_uri.as_deref(), Some("badge.svg"));
    assert_eq!(c.sections[1].lessons[0].url, "/found/intro-course/two/");
    assert_eq!(c.sections[1].lessons[0].source_path, "/src/2.md");

    let pm = PathManifest { title: "Foundations".to_string(), description: "x".to_string(), position: 2, courses: vec![cm] };
    let p = parse_path(&pm, &sources);
    assert_eq!(p.slug, "foundations");
    assert_eq!(p.url, "/foundations/");
    assert_eq!(p.position, 2);
    assert_eq!(p.courses[0].url, "/foundations/intro-course/");
}

fn two_paths() -> Vec<PathManifest> {
    vec![
        PathManifest {
            title: "Foundations".to_string(),
            description: String::new(),
            position: 1,
            courses: vec![CourseManifest {
                slug: "intro".to_string(),
                title: "Intro".to_string(),
                description: String::new(),
                position: 1,
                badge_uri: None,
                sections: vec![section("S", vec![lm("A", false), lm("B", true)])],
            }],
        },
        PathManifest {
            title: "Ruby".to_string(),
            description: String::new(),
            position: 2,
            courses: vec![CourseManifest {
                slug: "basics".to_string(),
                title: "Basics".to_string(),
                description: String::new(),
                position: 1,
                badge_uri: None,
                sections: vec![section("S", vec![lm("C", false)])],
            }],
        },
    ]
}

fn root(custom: Option<Theme>, preset: Option<&str>) -> CurriculumManifest {
    CurriculumManifest {
        title: "TOP".to_string(),
        description: "desc".to_string(),
        paths: vec!["foundations".to_string(), "ruby".to_string()],
        custom_colors: custom,
        theme_preset: preset.map(|s| s.to_string()),
    }
}

fn flat_urls(paths: &[Path]) -> Vec<String> {
    paths.iter().flat_map(|p| p.all_lessons().into_iter().map(|l| l.url.clone()).collect::<Vec<_>>()).collect()
}

#[test]
fn parse_old_format_links_lessons_across_paths() {
    let sources = vec![src(1), src(2), src(3)];
    let (c, entries) = parse_old_format(root(None, None), &two_paths(), &sources, None);
    assert_eq!(c.title, "TOP");
    assert_eq!(c.description, "desc");
    assert_eq!(c.theme.bg, "#f9fbf9");
    assert_eq!(flat_urls(&c.paths), vec!["/foundations/intro/a/", "/foundations/intro/b/", "/ruby/basics/c/"]);
    let b = &c.paths[0].courses[0].sections[0].lessons[1];
    assert_eq!(b.display_title, "Project: B");
    assert_eq!(b.prev.as_ref().unwrap().url, "/foundations/intro/a/");
    assert_eq!(b.next.as_ref().unwrap().url, "/ruby/basics/c/");
    assert_eq!(b.next.as_ref().unwrap().title, "C");
    let last = &c.paths[1].courses[0].sections[0].lessons[0];
    assert_eq!(last.prev.as_ref().unwrap().title, "Project: B");
    assert!(last.next.is_none());
    assert_eq!(entries.len(), 3);
    assert_eq!(entries[1].title, "Project: B");
    assert_eq!(entries[1].path, "Foundations");
    assert_eq!(entries[1].course, "Intro");
    assert_eq!(entries[1].excerpt, "Lesson 2 text\n");
    assert_eq!(entries[2].url, "/ruby/basics/c/");
}

#[test]
fn resolve_theme_priorities() {
    let presets = vec![("dark".to_string(), theme("#000")), ("light".to_string(), theme("#fff"))];
    assert_eq!(resolve_theme(&root(Some(theme("#123")), Some("dark")), Some(&presets)).bg, "#123");
    assert_eq!(resolve_theme(&root(None, Some("light")), Some(&presets)).bg, "#fff");
    assert_eq!(resolve_theme(&root(None, Some("missing")), Some(&presets)).bg, "#f9fbf9");
    assert_eq!(resolve_theme(&root(None, Some("dark")), None).bg, "#f9fbf9");
    assert_eq!(resolve_theme(&root(None, None), Some(&presets)).bg, "#f9fbf9");
}

#[test]
fn parse_old_format_uses_the_preset() {
    let presets = vec![("dark".to_string(), theme("#000"))];
    let sources = vec![src(1), src(2), src(3)];
    let (c, _) = parse_old_format(root(None, Some("dark")), &two_paths(), &sources, Some(&presets));
    assert_eq!(c.theme.accent, "#000");
}

fn nested_manifest(custom: Option<Theme>) -> NestedCurriculumManifest {
    let section = NestedSectionData {
        title: "Start".to_string(),
        description: "sd".to_string(),
        lessons: vec![
            ("Alpha Lesson".to_string(), NestedLessonValue::File("alpha.md".to_string())),
            ("Beta Project".to_string(), NestedLessonValue::WithMeta { file: "beta.md".to_string(), is_project: true }),
        ],
    };
    let course = NestedCourseData { title: "Intro Course".to_string(), description: "cd".to_string(), sections: vec![section] };
    let path = NestedPathData {
        title: "Foundations Path".to_string(),
        description: "pd".to_string(),
        courses: vec![vec![("intro_course".to_string(), course)]],
    };
    NestedCurriculumManifest {
        title: "Nested".to_string(),
        description: "nd".to_string(),
        nav: vec![vec![("foundations".to_string(), path)]],
        custom_colors: custom,
        theme_preset: Some("ignored".to_string()),
    }
}

#[test]
fn parse_nested_format_uses_keys_as_slugs() {
    let sources = vec![src(1), src(2)];
    let (c, entries) = parse_nested_format(nested_manifest(None), &sources);
    assert_eq!(c.title, "Nested");
    assert_eq!(c.theme.bg, "#f9fbf9");
    let p = &c.paths[0];
    assert_eq!(p.slug, "foundations");
    assert_eq!(p.title, "Foundations Path");
    assert_eq!(p.url, "/foundations/");
    assert_eq!(p.position, 1);
    let course = &p.courses[0];
    assert_eq!(course.slug, "intro_course");
    assert_eq!(course.url, "/foundations/intro_course/");
    assert!(course.badge_uri.is_none());
    let s = &course.sections[0];
    assert_eq!(s.position, 1);
    assert_eq!(s.description, "sd");
    let beta = &s.lessons[1];
    assert_eq!(beta.slug, "beta-project");
    assert_eq!(beta.display_title, "Project: Beta Project");
    assert_eq!(beta.description, "");
    assert_eq!(beta.position, 2);
    assert_eq!(beta.url, "/foundations/intro_course/beta-project/");
    assert_eq!(beta.output_path, "foundations/intro_course/beta-project/index.html");
    assert_eq!(beta.breadcrumbs[2].label, "Intro_course");
    assert_eq!(beta.breadcrumbs.len(), 4);
    assert_eq!(beta.breadcrumbs[3].url, "");
    assert_eq!(beta.prev.as_ref().unwrap().url, "/foundations/intro_course/alpha-lesson/");
    assert!(beta.next.is_none());
    assert_eq!(entries.len(), 2);
}

#[test]
fn resolve_theme_nested_ignores_presets() {
    assert_eq!(resolve_theme_nested(&nested_manifest(None)).border, "#d1dbd1");
    assert_eq!(resolve_theme_nested(&nested_manifest(Some(theme("#abc")))).border, "#abc");
}

#[test]
fn manifest_format_detection() {
    assert!(manifest_is_nested("title: x\nnav:\n  - a: {}\n"));
    assert!(!manifest_is_nested("title: x\npaths:\n  - a\n"));
    assert!(!manifest_is_nested("na"));
}

#[test]
fn resolving_twice_changes_nothing() {
    let sources = vec![src(1), src(2), src(3)];
    let (mut c, _) = parse_old_format(root(None, None), &two_paths(), &sources, None);
    let before: Vec<(Option<String>, Option<String>)> = c
        .paths
        .iter()
        .flat_map(|p| p.all_lessons().into_iter().map(|l| (l.prev.as_ref().map(|r| r.url.clone()), l.next.as_ref().map(|r| r.url.clone()))).collect::<Vec<_>>())
        .collect();
    resolve_all(&mut c.paths);
    let after: Vec<(Option<String>, Option<String>)> = c
        .paths
        .iter()
        .flat_map(|p| p.all_lessons().into_iter().map(|l| (l.prev.as_ref().map(|r| r.url.clone()), l.next.as_ref().map(|r| r.url.clone()))).collect::<Vec<_>>())
        .collect();
    assert_eq!(before, after);
}

#[test]
fn search_index_has_one_entry_per_lesson() {
    let sources = vec![src(1), src(2), src(3)];
    let (c, _) = parse_old_format(root(None, None), &two_paths(), &sources, None);
    let entries = build_search_index(&c.paths);
    let urls: Vec<String> = entries.iter().map(|e| e.url.clone()).collect();
    assert_eq!(urls, flat_urls(&c.paths));
}

#[test]
fn search_excerpt_is_cut_at_two_hundred_characters() {
    let long = "é".repeat(250);
    let sources = vec![
        LessonSource { source_path: String::new(), markdown: long.clone() },
        src(2),
        src(3),
    ];
    let (_, entries) = parse_old_format(root(None, None), &two_paths(), &sources, None);
    assert_eq!(entries[0].excerpt.chars().count(), 200);
    assert!(entries[0].excerpt.chars().all(|c| c == 'é'));
}

#[test]
fn code_pass_rewrites_code_blocks() {
    let events = vec![
        CodeEvent::Other,
        CodeEvent::FencedStart("c<d>".to_string()),
        CodeEvent::Other,
        CodeEvent::End,
        CodeEvent::FencedStart(String::new()),
        CodeEvent::End,
        CodeEvent::IndentedStart,
        CodeEvent::End,
    ];
    let out = add_code_language_classes(&events);
    let shown: Vec<String> = out
        .iter()
        .map(|p| match p {
            HtmlPiece::Raw(s) => s.clone(),
            HtmlPiece::Source(i) => format!("#{}", i),
        })
        .collect();
    assert_eq!(
        shown,
        vec![
            "#0",
            "<pre><code class=\"language-c&lt;d&gt;\">",
            "#2",
            "</code></pre>",
            "<pre><code>",
            "</code></pre>",
            "<pre><code>",
            "</code></pre>",
        ]
    );
}

#[test]
fn code_pass_skips_indented_start_inside_language_block() {
    let events = vec![CodeEvent::FencedStart("rust".to_string()), CodeEvent::IndentedStart, CodeEvent::End];
    let out = add_code_language_classes(&events);
    assert_eq!(out.len(), 2);
}

#[test]
fn render_fenced_block_exact() {
    assert_eq!(render("```rust\nlet x = 1;\n```"), "<pre><code class=\"language-rust\">let x = 1;\n</code></pre>");
    assert_eq!(render("```\nplain\n```"), "<pre><code>plain\n</code></pre>");
    assert_eq!(render("    indented\n"), "<pre><code>indented\n</code></pre>");
}

#[test]
fn render_uses_extensions() {
    assert!(render("~~gone~~").contains("<del>gone</del>"));
    assert!(render("- [x] done").contains("checkbox"));
    assert!(render("a -- b").contains('\u{2013}'));
}
