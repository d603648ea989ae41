use odin_ssg::models::{default_accent_text, Course, Lesson, Path, Section, Theme};

fn lesson(slug: &str) -> Lesson {
    Lesson {
        slug: slug.to_string(),
        title: slug.to_uppercase(),
        display_title: slug.to_uppercase(),
        description: String::new(),
        position: 1,
        is_project: false,
        source_path: String::new(),
        output_path: format!("p/c/{}/index.html", slug),
        url: format!("/p/c/{}/", slug),
        html_content: None,
        prev: None,
        next: None,
        breadcrumbs: vec![],
    }
}

fn section(slugs: &[&str]) -> Section {
    Section {
        title: "S".to_string(),
        description: String::new(),
        position: 1,
        lessons: slugs.iter().map(|s| lesson(s)).collect(),
    }
}

fn course(sections: Vec<Section>) -> Course {
    Course {
        slug: "c".to_string(),
        title: "C".to_string(),
        description: String::new(),
        position: 1,
        url: "/p/c/".to_string(),
        badge_uri: None,
        sections,
    }
}

#[test]
fn course_all_lessons_flattens_sections_in_order() {
    let c = course(vec![section(&["a", "b"]), section(&[]), section(&["c"])]);
    let slugs: Vec<&str> = c.all_lessons().iter().map(|l| l.slug.as_str()).collect();
    assert_eq!(slugs, vec!["a", "b", "c"]);
}

#[test]
fn path_all_lessons_flattens_courses_in_order() {
    let p = Path {
        slug: "p".to_string(),
        title: "P".to_string(),
        description: String::new(),
        position: 1,
        url: "/p/".to_string(),
        courses: vec![course(vec![section(&["a"])]), course(vec![section(&["b", "c"])])],
    };
    let slugs: Vec<&str> = p.all_lessons().iter().map(|l| l.slug.as_str()).collect();
    assert_eq!(slugs, vec!["a", "b", "c"]);
}

#[test]
fn next_lesson_after_crosses_sections() {
    let c = course(vec![section(&["a", "b"]), section(&["c"])]);
    assert_eq!(c.next_lesson_after("b").unwrap().slug, "c");
    assert_eq!(c.next_lesson_after("a").unwrap().slug, "b");
    assert!(c.next_lesson_after("c").is_none());
    assert!(c.next_lesson_after("missing").is_none());
}

#[test]
fn next_lesson_after_uses_the_first_match() {
    let c = course(vec![section(&["a", "x", "a", "y"])]);
    assert_eq!(c.next_lesson_after("a").unwrap().slug, "x");
}

#[test]
fn biophilic_theme_colours() {
    let t = Theme::biophilic();
    assert_eq!(t.bg, "#f9fbf9");
    assert_eq!(t.text, "#1a2e1a");
    assert_eq!(t.accent, "#4a7c44");
    assert_eq!(t.border, "#d1dbd1");
    assert_eq!(t.accent_text, "#ffffff");
    assert_eq!(default_accent_text(), "#ffffff");
}

#[test]
fn theme_to_css_declares_variables() {
    let t = Theme {
        bg: "#000".to_string(),
        text: "#111".to_string(),
        accent: "#222".to_string(),
        border: "#333".to_string(),
        accent_text: "#444".to_string(),
    };
    assert_eq!(
        t.to_css(),
        ":root {\n  --bg: #000;\n  --text: #111;\n  --accent: #222;\n  --border: #333;\n  --accent-text: #444;\n}\n"
    );
}
