use odin_ssg::models::{Course, Lesson, Path, Section};
use odin_ssg::parser::navigation::resolve_all;


fn make_lesson(title: &str, url: &str) -> Lesson {
    Lesson {
        slug: slug::slugify(title),
        title: title.to_string(),
        display_title: title.to_string(),
        description: String::new(),
        position: 1,
        is_project: false,
        source_path: String::new(),
        output_path: format!("{}/index.html", url.trim_matches('/')),
        url: url.to_string(),
        html_content: None,
        prev: None,
        next: None,
        breadcrumbs: vec![],
    }
}

#[test]
fn test_prev_next_resolved() {
    let mut paths = vec![Path {
        slug: "foundations".to_string(),
        title: "Foundations".to_string(),
        description: String::new(),
        position: 1,
        url: "/foundations/".to_string(),
        courses: vec![Course {
            slug: "intro".to_string(),
            title: "Introduction".to_string(),
            description: String::new(),
            position: 1,
            url: "/foundations/introduction/".to_string(),
            badge_uri: None,
            sections: vec![Section {
                title: "Start".to_string(),
                description: String::new(),
                position: 1,
                lessons: vec![
                    make_lesson("Lesson A", "/foundations/introduction/lesson-a/"),
                    make_lesson("Lesson B", "/foundations/introduction/lesson-b/"),
                    make_lesson("Lesson C", "/foundations/introduction/lesson-c/"),
                ],
            }],
        }],
    }];

    resolve_all(&mut paths);

    let lessons = &paths[0].courses[0].sections[0].lessons;
    assert!(lessons[0].prev.is_none());
    assert_eq!(lessons[0].next.as_ref().unwrap().url, "/foundations/introduction/lesson-b/");
    assert_eq!(lessons[1].prev.as_ref().unwrap().url, "/foundations/introduction/lesson-a/");
    assert_eq!(lessons[1].next.as_ref().unwrap().url, "/foundations/introduction/lesson-c/");
    assert!(lessons[2].next.is_none());
}

fn positioned(title: &str, url: &str, position: u32) -> Lesson {
    let mut l = make_lesson(title, url);
    l.position = position;
    l
}

fn section(position: u32, lessons: Vec<Lesson>) -> Section {
    Section { title: format!("S{position}"), description: String::new(), position, lessons }
}

fn one_course_path(position: u32, slug: &str, sections: Vec<Section>) -> Path {
    Path {
        slug: slug.to_string(),
        title: slug.to_string(),
        description: String::new(),
        position,
        url: format!("/{slug}/"),
        courses: vec![Course {
            slug: "c".to_string(),
            title: "C".to_string(),
            description: String::new(),
            position: 1,
            url: format!("/{slug}/c/"),
            badge_uri: None,
            sections,
        }],
    }
}

fn links(l: &Lesson) -> (Option<&str>, Option<&str>) {
    (l.prev.as_ref().map(|r| r.url.as_str()), l.next.as_ref().map(|r| r.url.as_str()))
}

#[test]
fn links_follow_lesson_positions() {
    let mut paths = vec![one_course_path(1, "p", vec![section(1, vec![positioned("X", "/x/", 2), positioned("Y", "/y/", 1)])])];
    resolve_all(&mut paths);
    let ls = &paths[0].courses[0].sections[0].lessons;
    assert_eq!(links(&ls[1]), (None, Some("/x/")));
    assert_eq!(links(&ls[0]), (Some("/y/"), None));
}

#[test]
fn links_follow_section_then_path_positions() {
    let mut paths = vec![
        one_course_path(2, "late", vec![section(1, vec![positioned("L", "/l/", 1)])]),
        one_course_path(1, "early", vec![
            section(2, vec![positioned("B", "/b/", 1)]),
            section(1, vec![positioned("A", "/a/", 1), positioned("A2", "/a2/", 1)]),
        ]),
    ];
    resolve_all(&mut paths);
    let early = &paths[1].courses[0].sections;
    assert_eq!(links(&early[1].lessons[0]), (None, Some("/a2/")));
    assert_eq!(links(&early[1].lessons[1]), (Some("/a/"), Some("/b/")));
    assert_eq!(links(&early[0].lessons[0]), (Some("/a2/"), Some("/l/")));
    assert_eq!(links(&paths[0].courses[0].sections[0].lessons[0]), (Some("/b/"), None));
}
