use odin_ssg::models::{Course, Curriculum, Lesson, Path, Section, Theme};
use odin_ssg::renderer::{inject_theme_css, plan_pages, PageKind};
use odin_ssg::server::{mime_for, watch_step, WatchAction, WatchEvent};

fn lesson(slug: &str) -> Lesson {
    Lesson {
        slug: slug.to_string(),
        title: slug.to_string(),
        display_title: format!("L {}", slug),
        description: String::new(),
        position: 1,
        is_project: false,
        source_path: String::new(),
        output_path: format!("p/c/{}/index.html", slug),
        url: format!("/p/c/{}/", slug),
        html_content: None,
        prev: None,
        next: None,
        breadcrumbs: vec![],
    }
}

#[test]
fn pages_in_rendering_order() {
    let c = Curriculum {
        title: "Site".to_string(),
        description: String::new(),
        theme: Theme::biophilic(),
        paths: vec![Path {
            slug: "p".to_string(),
            title: "Path".to_string(),
            description: String::new(),
            position: 1,
            url: "/p/".to_string(),
            courses: vec![Course {
                slug: "c".to_string(),
                title: "Course".to_string(),
                description: String::new(),
                position: 1,
                url: "/p/c/".to_string(),
                badge_uri: None,
                sections: vec![Section { title: "S".to_string(), description: String::new(), position: 1, lessons: vec![lesson("a"), lesson("b")] }],
            }],
        }],
    };
    let pages = plan_pages(&c);
    let got: Vec<(&str, &str, &str)> = pages.iter().map(|p| (p.template.as_str(), p.output.as_str(), p.title.as_str())).collect();
    assert_eq!(
        got,
        vec![
            ("index.html", "index.html", "Site"),
            ("path.html", "p/index.html", "Path \u{2014} Site"),
            ("course.html", "p/c/index.html", "Course \u{2014} Path \u{2014} Site"),
            ("lesson.html", "p/c/a/index.html", "L a \u{2014} Site"),
            ("lesson.html", "p/c/b/index.html", "L b \u{2014} Site"),
        ]
    );
    assert!(matches!(pages[4].kind, PageKind::Lesson(0, 0, 1)));
    assert!(matches!(pages[1].kind, PageKind::Path(0)));
}

#[test]
fn theme_css_is_appended() {
    let t = Theme::biophilic();
    let css = inject_theme_css("body{}", &t);
    assert_eq!(css, format!("body{{}}\n\n/* --- Theme Variables --- */\n{}", t.to_css()));
}

#[test]
fn mime_types() {
    assert_eq!(mime_for(Some("html")), "text/html; charset=utf-8");
    assert_eq!(mime_for(Some("css")), "text/css; charset=utf-8");
    assert_eq!(mime_for(Some("js")), "application/javascript");
    assert_eq!(mime_for(Some("json")), "application/json");
    assert_eq!(mime_for(Some("svg")), "image/svg+xml");
    assert_eq!(mime_for(Some("png")), "image/png");
    assert_eq!(mime_for(Some("jpg")), "image/jpeg");
    assert_eq!(mime_for(Some("jpeg")), "image/jpeg");
    assert_eq!(mime_for(Some("ico")), "image/x-icon");
    assert_eq!(mime_for(Some("woff2")), "font/woff2");
    assert_eq!(mime_for(Some("HTML")), "application/octet-stream");
    assert_eq!(mime_for(None), "application/octet-stream");
}

#[test]
fn rebuilds_are_debounced() {
    assert!(matches!(watch_step(0, WatchEvent::Changed(299)), (0, WatchAction::Wait)));
    assert!(matches!(watch_step(0, WatchEvent::Changed(300)), (0, WatchAction::Rebuild)));
    assert!(matches!(watch_step(1000, WatchEvent::Changed(1200)), (1000, WatchAction::Wait)));
    assert!(matches!(watch_step(1000, WatchEvent::Rebuilt(1450)), (1450, WatchAction::Wait)));
    assert!(matches!(watch_step(1450, WatchEvent::Changed(1750)), (1450, WatchAction::Rebuild)));
    assert!(matches!(watch_step(7, WatchEvent::WatchFailed), (7, WatchAction::ReportError)));
    assert!(matches!(watch_step(7, WatchEvent::Closed), (7, WatchAction::Stop)));
}
