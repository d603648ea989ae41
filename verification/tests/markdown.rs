use odin_ssg::parser::markdown::render;

#[test]
fn test_basic_paragraph() {
    let html = render("Hello **world**.");
    assert!(html.contains("<strong>world</strong>"));
}

#[test]
fn test_fenced_code_block_lang_class() {
    let md = "```rust\nlet x = 1;\n```";
    let html = render(md);
    assert!(html.contains("language-rust"));
    assert!(html.contains("let x = 1;"));
}

#[test]
fn test_tables() {
    let md = "| A | B |\n|---|---|\n| 1 | 2 |";
    let html = render(md);
    assert!(html.contains("<table>"));
}

#[test]
fn test_html_passthrough() {
    let md = "<div class=\"lesson-note\" markdown=\"1\">\n\n#### Note\n\nBody.\n\n</div>";
    let html = render(md);
    assert!(html.contains("lesson-note"));
}
