use odin_ssg::keyed::{put_in_order, str_lt};
use odin_ssg::manifest::NestedLessonValue;
use odin_ssg::text::{
    capitalize, html_escape, split_whitespace_words, strip_html_tags, take_chars, title_case, uppercase_char,
};

#[test]
fn html_escape_replaces_the_four_characters() {
    assert_eq!(html_escape("a&b<c>d\"e"), "a&amp;b&lt;c&gt;d&quot;e");
    assert_eq!(html_escape("rust"), "rust");
    assert_eq!(html_escape(""), "");
    assert_eq!(html_escape("&amp;"), "&amp;amp;");
}

#[test]
fn strip_html_tags_keeps_text_outside_tags() {
    assert_eq!(strip_html_tags("<p>Hello <b>world</b></p>"), "Hello world");
    assert_eq!(strip_html_tags("a > b"), "a  b");
    assert_eq!(strip_html_tags("no tags"), "no tags");
    assert_eq!(strip_html_tags("<unclosed text"), "");
}

#[test]
fn take_chars_counts_characters_not_bytes() {
    assert_eq!(take_chars("héllo", 2), "hé");
    assert_eq!(take_chars("abc", 10), "abc");
    assert_eq!(take_chars("abc", 0), "");
}

#[test]
fn title_case_splits_and_capitalizes() {
    assert_eq!(title_case("web-development-101", '-'), "Web Development 101");
    assert_eq!(title_case("full_stack_javascript", '_'), "Full Stack Javascript");
    assert_eq!(title_case("a--b", '-'), "A  B");
    assert_eq!(title_case("", '-'), "");
}

#[test]
fn capitalize_uses_unicode_uppercase() {
    assert_eq!(capitalize("ßtraße"), "SStraße");
    assert_eq!(capitalize("élan"), "Élan");
    assert_eq!(capitalize("1abc"), "1abc");
    assert_eq!(capitalize(""), "");
}

#[test]
fn split_whitespace_words_drops_empty_runs() {
    assert_eq!(split_whitespace_words("  how  this\tworks \n"), vec!["how", "this", "works"]);
    assert!(split_whitespace_words("   ").is_empty());
}

#[test]
fn str_lt_orders_by_code_point() {
    assert!(str_lt("abc", "abd"));
    assert!(str_lt("ab", "abc"));
    assert!(!str_lt("abc", "abc"));
    assert!(str_lt("Zebra", "apple"));
    assert!(!str_lt("b", "a"));
}

#[test]
fn put_in_order_keeps_keys_sorted_and_replaces() {
    let mut m: Vec<(String, NestedLessonValue)> = Vec::new();
    put_in_order(&mut m, "b".to_string(), NestedLessonValue::File("b1.md".to_string()));
    put_in_order(&mut m, "a".to_string(), NestedLessonValue::File("a.md".to_string()));
    put_in_order(&mut m, "c".to_string(), NestedLessonValue::File("c.md".to_string()));
    put_in_order(&mut m, "b".to_string(), NestedLessonValue::File("b2.md".to_string()));
    let keys: Vec<&str> = m.iter().map(|p| p.0.as_str()).collect();
    assert_eq!(keys, vec!["a", "b", "c"]);
    match &m[1].1 {
        NestedLessonValue::File(f) => assert_eq!(f, "b2.md"),
        _ => panic!("expected a plain file"),
    }
}

#[test]
fn uppercase_char_maps_ascii_letters() {
    assert_eq!(uppercase_char('f'), "F");
    assert_eq!(uppercase_char('-'), "-");
    assert_eq!(uppercase_char('ß'), "SS");
}
