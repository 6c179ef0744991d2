use markd::pipeline::{apply, extract_title, render_document, RuleSet};
use markd::source::{admit_source, batch_failed, check_source, parse_file, ConversionError};

fn run(text: &str) -> String {
    apply(text, &RuleSet::standard())
}

fn doc(title: &str, body: &str) -> String {
    format!(
        "<!DOCTYPE html><html><head><title>{}</title></head><body>{}</body></html>",
        title, body
    )
}

#[test]
fn standard_rule_count() {
    assert_eq!(RuleSet::standard().len(), 7);
}

#[test]
fn single_hash_heading() {
    assert_eq!(run("# Heading"), "<h1>Heading</h1>");
    assert_eq!(run("intro\n# Heading\nend"), "intro\n<h1>Heading</h1>\nend");
}

#[test]
fn double_hash_is_not_level_one() {
    let out = run("## Heading");
    assert_eq!(out, "<h2>Heading</h2>");
    assert!(!out.contains("<h1>"));
}

#[test]
fn heading_levels_three_and_four() {
    assert_eq!(run("### Three"), "<h3>Three</h3>");
    assert_eq!(run("#### Four"), "<h4>Four</h4>");
}

#[test]
fn heading_needs_space_and_at_most_four_hashes() {
    assert_eq!(run("#Heading"), "#Heading");
    assert_eq!(run("##### Five"), "##### Five");
    assert_eq!(run("a # b"), "a # b");
}

#[test]
fn empty_heading() {
    assert_eq!(run("# "), "<h1></h1>");
}

#[test]
fn blank_line_becomes_break() {
    assert_eq!(run("a\n\nb"), "a\n<br />\nb");
}

#[test]
fn empty_text_is_one_blank_line() {
    assert_eq!(run(""), "<br />");
}

#[test]
fn trailing_newline_ends_in_blank_line() {
    assert_eq!(run("a\n"), "a\n<br />");
}

#[test]
fn carriage_return_line_is_not_blank() {
    assert_eq!(run("a\r\n\r\nb"), "a\r\n\r\nb");
}

#[test]
fn strong_keeps_preceding_character() {
    assert_eq!(run("a **b** c"), "a <strong>b</strong> c");
    assert_eq!(run("x**b**"), "x<strong>b</strong>");
}

#[test]
fn emphasis_keeps_preceding_character() {
    assert_eq!(run("a *b* c"), "a <em>b</em> c");
}

#[test]
fn emphasis_is_greedy() {
    assert_eq!(run("x *a* and *b*"), "x <em>a* and *b</em>");
}

#[test]
fn markup_at_line_start_is_not_recognised() {
    assert_eq!(run("**b** c"), "**b** c");
    assert_eq!(run("*b* c"), "*b* c");
    assert_eq!(run("a\n**b** c"), "a\n**b** c");
}

#[test]
fn escaped_markup_is_left() {
    assert_eq!(run("a\\**b**"), "a\\**b**");
    assert_eq!(run("\\*b*"), "\\*b*");
}

#[test]
fn emphasis_not_after_plus() {
    assert_eq!(run("a+*b*"), "a+*b*");
}

#[test]
fn strong_needs_text() {
    assert_eq!(run("a ****"), "a <em>**</em>");
    assert_eq!(run("a ***"), "a <em>*</em>");
    assert_eq!(run("a **"), "a **");
}

#[test]
fn strong_then_emphasis() {
    assert_eq!(run("a **b** and *c*"), "a <strong>b</strong> and <em>c</em>");
}

#[test]
fn heading_with_strong_text() {
    assert_eq!(run("# a **b**"), "<h1>a <strong>b</strong></h1>");
}

#[test]
fn title_line_sets_title_and_leaves_body() {
    let rules = RuleSet::standard();
    let out = render_document("! My Title\n# Section", &rules);
    assert_eq!(out, doc("My Title", "<br />\n<h1>Section</h1>"));
    assert!(!out.contains("! My Title"));
}

#[test]
fn default_title_without_title_line() {
    let rules = RuleSet::standard();
    assert_eq!(
        render_document("# Section", &rules),
        doc("Markdown Page", "<h1>Section</h1>")
    );
}

#[test]
fn only_first_title_line_counts() {
    let rules = RuleSet::standard();
    assert_eq!(
        render_document("text\n! A\n! B", &rules),
        doc("A", "text\n<br />\n! B")
    );
}

#[test]
fn title_needs_space() {
    let rules = RuleSet::standard();
    assert_eq!(render_document("!A", &rules), doc("Markdown Page", "!A"));
}

#[test]
fn extract_title_splits_source() {
    let (title, body) = extract_title("! T\nbody");
    assert_eq!(title, Some("T".to_string()));
    assert_eq!(body, "\nbody");
    let (title, body) = extract_title("no title");
    assert_eq!(title, None);
    assert_eq!(body, "no title");
}

#[test]
fn second_pass_is_not_idempotent() {
    let rules = RuleSet::standard();
    let once = render_document("a\n\nb", &rules);
    assert!(once.contains("a\n<br />\nb"));
    let twice = render_document(&once, &rules);
    assert_ne!(twice, once);
    assert!(twice.len() > once.len());
    assert_eq!(twice.matches("<!DOCTYPE html>").count(), 2);
}

#[test]
fn second_pass_replaces_blank_lines_left_in_html() {
    let rules = RuleSet::standard();
    let html = "<p>a</p>\n\n<p>b</p>";
    let out = render_document(html, &rules);
    assert_eq!(out, doc("Markdown Page", "<p>a</p>\n<br />\n<p>b</p>"));
}

#[test]
fn hidden_file_is_unsupported() {
    let rules = RuleSet::standard();
    let r = parse_file(".b.md", true, Ok("# x".to_string()), &rules);
    assert_eq!(r, Err(ConversionError::Unsupported));
    let r = parse_file("dir/.b.md", true, Ok("# x".to_string()), &rules);
    assert_eq!(r, Err(ConversionError::Unsupported));
}

#[test]
fn batch_directory_converts_only_visible_file() {
    assert_eq!(check_source("in/a.md", true), Ok(()));
    assert_eq!(check_source("in/.b.md", true), Err(ConversionError::Unsupported));
}

#[test]
fn base_name_is_taken_from_path() {
    assert_eq!(check_source(".dir/a.md", true), Ok(()));
    assert_eq!(check_source("dir/..", true), Err(ConversionError::Unsupported));
}

#[test]
fn missing_file_is_not_found() {
    let rules = RuleSet::standard();
    let r = parse_file("a.md", false, Err(ConversionError::NotFound), &rules);
    assert_eq!(r, Err(ConversionError::NotFound));
    assert_eq!(check_source(".b.md", false), Err(ConversionError::NotFound));
}

#[test]
fn read_errors_are_passed_on() {
    let rules = RuleSet::standard();
    let r = parse_file("a.md", true, Err(ConversionError::IoError), &rules);
    assert_eq!(r, Err(ConversionError::IoError));
    let r = parse_file("a.md", true, Err(ConversionError::EncodingError), &rules);
    assert_eq!(r, Err(ConversionError::EncodingError));
}

#[test]
fn visible_file_is_converted() {
    let rules = RuleSet::standard();
    let r = parse_file("docs/a.md", true, Ok("! A\n# x".to_string()), &rules);
    assert_eq!(r, Ok(doc("A", "<br />\n<h1>x</h1>")));
}

#[test]
fn admit_source_order() {
    assert_eq!(admit_source(false, None), Err(ConversionError::NotFound));
    assert_eq!(admit_source(true, None), Err(ConversionError::Unsupported));
    assert_eq!(admit_source(true, Some(".x")), Err(ConversionError::Unsupported));
    assert_eq!(admit_source(true, Some("x")), Ok(()));
    assert_eq!(admit_source(true, Some("")), Ok(()));
}

#[test]
fn batch_failure_policy() {
    assert!(!batch_failed(&vec![]));
    assert!(!batch_failed(&vec![Ok(()), Err(ConversionError::Unsupported)]));
    assert!(batch_failed(&vec![Ok(()), Err(ConversionError::IoError)]));
    assert!(batch_failed(&vec![Err(ConversionError::NotFound)]));
}
