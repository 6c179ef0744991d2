use markd::pipeline::{render_document, RuleSet};
use markd::server::{document_path, document_response, listing, route, strip_extension, Route};
use markd::source::{parse_file, ConversionError};

#[test]
fn root_routes_to_listing() {
    assert!(matches!(route("/"), Route::Listing));
    assert!(matches!(route(""), Route::Listing));
}

#[test]
fn name_routes_to_document() {
    match route("/a") {
        Route::Document(k) => assert_eq!(k, "a"),
        Route::Listing => panic!("expected a document"),
    }
    match route("a") {
        Route::Document(k) => assert_eq!(k, "a"),
        Route::Listing => panic!("expected a document"),
    }
    match route("//x") {
        Route::Document(k) => assert_eq!(k, "/x"),
        Route::Listing => panic!("expected a document"),
    }
}

#[test]
fn document_path_adds_extension() {
    assert_eq!(document_path("testfiles", "a"), "testfiles/a.md");
}

#[test]
fn strip_extension_cases() {
    assert_eq!(strip_extension("a.md"), "a");
    assert_eq!(strip_extension("a.b.md"), "a.b");
    assert_eq!(strip_extension("README"), "README");
    assert_eq!(strip_extension(".hidden"), "");
    assert_eq!(strip_extension("a."), "a.");
    assert_eq!(strip_extension(""), "");
}

#[test]
fn listing_links_each_entry() {
    let names = vec!["a.md".to_string(), "b.md".to_string()];
    let out = listing(&names);
    assert_eq!(out, "<a href=\"a\">a</a><br /><a href=\"b\">b</a><br />");
    assert!(out.contains("href=\"a\"") && out.contains("href=\"b\""));
    assert_eq!(listing(&vec![]), "");
}

#[test]
fn served_document_equals_direct_conversion() {
    let rules = RuleSet::standard();
    let source = "! A\n# Heading\nsome *text*".to_string();
    let key = match route("/a") {
        Route::Document(k) => k,
        Route::Listing => panic!("expected a document"),
    };
    let path = document_path("data", &key);
    let served = document_response(parse_file(&path, true, Ok(source.clone()), &rules));
    let direct = parse_file("data/a.md", true, Ok(source.clone()), &rules);
    assert_eq!(served.0, 200);
    assert_eq!(Ok(served.1.clone()), direct);
    assert_eq!(served.1, render_document(&source, &rules));
}

#[test]
fn missing_document_gets_fallback() {
    let rules = RuleSet::standard();
    let r = parse_file("data/missing.md", false, Err(ConversionError::NotFound), &rules);
    assert_eq!(document_response(r), (404, "404".to_string()));
}

#[test]
fn converted_document_gets_ok_status() {
    assert_eq!(document_response(Ok("x".to_string())), (200, "x".to_string()));
}
