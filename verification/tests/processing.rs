use cppref::dom::{HtmlAttr, HtmlNode};
use cppref::errors::AppError;
use cppref::print::{concat_documents, print_references, CachedPage};
use cppref::processing::{flatten_code_blocks, remove_navigation_elements};
use cppref::references::{deduplicate_references, CppReference, ReferenceSet};

fn el(name: &str, attrs: Vec<(&str, &str)>, children: Vec<HtmlNode>) -> HtmlNode {
    HtmlNode::Element {
        name: name.to_string(),
        attrs: attrs
            .into_iter()
            .map(|(n, v)| HtmlAttr {
                name: n.to_string(),
                value: v.to_string(),
            })
            .collect(),
        children,
    }
}

fn txt(s: &str) -> HtmlNode {
    HtmlNode::Text(s.to_string())
}

fn page(name: &str, marker: &str) -> CachedPage {
    CachedPage {
        name: name.to_string(),
        doc: el("html", vec![], vec![el("body", vec![], vec![txt(marker)])]),
    }
}

fn set_of(names: &[&str]) -> ReferenceSet {
    let refs = names
        .iter()
        .map(|n| CppReference {
            name: n.to_string(),
            url: format!("https://example.com/{}", n),
            file: "test.md".to_string(),
            line: 1,
        })
        .collect();
    deduplicate_references(refs).unwrap()
}

#[test]
fn test_flatten_code_blocks_basic() {
    let doc = el(
        "html",
        vec![],
        vec![el(
            "body",
            vec![],
            vec![el(
                "pre",
                vec![("class", "de1")],
                vec![el("span", vec![], vec![txt("code")])],
            )],
        )],
    );
    let result = flatten_code_blocks(&doc);
    let expected = el(
        "html",
        vec![],
        vec![el(
            "body",
            vec![],
            vec![el("pre", vec![("class", "de1")], vec![txt("code")])],
        )],
    );
    assert_eq!(result, expected);
}

#[test]
fn test_flatten_code_blocks_no_change() {
    let doc = el(
        "html",
        vec![],
        vec![el("body", vec![], vec![el("p", vec![], vec![txt("text")])])],
    );
    let result = flatten_code_blocks(&doc);
    assert_eq!(result, doc);
}

#[test]
fn test_flatten_keeps_text_order() {
    // <pre class="de1"><span>x</span>y</pre> becomes
    // <pre class="de1">xy</pre>
    let doc = el(
        "pre",
        vec![("class", "de1")],
        vec![el("span", vec![], vec![txt("x")]), txt("y")],
    );
    let result = flatten_code_blocks(&doc);
    assert_eq!(result, el("pre", vec![("class", "de1")], vec![txt("xy")]));
}

#[test]
fn test_sanitize_removes_both_regions() {
    let doc = el(
        "html",
        vec![],
        vec![el(
            "body",
            vec![],
            vec![
                el("div", vec![("class", "t-navbar extra")], vec![txt("nav")]),
                el("div", vec![("id", "mw-head")], vec![txt("head")]),
                el("p", vec![], vec![txt("content")]),
            ],
        )],
    );
    let (result, sanitized) = remove_navigation_elements(&doc);
    assert!(sanitized);
    let expected = el(
        "html",
        vec![],
        vec![el("body", vec![], vec![el("p", vec![], vec![txt("content")])])],
    );
    assert_eq!(result, expected);
}

#[test]
fn test_sanitize_missing_navbar_returns_original() {
    let doc = el(
        "html",
        vec![],
        vec![el(
            "body",
            vec![],
            vec![
                el("div", vec![("id", "mw-head")], vec![txt("head")]),
                el("p", vec![], vec![txt("content")]),
            ],
        )],
    );
    let (result, sanitized) = remove_navigation_elements(&doc);
    assert!(!sanitized);
    assert_eq!(result, doc);
}

#[test]
fn test_concat_skips_pages_without_body() {
    let first = el("html", vec![], vec![el("body", vec![], vec![txt("a")])]);
    let headless = el("html", vec![], vec![el("head", vec![], vec![])]);
    let second = el("html", vec![], vec![el("body", vec![], vec![txt("b")])]);
    let merged = concat_documents(&first, &vec![headless, second]).unwrap();
    let expected = el(
        "html",
        vec![],
        vec![el(
            "body",
            vec![],
            vec![txt("a"), el("div", vec![], vec![txt("b")])],
        )],
    );
    assert_eq!(merged, expected);
}

#[test]
fn test_concat_root_without_body_fails() {
    let first = el("html", vec![], vec![el("head", vec![], vec![])]);
    let result = concat_documents(&first, &Vec::new());
    assert!(matches!(
        result,
        Err(AppError::HtmlParsingError { .. })
    ));
}

#[test]
fn test_print_incomplete_cache_names_missing() {
    let refs = set_of(&["std::vector", "std::list", "std::sort"]);
    let pages = vec![page("std::list", "list")];
    match print_references(&refs, &pages, true) {
        Err(AppError::MissingRequiredFiles { count, files }) => {
            assert_eq!(count, 2);
            assert_eq!(files, "std::vector.html, std::sort.html");
        }
        other => panic!("expected MissingRequiredFiles, got {:?}", other),
    }
}

#[test]
fn test_print_complete_cache_merges_in_order() {
    let refs = set_of(&["std::vector", "std::list", "std::vector::iterator"]);
    let pages = vec![
        page("std::vector", "vector"),
        page("std::vector::iterator", "iterator"),
        page("std::list", "list"),
        // an extraneous cached page is ignored
        page("std::unrelated", "unrelated"),
    ];
    let merged = print_references(&refs, &pages, true).unwrap();
    // sorted order: std::list, std::vector, std::vector::iterator;
    // the first page is the root, the others arrive wrapped
    let expected = el(
        "html",
        vec![],
        vec![el(
            "body",
            vec![],
            vec![
                txt("list"),
                el("div", vec![], vec![txt("vector")]),
                el("div", vec![], vec![txt("iterator")]),
            ],
        )],
    );
    assert_eq!(merged, expected);
}

#[test]
fn test_print_flattened_mode_collapses_code_blocks() {
    let refs = set_of(&["std::sort"]);
    let pages = vec![CachedPage {
        name: "std::sort".to_string(),
        doc: el(
            "html",
            vec![],
            vec![el(
                "body",
                vec![],
                vec![el(
                    "pre",
                    vec![("class", "de1")],
                    vec![el("span", vec![], vec![txt("x")]), txt("y")],
                )],
            )],
        ),
    }];
    let merged = print_references(&refs, &pages, false).unwrap();
    let expected = el(
        "html",
        vec![],
        vec![el(
            "body",
            vec![],
            vec![el("pre", vec![("class", "de1")], vec![txt("xy")])],
        )],
    );
    assert_eq!(merged, expected);
}

#[test]
fn test_print_nothing_to_print_fails() {
    let refs = set_of(&[]);
    match print_references(&refs, &Vec::new(), true) {
        Err(AppError::IoError(_)) => {}
        other => panic!("expected IoError, got {:?}", other),
    }
}

#[test]
fn test_print_root_without_body_fails() {
    let refs = set_of(&["std::sort"]);
    let pages = vec![CachedPage {
        name: "std::sort".to_string(),
        doc: el("html", vec![], vec![el("head", vec![], vec![])]),
    }];
    assert!(matches!(
        print_references(&refs, &pages, true),
        Err(AppError::HtmlParsingError { .. })
    ));
}
