use std::cmp::Ordering;

use cppref::download::{cache_file_name, plan_downloads};
use cppref::errors::AppError;
use cppref::references::{
    deduplicate_references, extract_references, get_required_references, CppReference,
    MarkdownFile, ReferenceSet,
};

fn reference(name: &str, url: &str) -> CppReference {
    CppReference {
        name: name.to_string(),
        url: url.to_string(),
        file: "test.md".to_string(),
        line: 1,
    }
}

fn set_of(refs: Vec<CppReference>) -> ReferenceSet {
    deduplicate_references(refs).unwrap()
}

#[test]
fn test_compare_cpp_names() {
    // Test basic comparison
    assert_eq!(
        cppref::ordering::compare_cpp_names("std::vector", "std::list"),
        Ordering::Greater
    );
    assert_eq!(
        cppref::ordering::compare_cpp_names("std::list", "std::vector"),
        Ordering::Less
    );
    assert_eq!(
        cppref::ordering::compare_cpp_names("std::vector", "std::vector"),
        Ordering::Equal
    );

    // Test nested names
    assert_eq!(
        cppref::ordering::compare_cpp_names("std::chrono::duration", "std::chrono::time_point"),
        Ordering::Less
    );

    // Test different depths
    assert_eq!(
        cppref::ordering::compare_cpp_names("std::vector", "std::vector::iterator"),
        Ordering::Less
    );
}

#[test]
fn test_compare_cpp_names_prefix_sorts_first() {
    assert_eq!(
        cppref::ordering::compare_cpp_names("a::b::c", "a::b"),
        Ordering::Greater
    );
    assert_eq!(
        cppref::ordering::compare_cpp_names("a::b", "a::b::c"),
        Ordering::Less
    );
}

#[test]
fn test_deduplicate_references_no_conflict() {
    let refs = vec![
        reference("std::vector", "https://example.com/vector"),
        reference("std::vector", "https://example.com/vector"),
    ];
    let result = deduplicate_references(refs).unwrap();
    assert_eq!(result.len(), 1);
}

#[test]
fn test_deduplicate_references_with_conflict() {
    let refs = vec![
        reference("std::vector", "https://example.com/vector1"),
        reference("std::vector", "https://example.com/vector2"),
    ];
    let result = deduplicate_references(refs);
    assert!(result.is_err());
    match result.unwrap_err() {
        AppError::DuplicateConflict { name, url1, url2 } => {
            assert_eq!(name, "std::vector");
            assert_eq!(url1, "https://example.com/vector1");
            assert_eq!(url2, "https://example.com/vector2");
        }
        _ => panic!("Expected DuplicateConflict error"),
    }
}

#[test]
fn test_extract_references_from_string() {
    let markdown = "| Algorithm | [`std::sort`](https://en.cppreference.com/w/cpp/algorithm/sort) | Sorts elements |\n| Algorithm | [`std::find`](https://en.cppreference.com/w/cpp/algorithm/find) (C++20) | Finds element |";

    let file = MarkdownFile {
        path: "test.md".to_string(),
        content: markdown.to_string(),
    };

    let refs = extract_references(&vec![file]).unwrap();
    assert_eq!(refs.len(), 2);
    assert_eq!(refs[0].name, "std::sort");
    assert_eq!(refs[1].name, "std::find");
}

#[test]
fn test_extract_name_and_url_captured_verbatim() {
    let markdown =
        "| Utility | [`std::move` (C++11)](https://en.cppreference.com/w/cpp/utility/move) | Moves |";
    let file = MarkdownFile {
        path: "contents/utility.md".to_string(),
        content: markdown.to_string(),
    };
    let refs = extract_references(&vec![file]).unwrap();
    assert_eq!(refs.len(), 1);
    assert_eq!(refs[0].name, "std::move");
    assert_eq!(refs[0].url, "https://en.cppreference.com/w/cpp/utility/move");
    assert_eq!(refs[0].file, "contents/utility.md");
    assert_eq!(refs[0].line, 1);
}

#[test]
fn test_extract_trims_trailing_spaces_in_name() {
    let markdown =
        "| Utility | [`std::move  `](https://en.cppreference.com/w/cpp/utility/move) | Moves |";
    let file = MarkdownFile {
        path: "test.md".to_string(),
        content: markdown.to_string(),
    };
    let refs = extract_references(&vec![file]).unwrap();
    assert_eq!(refs.len(), 1);
    assert_eq!(refs[0].name, "std::move");
}

#[test]
fn test_extract_malformed_name_is_format_error() {
    // the quoted name never closes
    let markdown = "first line\n| Utility | [`std::broken | cell |";
    let file = MarkdownFile {
        path: "bad.md".to_string(),
        content: markdown.to_string(),
    };
    match extract_references(&vec![file]) {
        Err(AppError::InvalidFileFormat { file, line }) => {
            assert_eq!(file, "bad.md");
            assert_eq!(line, 2);
        }
        other => panic!("expected InvalidFileFormat, got {:?}", other),
    }
}

#[test]
fn test_extract_wrong_domain_is_url_error() {
    let markdown = "| Utility | [`std::move`](https://example.com/move) | Moves |";
    let file = MarkdownFile {
        path: "bad.md".to_string(),
        content: markdown.to_string(),
    };
    match extract_references(&vec![file]) {
        Err(AppError::MissingUrl { file, line }) => {
            assert_eq!(file, "bad.md");
            assert_eq!(line, 1);
        }
        other => panic!("expected MissingUrl, got {:?}", other),
    }
}

#[test]
fn test_extract_skips_plain_lines() {
    let markdown = "# Heading\n\nSome prose about std::vector without a link.\n";
    let file = MarkdownFile {
        path: "plain.md".to_string(),
        content: markdown.to_string(),
    };
    let refs = extract_references(&vec![file]).unwrap();
    assert!(refs.is_empty());
}

#[test]
fn test_get_required_references_folds_duplicates() {
    let one = MarkdownFile {
        path: "a.md".to_string(),
        content: "| A | [`std::sort`](https://en.cppreference.com/w/cpp/algorithm/sort) | s |"
            .to_string(),
    };
    let two = MarkdownFile {
        path: "b.md".to_string(),
        content: "| B | [`std::sort`](https://en.cppreference.com/w/cpp/algorithm/sort) | s |"
            .to_string(),
    };
    let set = get_required_references(&vec![one, two]).unwrap();
    assert_eq!(set.len(), 1);
    assert_eq!(set.item_at(0).name, "std::sort");
}

#[test]
fn test_plan_downloads_complete_cache_fetches_nothing() {
    let refs = set_of(vec![
        reference("std::vector", "https://example.com/vector"),
        reference("std::list", "https://example.com/list"),
    ]);
    let cached = vec!["std::vector".to_string(), "std::list".to_string()];
    let plan = plan_downloads(&refs, &cached, false);
    assert!(plan.is_empty());
}

#[test]
fn test_plan_downloads_one_missing_fetches_one() {
    let refs = set_of(vec![
        reference("std::vector", "https://example.com/vector"),
        reference("std::list", "https://example.com/list"),
    ]);
    let cached = vec!["std::vector".to_string()];
    let plan = plan_downloads(&refs, &cached, false);
    assert_eq!(plan.len(), 1);
    assert_eq!(plan[0].name, "std::list");
}

#[test]
fn test_plan_downloads_empty_cache_fetches_all() {
    let refs = set_of(vec![
        reference("std::vector", "https://example.com/vector"),
        reference("std::list", "https://example.com/list"),
        reference("std::sort", "https://example.com/sort"),
    ]);
    let plan = plan_downloads(&refs, &Vec::new(), false);
    assert_eq!(plan.len(), 3);
}

#[test]
fn test_plan_downloads_overwrite_fetches_all() {
    let refs = set_of(vec![
        reference("std::vector", "https://example.com/vector"),
        reference("std::list", "https://example.com/list"),
    ]);
    let cached = vec!["std::vector".to_string(), "std::list".to_string()];
    let plan = plan_downloads(&refs, &cached, true);
    assert_eq!(plan.len(), 2);
}

#[test]
fn test_cache_file_name() {
    assert_eq!(cache_file_name("std::vector"), "std::vector.html");
}

#[test]
fn test_missing_files_error_lists_names() {
    let names = vec!["std::sort".to_string(), "std::find".to_string()];
    match AppError::missing_files(&names) {
        AppError::MissingRequiredFiles { count, files } => {
            assert_eq!(count, 2);
            assert_eq!(files, "std::sort.html, std::find.html");
        }
        other => panic!("expected MissingRequiredFiles, got {:?}", other),
    }
}
