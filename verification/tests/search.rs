use minigrep::filter;

/// Test the filter function with ignore_case set to false.
#[test]
fn test_filter() {
    let query = "public";
    let contents = "public struct Test {}";
    let result = filter(query, contents, false);
    assert_eq!(result, vec!["public struct Test {}"]);
}

/// Test the filter function with ignore_case set to false.
/// The query is in uppercase, but the content is in lowercase.
#[test]
fn test_filter_case_sensitive() {
    let query = "public";
    let contents = "PUBLIC struct Test {}";
    let result = filter(query, contents, false);
    assert_eq!(result, Vec::<&str>::new());
}

/// Test the filter function with ignore_case set to true.
#[test]
fn test_filter_ignore_case() {
    let query = "public";
    let contents = "PUBLIC struct Test {}";
    let result = filter(query, contents, true);
    assert_eq!(result, vec!["PUBLIC struct Test {}"]);
}

/// Test the filter function with no result.
/// The query is not in the content.
#[test]
fn test_filter_no_result() {
    let query = "public";
    let contents = "struct Test {}";
    let result = filter(query, contents, false);
    assert_eq!(result, Vec::<&str>::new());
}

#[test]
fn filter_keeps_matching_lines_in_order() {
    let contents = "alpha one\nbeta two\nalpha three\ngamma\nalpha four";
    let result = filter("alpha", contents, false);
    assert_eq!(result, vec!["alpha one", "alpha three", "alpha four"]);
}

#[test]
fn filter_empty_query_returns_all_lines() {
    let contents = "first\nsecond\nthird";
    let result = filter("", contents, false);
    assert_eq!(result, vec!["first", "second", "third"]);
}

#[test]
fn filter_empty_contents_returns_nothing() {
    assert_eq!(filter("public", "", false), Vec::<&str>::new());
    assert_eq!(filter("public", "", true), Vec::<&str>::new());
    assert_eq!(filter("", "", false), Vec::<&str>::new());
}

#[test]
fn filter_twice_gives_identical_results() {
    let contents = "Rust is fast\nrust is safe\ntrust me";
    let first = filter("rust", contents, true);
    let second = filter("rust", contents, true);
    assert_eq!(first, second);
    assert_eq!(first, vec!["Rust is fast", "rust is safe", "trust me"]);
}

#[test]
fn filter_strips_crlf_terminators() {
    let contents = "one\r\ntwo\r\nthree\r\n";
    let result = filter("o", contents, false);
    assert_eq!(result, vec!["one", "two"]);
}

#[test]
fn filter_trailing_newline_opens_no_line() {
    let result = filter("", "a\nb\n", false);
    assert_eq!(result, vec!["a", "b"]);
}

#[test]
fn filter_keeps_lone_carriage_return() {
    let result = filter("", "a\rb", false);
    assert_eq!(result, vec!["a\rb"]);
}

#[test]
fn filter_empty_line_between_terminators() {
    let result = filter("", "a\n\nb", false);
    assert_eq!(result, vec!["a", "", "b"]);
}

/// The query is never lower-cased: a mixed-case query misses even a line
/// whose lower-cased form would hold the query's lower-cased form.
#[test]
fn filter_query_is_not_lowercased() {
    let result = filter("Public", "PUBLIC struct Test {}", true);
    assert_eq!(result, Vec::<&str>::new());
}

#[test]
fn filter_matches_inside_a_word() {
    let result = filter("ubl", "public struct Test {}", false);
    assert_eq!(result, vec!["public struct Test {}"]);
}
