use epistle::directive::extract_file_path;

#[test]
fn quoted_preserves_whitespace() {
    assert_eq!(extract_file_path("rust file:\"a b\""), Some("a b".to_string()));
}

#[test]
fn quoted_alone() {
    assert_eq!(extract_file_path("file:\"with spaces.txt\""), Some("with spaces.txt".to_string()));
}

#[test]
fn unquoted_path() {
    assert_eq!(extract_file_path("rust file:foo/bar.txt"), Some("foo/bar.txt".to_string()));
}

#[test]
fn unquoted_stops_at_whitespace() {
    assert_eq!(extract_file_path("python file:src/main.py linenos"), Some("src/main.py".to_string()));
}

#[test]
fn no_token_gives_nothing() {
    assert_eq!(extract_file_path("rust linenos"), None);
}

#[test]
fn empty_string_gives_nothing() {
    assert_eq!(extract_file_path(""), None);
}

#[test]
fn bare_token_gives_nothing() {
    assert_eq!(extract_file_path("file:"), None);
}

#[test]
fn token_before_whitespace_gives_nothing() {
    assert_eq!(extract_file_path("file: x"), None);
}

#[test]
fn first_match_wins() {
    assert_eq!(extract_file_path("file:x file:\"a b\""), Some("x".to_string()));
}

#[test]
fn later_token_matches_when_first_cannot() {
    assert_eq!(extract_file_path("file: x file:y"), Some("y".to_string()));
}

#[test]
fn token_inside_word_matches() {
    assert_eq!(extract_file_path("afile:x"), Some("x".to_string()));
}

#[test]
fn unclosed_quote_falls_back_to_run() {
    assert_eq!(extract_file_path("file:\"ab"), Some("\"ab".to_string()));
}

#[test]
fn empty_quoted_is_empty_path() {
    assert_eq!(extract_file_path("file:\"\""), Some("".to_string()));
}

#[test]
fn dotdot_passes_through() {
    assert_eq!(extract_file_path("file:../escape.txt"), Some("../escape.txt".to_string()));
}
