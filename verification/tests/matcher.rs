use precommit::{Matcher, Selection};

fn regex_matcher(pattern: &str) -> Matcher {
    Matcher::compile(&Selection::Regex(pattern.to_string())).unwrap()
}

fn extension_matcher(accepted: &[&str]) -> Matcher {
    let accepted: Vec<String> = accepted.iter().map(|s| s.to_string()).collect();
    Matcher::compile(&Selection::Extensions(accepted)).unwrap()
}

#[test]
fn regex_is_searched_anywhere_in_the_path() {
    let matcher = regex_matcher("src/");
    assert!(matcher.matches("src/main.rs"));
    assert!(matcher.matches("crates/x/src/lib.rs"));
    assert!(!matcher.matches("tests/a.rs"));
}

#[test]
fn anchored_regex_matches_the_end_only() {
    let matcher = regex_matcher("\\.rs$");
    assert!(matcher.matches("a.rs"));
    assert!(!matcher.matches("a.rs.bak"));
    assert!(!matcher.matches("b.txt"));
    assert!(!matcher.matches("ars"));
}

#[test]
fn regex_that_is_the_path_itself_does_not_decide() {
    let matcher = regex_matcher("^a$");
    assert!(matcher.matches("a"));
    assert!(!matcher.matches("^a$"));
}

#[test]
fn empty_regex_matches_every_path() {
    let matcher = regex_matcher("");
    assert!(matcher.matches(""));
    assert!(matcher.matches("anything"));
}

#[test]
fn invalid_regex_has_no_matcher() {
    assert!(Matcher::compile(&Selection::Regex("(".to_string())).is_none());
    assert!(Matcher::compile(&Selection::Regex("[a-".to_string())).is_none());
    assert!(Matcher::compile(&Selection::Regex("a{2,1}".to_string())).is_none());
}

#[test]
fn extensions_always_compile() {
    assert!(Matcher::compile(&Selection::Extensions(Vec::new())).is_some());
    assert!(Matcher::compile(&Selection::Extensions(vec!["(".to_string()])).is_some());
}

#[test]
fn extension_is_what_follows_the_last_dot() {
    let matcher = extension_matcher(&["rs", "toml"]);
    assert!(matcher.matches("a.rs"));
    assert!(matcher.matches("src/deep/mod.rs"));
    assert!(matcher.matches("Cargo.toml"));
    assert!(matcher.matches("archive.tar.rs"));
    assert!(!matcher.matches("a.rs.bak"));
    assert!(!matcher.matches("a.txt"));
}

#[test]
fn path_without_dot_has_no_extension() {
    let matcher = extension_matcher(&["rs", "", "Makefile"]);
    assert!(!matcher.matches("Makefile"));
    assert!(!matcher.matches("rs"));
    assert!(!matcher.matches(""));
}

#[test]
fn extension_needs_the_dot_before_it() {
    let matcher = extension_matcher(&["rs"]);
    assert!(!matcher.matches("ars"));
    assert!(!matcher.matches("rs"));
    assert!(matcher.matches(".rs"));
}

#[test]
fn empty_extension_matches_a_trailing_dot() {
    let matcher = extension_matcher(&[""]);
    assert!(matcher.matches("file."));
    assert!(matcher.matches("."));
    assert!(!matcher.matches("file.rs"));
    assert!(!matcher.matches("file"));
}

#[test]
fn accepted_extension_with_a_dot_never_matches() {
    let matcher = extension_matcher(&["tar.gz"]);
    assert!(!matcher.matches("a.tar.gz"));
    let matcher = extension_matcher(&[".rs"]);
    assert!(!matcher.matches("a.rs"));
    assert!(!matcher.matches("a..rs"));
}

#[test]
fn extension_reaches_over_directories() {
    let matcher = extension_matcher(&["d/file"]);
    assert!(matcher.matches("dir.d/file"));
    assert!(!matcher.matches("dir.d/file.x"));
}

#[test]
fn extension_is_compared_exactly() {
    let matcher = extension_matcher(&["rs"]);
    assert!(!matcher.matches("a.RS"));
    assert!(!matcher.matches("a.rss"));
    assert!(!matcher.matches("a.r"));
}

#[test]
fn extension_of_a_path_with_wide_characters() {
    let matcher = extension_matcher(&["rs", "\u{e9}t\u{e9}"]);
    assert!(matcher.matches("d\u{e9}j\u{e0}.rs"));
    assert!(matcher.matches("saison.\u{e9}t\u{e9}"));
    assert!(!matcher.matches("saison.ete"));
}

#[test]
fn no_accepted_extension_matches_nothing() {
    let matcher = extension_matcher(&[]);
    assert!(!matcher.matches("a.rs"));
    assert!(!matcher.matches("a."));
}
