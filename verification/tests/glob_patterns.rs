use pistonite_cu::glob::{expand_braces, GlobError, GlobPattern};
use std::path::Path;

fn pattern(p: &str) -> GlobPattern {
    GlobPattern::new(p).expect("pattern should compile")
}

#[test]
fn no_braces() {
    let p = pattern("**/*.rs");
    assert!(p.matches("src/main.rs"));
    assert!(!p.matches("src/README.md"));
}

#[test]
fn alternation() {
    let p = pattern("**/*.{rs,toml}");
    assert!(p.matches("src/main.rs"));
    assert!(p.matches("src/Cargo.toml"));
    assert!(!p.matches("src/README.md"));
}

#[test]
fn cross_product() {
    let p = pattern("{a,b}/{c,d}");
    assert!(p.matches("a/c"));
    assert!(p.matches("a/d"));
    assert!(p.matches("b/c"));
    assert!(p.matches("b/d"));
    assert!(!p.matches("a/b"));
    assert!(!p.matches("c/a"));
}

#[test]
fn nested() {
    let p = pattern("{a,{b,c}}");
    assert!(p.matches("a"));
    assert!(p.matches("b"));
    assert!(p.matches("c"));
    assert!(!p.matches("d"));
}

#[test]
fn single_alternative() {
    let p = pattern("{a}");
    assert!(p.matches("a"));
    assert!(!p.matches("{a}"));
}

#[test]
fn bracket_literal_brace() {
    let p = pattern("[{]");
    assert!(p.matches("{"));
    assert!(!p.matches("["));
}

#[test]
fn bracket_comma() {
    let p = pattern("[a,b]");
    assert!(p.matches("a"));
    assert!(p.matches(","));
    assert!(p.matches("b"));
    assert!(!p.matches("a,b"));
}

#[test]
fn bracket_negated_comma() {
    let p = pattern("[!,]");
    assert!(p.matches("a"));
    assert!(!p.matches(","));
}

#[test]
fn bracket_close_first() {
    let p = pattern("[]]");
    assert!(p.matches("]"));

    let p = pattern("[!]]");
    assert!(p.matches("a"));
    assert!(!p.matches("]"));
}

#[test]
fn err_unmatched_open() {
    assert!(GlobPattern::new("a{b").is_err());
}

#[test]
fn err_unmatched_close() {
    assert!(GlobPattern::new("a}b").is_err());
    assert!(GlobPattern::new("{a,b}}").is_err());
}

#[test]
fn err_empty_alternative() {
    assert!(GlobPattern::new("{a,}").is_err());
    assert!(GlobPattern::new("{,a}").is_err());
    assert!(GlobPattern::new("{}").is_err());
}

#[test]
fn cap_at_boundary() {
    assert!(GlobPattern::new(&"{a,b}".repeat(12)).is_ok());
    assert!(GlobPattern::new(&"{a,b}".repeat(13)).is_err());
}

#[test]
fn deep_nesting_does_not_overflow() {
    let _ = GlobPattern::new(&"{a}".repeat(10_000));
}

#[test]
fn matches_path_agrees_with_matches() {
    let p = pattern("**/*.{rs,toml}");
    assert!(p.matches_path(Path::new("src/main.rs").to_str().unwrap()));
    assert!(!p.matches_path(Path::new("src/README.md").to_str().unwrap()));
}

fn expansions(p: &str) -> Vec<String> {
    expand_braces(p)
        .unwrap()
        .into_iter()
        .map(|v| v.into_iter().collect())
        .collect()
}

#[test]
fn expand_cross_product_order() {
    assert_eq!(expansions("{a,b}/{c,d}"), vec!["a/c", "a/d", "b/c", "b/d"]);
}

#[test]
fn expand_without_braces_is_identity() {
    assert_eq!(expansions("src/**/*.rs"), vec!["src/**/*.rs"]);
}

#[test]
fn expand_keeps_character_classes() {
    assert_eq!(expansions("[{,}]{x,y}"), vec!["[{,}]x", "[{,}]y"]);
}

#[test]
fn expand_error_variants() {
    assert_eq!(expand_braces("a{b"), Err(GlobError::UnmatchedOpen));
    assert_eq!(expand_braces("a}b"), Err(GlobError::UnmatchedClose));
    assert_eq!(expand_braces("{a,}"), Err(GlobError::EmptyAlternative));
    assert_eq!(
        expand_braces(&"{a,b}".repeat(13)),
        Err(GlobError::TooManyPermutations)
    );
}

#[test]
fn invalid_glob_is_reported() {
    assert!(matches!(GlobPattern::new("a[b"), Err(GlobError::InvalidGlob)));
}

#[test]
fn sources_lists_permutations() {
    let p = pattern("{x,y}.rs");
    assert!(p.matches("x.rs"));
    assert!(p.matches("y.rs"));
    assert!(!p.matches("z.rs"));
}
