use pistonite_cu::paths::path_join;
use std::path::{Path, PathBuf};

fn long_expected() -> PathBuf {
    PathBuf::from("a")
        .join("b")
        .join("c")
        .join("d")
        .join("e")
        .join("f")
        .join("g")
        .join("h")
        .join("i")
        .join("j")
}

fn nine_expected() -> PathBuf {
    PathBuf::from("a")
        .join("b")
        .join("c")
        .join("d")
        .join("e")
        .join("f")
        .join("g")
        .join("h")
        .join("i")
}

#[test]
fn long_path_from_literal() {
    let c = "c";
    let e = String::from("e");
    let h = "h";
    let p = PathBuf::from(path_join(
        "a",
        &["b", c, "d", e.as_str(), "f", "g", h, "i", "j"],
    ));
    assert_eq!(p, long_expected());
}

#[test]
fn long_path_from_owned() {
    let base = PathBuf::from("a");
    let b = "b";
    let d = String::from("d");
    let g = "g";
    let p = PathBuf::from(path_join(
        base.to_str().unwrap(),
        &[b, "c", d.as_str(), "e", "f", g, "h", "i", "j"],
    ));
    assert_eq!(p, long_expected());
}

#[test]
fn long_path_from_borrowed() {
    let base = PathBuf::from("a");
    let base_ref: &Path = base.as_path();
    let c = String::from("c");
    let f = "f";
    let i = "i";
    let p = PathBuf::from(path_join(
        base_ref.to_str().unwrap(),
        &["b", c.as_str(), "d", "e", f, "g", "h", i, "j"],
    ));
    assert_eq!(p, long_expected());
}

#[test]
fn long_path_from_expr_owned() {
    let d = "d";
    let e = String::from("e");
    let f = String::from("f");
    let p = PathBuf::from(path_join(
        PathBuf::from("a").to_str().unwrap(),
        &["b", "c", d, &e, f.as_str(), "g", "h", "i", "j"],
    ));
    assert_eq!(p, long_expected());
}

#[test]
fn long_path_from_expr_borrowed() {
    let base = PathBuf::from("a");
    let b = "b";
    let e = String::from("e");
    let j = "j";
    let p = PathBuf::from(path_join(
        base.as_path().to_str().unwrap(),
        &[b, "c", "d", e.as_str(), "f", "g", "h", "i", j],
    ));
    assert_eq!(p, long_expected());
}

#[test]
fn long_path_no_consecutive_same_type_even() {
    let b = "b";
    let c = String::from("c");
    let e = "e";
    let f = String::from("f");
    let h = "h";
    let i = String::from("i");
    let p = PathBuf::from(path_join(
        "a",
        &[b, c.as_str(), "d", e, f.as_str(), "g", h, i.as_str(), "j"],
    ));
    assert_eq!(p, long_expected());
}

#[test]
fn long_path_no_consecutive_same_type_odd() {
    let b = "b";
    let c = String::from("c");
    let e = "e";
    let f = String::from("f");
    let h = "h";
    let i = String::from("i");
    let p = PathBuf::from(path_join(
        "a",
        &[b, c.as_str(), "d", e, f.as_str(), "g", h, i.as_str()],
    ));
    assert_eq!(p, nine_expected());
}

#[test]
fn join_with_absolute_segment_replaces() {
    assert_eq!(path_join("a", &["b", "/c", "d"]), "/c/d");
    assert_eq!(
        PathBuf::from(path_join("a", &["b", "/c", "d"])),
        PathBuf::from("a").join("b").join("/c").join("d")
    );
}

#[test]
fn join_does_not_double_separator() {
    assert_eq!(path_join("a/", &["b"]), "a/b");
    assert_eq!(path_join("", &["b"]), "b");
}
