use cherenkov::paths::{equal, is_absolute, join};
use std::path::Path;

#[test]
fn joins_agree_with_paths() {
    for base in ["", "a", "a/", "/", "/x/y"] {
        for path in ["", "b", "b/c", "/abs", "./d"] {
            assert_eq!(join(base, path), Path::new(base).join(path).to_str().unwrap(), "{base} {path}");
        }
    }
}

#[test]
fn a_joined_absolute_path_stays() {
    assert_eq!(join("/home/me", "/tmp/x"), "/tmp/x");
    assert!(is_absolute(&join("/home/me", "x")));
    assert!(!is_absolute("x/y") && !is_absolute(""));
}

#[test]
fn equality_agrees_with_paths() {
    let list = ["a/b", "a//b", "a/./b", "a/b/", "./a/b", "/a/b", "a/../b", "a", "", ".", "/", "//"];
    for a in list {
        for b in list {
            assert_eq!(equal(a, b), Path::new(a) == Path::new(b), "{a} {b}");
        }
    }
}
