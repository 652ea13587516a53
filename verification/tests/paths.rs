use std::path::{Path, PathBuf};
use xcode_lsp_gen::paths::{ends_with, has_extension};
use xcode_lsp_gen::sorting::{compare_paths, insert_sorted};

fn bytes(path: &str) -> Vec<u8> {
    path.as_bytes().to_vec()
}

fn sorted(paths: &[&str]) -> Vec<String> {
    let mut list: Vec<Vec<u8>> = Vec::new();
    for path in paths {
        insert_sorted(&mut list, bytes(path));
    }
    list.iter().map(|p| String::from_utf8(p.clone()).unwrap()).collect()
}

fn many_paths() -> Vec<String> {
    let parts = ["", "/", ".", "..", "a", "a.b", "b", ".a", "a.", "ab", "A.xcodeproj"];
    let mut all = Vec::new();
    for x in parts {
        for y in parts {
            for z in parts {
                all.push(format!("{}{}{}", x, y, z));
                all.push(format!("{}/{}/{}", x, y, z));
            }
        }
    }
    all
}

#[test]
fn extension_follows_the_last_dot() {
    assert!(has_extension(&bytes("App.xcodeproj"), "xcodeproj"));
    assert!(has_extension(&bytes("./x/App.xcodeproj/"), "xcodeproj"));
    assert!(has_extension(&bytes("/x/App.xcodeproj//."), "xcodeproj"));
    assert!(has_extension(&bytes("a.b.c"), "c"));
    assert!(has_extension(&bytes("a."), ""));
    assert!(!has_extension(&bytes("App.xcodeproj"), "xcworkspace"));
    assert!(!has_extension(&bytes("App.XCODEPROJ"), "xcodeproj"));
}

#[test]
fn a_name_that_is_all_extension_has_none() {
    assert!(!has_extension(&bytes(".xcodeproj"), "xcodeproj"));
    assert!(!has_extension(&bytes("x/.xcodeproj"), "xcodeproj"));
    assert!(!has_extension(&bytes("x.xcodeproj/.."), "xcodeproj"));
    assert!(!has_extension(&bytes("xcodeproj"), "xcodeproj"));
    assert!(!has_extension(&bytes(""), ""));
    assert!(!has_extension(&bytes("/"), ""));
}

#[test]
fn bytes_that_are_no_text_do_not_matter_before_the_dot() {
    assert!(has_extension(&vec![0xff, 0xfe, b'.', b'x'], "x"));
    assert!(!has_extension(&vec![b'a', b'.', 0xff], "x"));
}

#[test]
fn extensions_are_those_of_the_standard_library() {
    for path in many_paths() {
        let known = Path::new(&path).extension().and_then(|e| e.to_str());
        for ext in ["", "b", "a", "xcodeproj"] {
            assert_eq!(has_extension(&bytes(&path), ext), known == Some(ext), "{:?}", path);
        }
    }
}

#[test]
fn suffixes_are_compared_byte_by_byte() {
    assert!(ends_with(&bytes("/x/App.xcodeproj/project.xcworkspace"), ".xcodeproj/project.xcworkspace"));
    assert!(!ends_with(&bytes("/x/project.xcworkspace"), ".xcodeproj/project.xcworkspace"));
    assert!(ends_with(&bytes("abc"), ""));
    assert!(ends_with(&vec![0xff, b'a'], "a"));
    assert!(!ends_with(&bytes("a"), "aa"));
}

#[test]
fn paths_compare_component_by_component() {
    assert_eq!(compare_paths(&bytes("a/b"), &bytes("a-b")), -1);
    assert_eq!(compare_paths(&bytes("a//b/"), &bytes("a/./b")), 0);
    assert_eq!(compare_paths(&bytes("a/b"), &bytes("a")), 1);
    assert_eq!(compare_paths(&bytes("/a"), &bytes("./a")), -1);
    assert_eq!(compare_paths(&bytes("./a"), &bytes("../a")), -1);
    assert_eq!(compare_paths(&bytes("../a"), &bytes("a")), -1);
}

#[test]
fn the_order_is_that_of_the_standard_library() {
    let all = many_paths();
    for (i, a) in all.iter().enumerate() {
        for b in all.iter().skip(i % 7).step_by(7) {
            let known: i8 = if Path::new(a) < Path::new(b) {
                -1
            } else if Path::new(a) > Path::new(b) {
                1
            } else {
                0
            };
            assert_eq!(compare_paths(&bytes(a), &bytes(b)), known, "{:?} {:?}", a, b);
        }
    }
}

#[test]
fn sorting_is_stable_and_ascending() {
    assert_eq!(sorted(&["b", "a/c", "a-c", "a//c", "a"]), ["a", "a/c", "a//c", "a-c", "b"]);
    let all = many_paths();
    let some: Vec<&str> = all.iter().step_by(11).map(|p| p.as_str()).collect();
    let mut known: Vec<PathBuf> = some.iter().map(PathBuf::from).collect();
    known.sort();
    let known: Vec<String> = known.iter().map(|p| p.to_str().unwrap().to_string()).collect();
    assert_eq!(sorted(&some), known);
}

#[test]
fn sorting_forgets_the_order_of_arrival() {
    assert_eq!(sorted(&["c", "a", "b"]), sorted(&["b", "c", "a"]));
}
