use std::path::{Path, PathBuf};
use wiki_builder::paths::{has_extension, join_path, path_extension, path_with_extension, path_without_extension};

const PATHS: &[&str] = &[
    "", "/", ".", "..", "a", "a.b", ".bashrc", "..b", "a.", "a/b.md", "a/b.md/", "a/b.md/.",
    "a/b.md/./", "/x/y.tar.gz", "a/..", "a/../", "./", "./a.txt", "a//b.json", "a/.md",
    "dir.d/file", "x/.hidden.txt", "x/y/", "...", ".../z", "a/b.",
];

#[test]
fn extension_agrees_with_std() {
    for p in PATHS {
        let expected = Path::new(p).extension().map(|e| e.to_str().unwrap().to_string());
        assert_eq!(path_extension(p), expected, "{:?}", p);
    }
}

#[test]
fn without_extension_agrees_with_set_extension() {
    for p in PATHS {
        let mut pb = PathBuf::from(p);
        pb.set_extension("");
        let expected = pb.to_str().unwrap().to_string();
        assert_eq!(path_without_extension(p), expected, "{:?}", p);
    }
}

#[test]
fn with_extension_agrees_with_set_extension() {
    for p in PATHS {
        for ext in ["html", ""] {
            let mut pb = PathBuf::from(p);
            pb.set_extension(ext);
            let expected = pb.to_str().unwrap().to_string();
            assert_eq!(path_with_extension(p, ext), expected, "{:?} {:?}", p, ext);
        }
    }
}

#[test]
fn join_agrees_with_std() {
    for base in ["", "/", "out", "out/", "/ws"] {
        for rel in ["a", "a/b", "/abs", ""] {
            let expected = PathBuf::from(base).join(rel).to_str().unwrap().to_string();
            assert_eq!(join_path(base, rel), expected, "{:?} {:?}", base, rel);
        }
    }
}

#[test]
fn extension_test() {
    assert!(has_extension("npcs/bob.json", "json"));
    assert!(!has_extension("npcs/bob.json.bak", "json"));
    assert!(!has_extension(".json", "json"));
}

#[test]
fn page_paths_agree_with_with_extension() {
    for p in ["my-page", "guides/getting-started", "out/a/b.md", "v1.2", "x/.hidden"] {
        for ext in ["html", ""] {
            let expected = Path::new(p).with_extension(ext).to_str().unwrap().to_string();
            assert_eq!(path_with_extension(p, ext), expected, "{:?} {:?}", p, ext);
        }
    }
}
