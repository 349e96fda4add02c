use goose::paths::{
    components_of, extension, file_name, is_path_among, is_same_path, join_path, relative,
    strip_extension,
};
use std::path::{Path, PathBuf};

const WRITTEN: [&str; 24] = [
    "", "/", "//", ".", "./", "..", "a", "a/", "a//", "a/.", "./a", "/a", "//a", "/./a", "a/b",
    "a//b", "a/./b", "a/b/", "/a/b.txt", "/a/b.txt/", "/a/..", "a/.hidden", "a/b.", "a/c.tar.gz/.",
];

#[test]
fn paths_are_joined() {
    assert_eq!(join_path("/a", "b"), "/a/b");
    assert_eq!(join_path("/a/", "b"), "/a/b");
    for a in WRITTEN {
        for b in WRITTEN {
            assert_eq!(PathBuf::from(join_path(a, b)).as_os_str(), Path::new(a).join(b).as_os_str());
        }
    }
}

#[test]
fn slashes_and_dots_only_part_components() {
    for a in WRITTEN {
        let mine: Vec<String> = components_of(a).into_iter().map(|c| c.name).collect();
        let known: Vec<String> = Path::new(a)
            .components()
            .map(|c| c.as_os_str().to_str().unwrap().to_string())
            .collect();
        assert_eq!(mine, known);
        for b in WRITTEN {
            assert_eq!(is_same_path(a, b), Path::new(a) == Path::new(b));
        }
    }
    assert!(is_same_path("/models//m.gguf", "/models/./m.gguf/"));
    assert!(!is_same_path("./a", "a"));
    assert!(is_path_among("a/b", &vec!["x".to_string(), "a//b/".to_string()]));
    assert!(!is_path_among("a/b", &vec!["/a/b".to_string()]));
}

#[test]
fn extensions_stand_after_the_last_dot() {
    assert_eq!(extension("/a/b.tar.gz").as_deref(), Some("gz"));
    assert_eq!(extension("/a/b.tar.gz/").as_deref(), Some("gz"));
    assert_eq!(extension("/a.b/c"), None);
    assert_eq!(extension(".hidden"), None);
    assert_eq!(strip_extension("/a/b.tar.gz/"), "/a/b.tar");
    for a in WRITTEN {
        let known = Path::new(a);
        assert_eq!(extension(a).as_deref(), known.extension().map(|e| e.to_str().unwrap()));
        assert_eq!(
            file_name(a).map(|c| c.name).as_deref(),
            known.file_name().map(|n| n.to_str().unwrap())
        );
    }
}

#[test]
fn paths_below_a_directory_are_shortened() {
    assert_eq!(relative("/a/b/c.rs", "/a"), "b/c.rs");
    assert_eq!(relative("/a/b/c.rs", "/a//"), "b/c.rs");
    assert_eq!(relative("//a/./b//c.rs", "/a/"), "b//c.rs");
    assert_eq!(relative("/x/c.rs", "/a"), "/x/c.rs");
    assert_eq!(relative("/ab/c.rs", "/a"), "/ab/c.rs");
    for a in WRITTEN {
        for b in WRITTEN {
            let path = Path::new(a);
            let known = path.strip_prefix(b).unwrap_or(path);
            assert_eq!(relative(a, b), known.to_str().unwrap());
        }
    }
}
