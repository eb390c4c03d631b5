use cosmic_comic::paths::{
    components_of, file_name, file_stem, join_path, parent_path, path_lies_under, same_path,
    stem_or_all,
};
use std::path::Path;

const PATHS: [&str; 24] = [
    "", "/", "a", "/a", "a/b", "/a/b/", "a//b", "./a", "a/./b", "a/..", "..", ".", "./", "//a", "/..",
    "a/b.cbz", ".hidden", "a/.hidden", "x.tar.gz", "name.", "a/b/.", "/a/../b", "dir/Übung 1.cbr", "a/..b",
];


#[test]
fn names_and_stems_are_those_of_path() {
    for p in PATHS {
        assert_eq!(file_name(p), Path::new(p).file_name().map(|n| n.to_string_lossy().into_owned()), "{p}");
        assert_eq!(file_stem(p), Path::new(p).file_stem().map(|n| n.to_string_lossy().into_owned()), "{p}");
        let stem = Path::new(p).file_stem().map(|n| n.to_string_lossy().into_owned()).unwrap_or_else(|| p.to_string());
        assert_eq!(stem_or_all(p), stem, "{p}");
    }
}

#[test]
fn components_are_those_of_path() {
    for p in PATHS {
        let expected: Vec<String> = Path::new(p).components().map(|c| c.as_os_str().to_string_lossy().into_owned()).collect();
        let got: Vec<String> = components_of(p).iter().map(|c| c.iter().collect()).collect();
        assert_eq!(got, expected, "{p}");
    }
}

#[test]
fn parents_are_those_of_path() {
    for p in PATHS {
        let expected = Path::new(p).parent().unwrap_or(Path::new("")).to_path_buf();
        assert_eq!(Path::new(&parent_path(p)), expected, "{p}");
    }
}

#[test]
fn joining_is_that_of_path() {
    for a in PATHS {
        for b in PATHS {
            let expected = Path::new(a).join(b).to_string_lossy().into_owned();
            assert_eq!(join_path(a, b), expected, "{a} {b}");
        }
    }
}

#[test]
fn lying_under_and_equality_are_those_of_path() {
    for a in PATHS {
        for b in PATHS {
            assert_eq!(path_lies_under(a, b), Path::new(a).starts_with(b), "{a} {b}");
            assert_eq!(same_path(a, b), Path::new(a) == Path::new(b), "{a} {b}");
        }
    }
}

#[test]
fn lying_under_is_transitive() {
    assert!(path_lies_under("/comics/series/1.cbz", "/comics/series"));
    assert!(path_lies_under("/comics/series", "/comics"));
    assert!(path_lies_under("/comics/series/1.cbz", "/comics"));
    assert!(!path_lies_under("/comics2/1.cbz", "/comics"));
}
