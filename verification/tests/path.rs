use interlace::path::{path_extension, path_file_name, path_parent, path_stem, sibling_path};
use std::path::Path;

/// The library's reading of a path agrees with `std::path` on these.
fn agrees(p: &str) {
    let sp = Path::new(p);
    assert_eq!(path_file_name(p).as_deref(), sp.file_name().and_then(|s| s.to_str()), "file_name {p:?}");
    assert_eq!(path_extension(p).as_deref(), sp.extension().and_then(|s| s.to_str()), "extension {p:?}");
    assert_eq!(path_stem(p).as_deref(), sp.file_stem().and_then(|s| s.to_str()), "file_stem {p:?}");
    assert_eq!(path_parent(p).as_deref(), sp.parent().and_then(|s| s.to_str()), "parent {p:?}");
    let joined = sp.parent().unwrap_or_else(|| Path::new(".")).join("x.y");
    assert_eq!(sibling_path(p, "x.y"), joined.to_str().unwrap(), "sibling {p:?}");
}

#[test]
fn paths_read_as_std_reads_them() {
    for p in [
        "", "/", "//", ".", "./", "..", "../", "a", "/a", "a/", "a//", "a/.", "a/./", "a/..", "./a",
        "/media/movie.mkv", "/media/movie.mkv/", "/media/./movie.mkv", "a/./b/c", ".bashrc", "a.",
        "..x", "a.b.c", "/a/b.c/.", "./.", "C:\\Media\\Film.mkv", "dir/.hidden.txt", "x/../y.z",
        "C:\\My.Dir\\movie", "\\\\server\\share\\a.mkv", "C:a.mkv",
    ] {
        agrees(p);
    }
}
