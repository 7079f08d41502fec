use openjd::params::paths::{normalize_path_str, path_is_within, PathFormat};

#[test]
fn normalize_unc_dotdot_preserves_server_share() {
    // \\server\share\.. should not pop below the server\share components
    let result = normalize_path_str(r"\\server\share\..", PathFormat::Windows);
    assert_eq!(
        result, r"\\server\share",
        "UNC path should preserve server\\share: got {result}"
    );
}

#[test]
fn normalize_unc_double_dotdot_preserves_server_share() {
    let result = normalize_path_str(r"\\server\share\a\..\..", PathFormat::Windows);
    assert_eq!(result, r"\\server\share", "got {result}");
}

#[test]
fn normalize_unc_excessive_dotdot_preserves_server_share() {
    // More .. than components should clamp at server\share
    let result = normalize_path_str(r"\\server\share\..\..\..\..", PathFormat::Windows);
    assert_eq!(result, r"\\server\share", "got {result}");
}

#[test]
fn path_is_within_accepts_descendant_and_self() {
    assert!(path_is_within("/a/job1", "/a/job1", PathFormat::Posix));
    assert!(path_is_within("/a/job1/sub", "/a/job1", PathFormat::Posix));
    assert!(path_is_within("/a/job1/sub/deep", "/a/job1", PathFormat::Posix));
}

#[test]
fn path_is_within_rejects_prefix_sibling() {
    // Sibling whose name extends the base name must NOT be considered inside.
    assert!(!path_is_within("/a/job10", "/a/job1", PathFormat::Posix));
    assert!(!path_is_within(
        "/tmp/templates/job1-sibling",
        "/tmp/templates/job1",
        PathFormat::Posix
    ));
}

#[test]
fn path_is_within_root_base() {
    // A filesystem root already ends in a separator.
    assert!(path_is_within("/sub", "/", PathFormat::Posix));
    assert!(path_is_within("/", "/", PathFormat::Posix));
}

#[test]
fn path_is_within_windows() {
    assert!(path_is_within(
        r"C:\templates\job1\sub",
        r"C:\templates\job1",
        PathFormat::Windows
    ));
    assert!(!path_is_within(
        r"C:\templates\job1-sibling",
        r"C:\templates\job1",
        PathFormat::Windows
    ));
}

#[test]
fn normalize_resolves_dots_and_doubled_separators() {
    assert_eq!(normalize_path_str("/a/./b//c/../d", PathFormat::Posix), "/a/b/d");
    assert_eq!(normalize_path_str("/../..", PathFormat::Posix), "/");
    assert_eq!(normalize_path_str("a/../../b", PathFormat::Posix), "b");
    assert_eq!(normalize_path_str("", PathFormat::Posix), "");
    assert_eq!(normalize_path_str(".", PathFormat::Posix), "");
}

#[test]
fn normalize_writes_the_separator_of_the_format() {
    assert_eq!(normalize_path_str("C:/a/b/../c", PathFormat::Windows), r"C:\a\c");
    assert_eq!(normalize_path_str(r"C:\a\..\..", PathFormat::Windows), r"C:\");
    assert_eq!(normalize_path_str(r"\a\b", PathFormat::Posix), "/a/b");
    assert_eq!(normalize_path_str("//server/share/x", PathFormat::Uri), "//server/share/x");
}

#[test]
fn normalize_twice_is_normalize_once() {
    for path in ["/a/../b/./c", r"\\s\t\..\..\u", "C:/x/../y", "a//b", "é/../ü", "C:", ""] {
        for format in [PathFormat::Posix, PathFormat::Windows, PathFormat::Uri] {
            let once = normalize_path_str(path, format);
            assert_eq!(normalize_path_str(&once, format), once, "{path}");
        }
    }
}

#[test]
fn descendants_of_descendants_are_descendants() {
    let f = PathFormat::Posix;
    assert!(path_is_within("/a/b/c", "/a/b", f) && path_is_within("/a/b", "/a", f));
    assert!(path_is_within("/a/b/c", "/a", f));
    assert!(!path_is_within("/a", "/a/b", f));
    assert!(!path_is_within("/a/bc", "/a/b", f));
    assert!(!path_is_within("a/b", "/a", f));
}
