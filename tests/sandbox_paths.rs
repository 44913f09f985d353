use scriptwriter::error::AppError;
use scriptwriter::sandbox::{resolve_project_path, to_relative_string};

#[test]
fn resolve_joins_plain_path() {
    let r = resolve_project_path("/p/root", "notes/a.md").unwrap();
    assert_eq!(r, "/p/root/notes/a.md");
}

#[test]
fn resolve_strips_whitespace_and_leading_separators() {
    let r = resolve_project_path("/p/root", "  //\\drafts/one.md \n").unwrap();
    assert_eq!(r, "/p/root/drafts/one.md");
}

#[test]
fn resolve_root_with_trailing_slash() {
    let r = resolve_project_path("/p/root/", "a").unwrap();
    assert_eq!(r, "/p/root/a");
}

#[test]
fn resolve_rejects_parent_segments_anywhere() {
    for p in ["..", "../x", "a/../b", "a/..", "a\\..\\b", "..\\x", "/../etc", "a/b\\..", " .. "] {
        assert!(matches!(resolve_project_path("/p/root", p), Err(AppError::PathEscape)), "{p}");
    }
}

#[test]
fn resolve_accepts_dotted_names_that_are_not_parent_segments() {
    assert!(resolve_project_path("/p/root", "a..b/c").is_ok());
    assert!(resolve_project_path("/p/root", "...").is_ok());
    assert!(resolve_project_path("/p/root", "./x").is_ok());
}

#[test]
fn resolve_rejects_drive_prefix() {
    assert!(matches!(resolve_project_path("/p/root", "C:\\windows"), Err(AppError::PathEscape)));
    assert!(matches!(resolve_project_path("/p/root", "d:/x"), Err(AppError::PathEscape)));
}

#[test]
fn resolve_rejects_blank_paths() {
    for p in ["", " ", "\t\n  ", "\u{3000}"] {
        assert!(matches!(resolve_project_path("/p/root", p), Err(AppError::InvalidPath)), "{p:?}");
    }
}

#[test]
fn to_relative_normalizes_separators() {
    let abs = resolve_project_path("/p/root", "dir\\sub\\file.md").unwrap();
    assert_eq!(to_relative_string("/p/root", &abs).unwrap(), "dir/sub/file.md");
}

#[test]
fn to_relative_of_root_is_empty() {
    assert_eq!(to_relative_string("/p/root", "/p/root").unwrap(), "");
}

#[test]
fn to_relative_rejects_outside_paths() {
    assert!(matches!(to_relative_string("/p/root", "/p/rootx/a"), Err(AppError::PathEscape)));
    assert!(matches!(to_relative_string("/p/root", "/other"), Err(AppError::PathEscape)));
}

#[test]
fn round_trip_gives_canonical_form() {
    for (p, want) in [("a/b.md", "a/b.md"), (" /x\\y ", "x/y"), ("\\\\q", "q"), ("/", "")] {
        let abs = resolve_project_path("/p/root", p).unwrap();
        assert_eq!(to_relative_string("/p/root", &abs).unwrap(), want);
    }
}

#[test]
fn to_relative_compares_components() {
    assert_eq!(to_relative_string("/proj/", "/proj").unwrap(), "");
    assert_eq!(to_relative_string("/proj", "/proj/").unwrap(), "");
    assert_eq!(to_relative_string("/proj", "/proj//a.md").unwrap(), "a.md");
    assert_eq!(to_relative_string("/proj", "/proj/./x/y").unwrap(), "x/y");
    assert_eq!(to_relative_string("/proj///", "/proj/x").unwrap(), "x");
}

#[test]
fn to_relative_rejects_parent_segments() {
    assert!(matches!(to_relative_string("/proj", "/proj/../etc"), Err(AppError::PathEscape)));
    assert!(matches!(to_relative_string("/proj", "/proj/a/.."), Err(AppError::PathEscape)));
}
