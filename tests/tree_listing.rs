use scriptwriter::error::AppError;
use scriptwriter::tree::{build_directory_entries, build_directory_entries_with, is_hidden, within_depth, DirItem, ProjectFileEntry, MAX_TREE_DEPTH};

fn item(name: &str, is_dir: bool, children: Vec<ProjectFileEntry>) -> DirItem {
    DirItem { name: name.into(), is_dir, children }
}

#[test]
fn dotfiles_only_lists_empty() {
    let items = vec![
        item(".git", true, vec![]),
        item(".env", false, vec![]),
    ];
    assert!(build_directory_entries("/r", "/r", 0, items).unwrap().is_empty());
}

#[test]
fn directories_first_then_case_insensitive() {
    let items = vec![
        item("b.md", false, vec![]),
        item("Zeta", true, vec![]),
        item("A.md", false, vec![]),
        item("alpha", true, vec![]),
        item("c.md", false, vec![]),
    ];
    let out = build_directory_entries("/r", "/r", 0, items).unwrap();
    let names: Vec<&str> = out.iter().map(|e| e.name.as_str()).collect();
    assert_eq!(names, vec!["alpha", "Zeta", "A.md", "b.md", "c.md"]);
    assert_eq!(out[0].path, "alpha");
    assert!(out[0].is_directory);
    assert!(out[0].children.is_none());
}

#[test]
fn children_kept_only_when_present() {
    let inner = build_directory_entries("/r", "/r/d", 1, vec![item("x.md", false, vec![])]).unwrap();
    assert_eq!(inner[0].path, "d/x.md");
    let out = build_directory_entries("/r", "/r", 0, vec![item("d", true, inner)]).unwrap();
    let kids = out[0].children.as_ref().unwrap();
    assert_eq!(kids.len(), 1);
    assert_eq!(kids[0].name, "x.md");
}

#[test]
fn nothing_listed_past_max_depth() {
    assert!(within_depth(MAX_TREE_DEPTH));
    assert!(!within_depth(MAX_TREE_DEPTH + 1));
    let items = vec![item("deep", true, vec![])];
    assert!(build_directory_entries("/r", "/r/a/b/c/d/e/f/g/h/i", 9, items).unwrap().is_empty());
    assert!(build_directory_entries("/r", "/r/x", 20, vec![item("x", false, vec![])]).unwrap().is_empty());
}

#[test]
fn entry_outside_root_is_escape() {
    let items = vec![item("x", false, vec![])];
    assert!(matches!(build_directory_entries("/r", "/elsewhere", 0, items), Err(AppError::PathEscape)));
}

#[test]
fn hidden_entry_outside_root_is_ignored() {
    let items = vec![item(".x", false, vec![])];
    assert_eq!(build_directory_entries("/r", "/elsewhere", 0, items).unwrap().len(), 0);
}

#[test]
fn hidden_names() {
    assert!(is_hidden(".git"));
    assert!(!is_hidden("git"));
    assert!(!is_hidden(""));
}

#[test]
fn nested_paths_follow_the_directories() {
    let deep = build_directory_entries("/r", "/r/a/b", 2, vec![item("z.md", false, vec![])]).unwrap();
    assert_eq!(deep[0].path, "a/b/z.md");
    let mid = build_directory_entries("/r", "/r/a", 1, vec![item("b", true, deep)]).unwrap();
    assert_eq!(mid[0].path, "a/b");
    let top = build_directory_entries("/r/", "/r/", 0, vec![item("a", true, mid)]).unwrap();
    assert_eq!(top[0].path, "a");
    assert_eq!(top[0].children.as_ref().unwrap()[0].children.as_ref().unwrap()[0].name, "z.md");
}

#[test]
fn last_listed_level_has_no_children() {
    let at_max = build_directory_entries("/r", "/r/1/2/3/4/5/6/7/8", MAX_TREE_DEPTH, vec![item("9", true, vec![])]).unwrap();
    assert_eq!(at_max.len(), 1);
    assert!(at_max[0].children.is_none());
    assert_eq!(at_max[0].path, "1/2/3/4/5/6/7/8/9");
}

#[test]
fn configurable_depth_and_dotfiles() {
    let items = vec![item(".env", false, vec![]), item("a", false, vec![])];
    let shown = build_directory_entries_with("/r", "/r", 0, items, 3, false).unwrap();
    assert_eq!(shown.len(), 2);
    assert_eq!(shown[0].name, ".env");
    assert!(build_directory_entries_with("/r", "/r/x", 4, vec![item("b", false, vec![])], 3, true).unwrap().is_empty());
}
