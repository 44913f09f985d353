use scriptwriter::assets::{asset_file_name, asset_target_dir, first_free_name, place_asset, push_decimal};
use scriptwriter::error::AppError;

fn names(v: &[&str]) -> Vec<String> {
    v.iter().map(|s| s.to_string()).collect()
}

#[test]
fn collision_takes_next_free_suffix() {
    let taken = names(&["a.png", "a-1.png"]);
    assert_eq!(asset_file_name("a.png", &taken), "a-2.png");
}

#[test]
fn free_name_is_kept() {
    assert_eq!(asset_file_name("a.png", &names(&["b.png"])), "a.png");
}

#[test]
fn empty_sanitized_name_becomes_placeholder() {
    assert_eq!(asset_file_name("///", &names(&[])), "asset");
    assert_eq!(asset_file_name("::**", &names(&["asset"])), "asset-1");
}

#[test]
fn sanitizing_removes_unsafe_characters() {
    assert_eq!(asset_file_name("a:b?.png", &names(&[])), "ab.png");
}

#[test]
fn suffix_goes_before_last_extension() {
    assert_eq!(first_free_name("x.tar.gz", &names(&["x.tar.gz"])), "x.tar-1.gz");
    assert_eq!(first_free_name("README", &names(&["README", "README-1"])), "README-2");
    assert_eq!(first_free_name(".env", &names(&[".env"])), ".env-1");
}

#[test]
fn suffix_counts_past_nine() {
    let mut taken = names(&["s.txt"]);
    for i in 1..=10 {
        taken.push(format!("s-{i}.txt"));
    }
    assert_eq!(first_free_name("s.txt", &taken), "s-11.txt");
}

#[test]
fn decimal_digits() {
    let mut s = String::from("n=");
    push_decimal(&mut s, 1203);
    assert_eq!(s, "n=1203");
}

#[test]
fn target_dir_defaults_to_images() {
    assert_eq!(asset_target_dir("/p", None).unwrap(), "/p/assets/images");
    assert_eq!(asset_target_dir("/p", Some("media".into())).unwrap(), "/p/media");
    assert!(matches!(asset_target_dir("/p", Some("../x".into())), Err(AppError::PathEscape)));
}

#[test]
fn place_asset_returns_both_paths() {
    let (abs, rel) = place_asset("/p", "/p/assets/images", "a.png", &names(&["a.png"])).unwrap();
    assert_eq!(abs, "/p/assets/images/a-1.png");
    assert_eq!(rel, "assets/images/a-1.png");
    assert!(matches!(place_asset("/p", "/q/img", "a.png", &names(&[])), Err(AppError::PathEscape)));
}

#[test]
fn import_into_resolved_dir_succeeds() {
    let target = asset_target_dir("/p/", Some("media/".into())).unwrap();
    let (abs, rel) = place_asset("/p/", &target, "..", &names(&[])).unwrap();
    assert_eq!(abs, "/p/media/asset");
    assert_eq!(rel, "media/asset");
}
