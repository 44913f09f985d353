use scriptwriter::filesystem::{assert_slug_unique, project_path, sanitize_slug};
use scriptwriter::models::{default_models, ModelType, ProjectRecord, ProjectRow, UserRow};

#[test]
fn slug_lowercases_and_dashes() {
    assert_eq!(sanitize_slug("My Film!"), "my-film");
    assert_eq!(sanitize_slug("--A  B--"), "a-b");
    assert_eq!(sanitize_slug("a---b"), "a--b");
    assert_eq!(sanitize_slug("Kaadhal 2024"), "kaadhal-2024");
    assert_eq!(sanitize_slug("தமிழ்"), "");
}

#[test]
fn project_directory() {
    assert_eq!(project_path("/data", "my-film"), "/data/projects/my-film");
    assert_eq!(project_path("/data/", "x"), "/data/projects/x");
    assert_eq!(project_path("/data", "/x"), "/x");
}

#[test]
fn slug_uniqueness() {
    let existing = vec!["a".to_string(), "b".to_string()];
    assert!(assert_slug_unique(&existing, "c").is_ok());
    assert!(assert_slug_unique(&existing, "b").is_err());
}

#[test]
fn model_catalogue() {
    let m = default_models();
    assert_eq!(m.len(), 7);
    assert_eq!(m[0].id, "faster-whisper-base");
    assert_eq!(m[4].model_type, ModelType::LanguageModel);
    assert_eq!(m[6].size_mb, 3200);
}

#[test]
fn ids_are_hyphenated_uuids() {
    let a = ProjectRecord::new_id();
    assert_eq!(a.len(), 36);
    let b: Vec<char> = a.chars().collect();
    for i in [8, 13, 18, 23] {
        assert_eq!(b[i], '-');
    }
    assert_eq!(b[14], '4');
    assert!(matches!(b[19], '8' | '9' | 'a' | 'b'));
    assert!(b.iter().all(|c| *c == '-' || c.is_ascii_digit() || ('a'..='f').contains(c)));
    assert_ne!(a, ProjectRecord::new_id());
}

fn row(languages: &str) -> ProjectRow {
    ProjectRow {
        id: "1".into(),
        name: "Film".into(),
        slug: "film".into(),
        project_type: "feature".into(),
        languages: languages.into(),
        description: None,
        template_id: Some("feature-film".into()),
        base_path: "/p".into(),
        created_at: "t0".into(),
        updated_at: "t1".into(),
    }
}

#[test]
fn record_from_row() {
    let r = ProjectRecord::from_row(row("[\"ta\",\"en\"]")).unwrap();
    assert_eq!(r.languages, vec!["ta", "en"]);
    assert_eq!(r.slug, "film");
    assert!(ProjectRecord::from_row(row("ta,en")).is_err());
}

#[test]
fn profile_drops_hash() {
    let u = UserRow {
        id: "u".into(),
        email: "e@x".into(),
        display_name: Some("E".into()),
        password_hash: "h".into(),
        created_at: "c".into(),
        updated_at: "d".into(),
    };
    let p = u.into_profile();
    assert_eq!(p.email, "e@x");
    assert_eq!(p.display_name.as_deref(), Some("E"));
}
