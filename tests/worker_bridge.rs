use scriptwriter::dispatch::{duration_or_default, language_or_default, fallback_transliteration, require_session, transliteration_needs_worker, transliteration_result};
use scriptwriter::error::AppError;
use scriptwriter::models::UserProfile;
use scriptwriter::worker::{
    check_exit, complete_models_call, complete_transliteration_call, complete_worker_call, ml_root_candidates, models_invocation, package_probe, parent_of,
    scene_invocation, select_candidate, transcribe_file_invocation, transcribe_mic_invocation,
    transliterate_invocation, tts_invocation, worker_program, WorkerExit,
};

fn exit(success: bool, code: Option<i32>) -> WorkerExit {
    WorkerExit { success, code }
}

#[test]
fn candidates_walk_upward() {
    let c = ml_root_candidates(None, "/a/b/c");
    assert_eq!(c, vec!["/a/b/c/ml", "/a/b/ml", "/a/ml", "/ml"]);
}

#[test]
fn candidates_stop_after_five_levels() {
    let c = ml_root_candidates(Some("/opt/ml".into()), "/1/2/3/4/5/6/7");
    assert_eq!(c, vec!["/opt/ml", "/1/2/3/4/5/6/7/ml", "/1/2/3/4/5/6/ml", "/1/2/3/4/5/ml", "/1/2/3/4/ml", "/1/2/3/ml"]);
}

#[test]
fn parent_directories() {
    assert_eq!(parent_of("/a/b"), Some("/a".to_string()));
    assert_eq!(parent_of("/a"), Some("/".to_string()));
    assert_eq!(parent_of("/"), None);
    assert_eq!(parent_of("rel"), Some(String::new()));
    assert_eq!(parent_of(""), None);
}

#[test]
fn missing_worker_root_is_worker_not_found() {
    assert!(matches!(select_candidate(&vec![false, false]), Err(AppError::WorkerNotFound)));
    assert_eq!(select_candidate(&vec![false, true, true]).unwrap(), 1);
    assert_eq!(package_probe("/x/ml"), "/x/ml/scriptwriter_ml");
}

#[test]
fn program_override() {
    assert_eq!(worker_program(None), "python3");
    assert_eq!(worker_program(Some("/usr/bin/py".into())), "/usr/bin/py");
}

#[test]
fn invocation_shapes() {
    let t = transliterate_invocation("py".into(), "/ml", "vanakkam");
    assert_eq!(t.args, vec!["-m", "scriptwriter_ml.cli", "transliterate", "--stdin"]);
    assert_eq!(t.env, vec![("PYTHONPATH".to_string(), "/ml".to_string())]);
    assert_eq!(t.stdin.as_deref(), Some("vanakkam"));
    let f = transcribe_file_invocation("py".into(), "/ml", "/a.wav", "ta-IN");
    assert_eq!(f.args, vec!["-m", "scriptwriter_ml.cli", "transcribe-file", "/a.wav", "--language", "ta-IN"]);
    assert!(f.stdin.is_none());
    let m = transcribe_mic_invocation("py".into(), "/ml", 15, "en-IN");
    assert_eq!(m.args, vec!["-m", "scriptwriter_ml.cli", "transcribe-mic", "--duration", "15", "--language", "en-IN"]);
    let neg = transcribe_mic_invocation("py".into(), "/ml", -3, "en");
    assert_eq!(neg.args[4], "-3");
    let s = tts_invocation("py".into(), "/ml", "hello", Some("/o.wav"));
    assert_eq!(s.args, vec!["-m", "scriptwriter_ml.cli", "tts", "--stdin", "--output", "/o.wav"]);
    let md = models_invocation("py".into(), "/ml", "/models");
    assert_eq!(md.args, vec!["-m", "scriptwriter_ml.cli", "models", "--root", "/models"]);
}

#[test]
fn scene_text_is_never_program_text() {
    let s = scene_invocation("py".into(), "/ml", "say \"hi\"", "ctx", Some("k\"1"));
    assert_eq!(s.args, vec!["-m", "scriptwriter_ml.cli", "draft-scene", "--prompt", "say \"hi\"", "--context", "ctx"]);
    assert_eq!(s.env[1], ("OPENROUTER_API_KEY".to_string(), "k\"1".to_string()));
    let n = scene_invocation("py".into(), "/ml", "p", "", Some(""));
    assert_eq!(n.env.len(), 1);
}

#[test]
fn nonzero_exit_is_worker_failed_with_text_and_code() {
    match complete_worker_call(&exit(false, Some(2)), b"{}", b"model missing") {
        Err(AppError::WorkerFailed { code, message }) => {
            assert_eq!(code, Some(2));
            assert_eq!(message, "model missing");
        }
        other => panic!("unexpected {:?}", other.map(|_| ())),
    }
    match check_exit(&exit(false, Some(1)), b"bad \xff byte") {
        Err(AppError::WorkerFailed { message, .. }) => assert_eq!(message, "bad \u{FFFD} byte"),
        _ => panic!("expected failure"),
    }
}

#[test]
fn invalid_json_is_protocol_error() {
    assert!(matches!(complete_worker_call(&exit(true, Some(0)), b"not json", b""), Err(AppError::WorkerProtocolError)));
    assert!(matches!(complete_worker_call(&exit(true, Some(0)), b"", b""), Err(AppError::WorkerProtocolError)));
}

#[test]
fn valid_json_is_returned() {
    let v = complete_worker_call(&exit(true, Some(0)), br#"{"text":"vanakkam"}"#, b"warn").unwrap();
    assert_eq!(v["text"], "vanakkam");
}

#[test]
fn blank_transliteration_skips_worker() {
    assert!(!transliteration_needs_worker(""));
    assert!(!transliteration_needs_worker("  \t"));
    assert!(transliteration_needs_worker(" a "));
    assert!(transliteration_result("   ", Err(AppError::WorkerNotFound)).is_empty());
}

#[test]
fn transliteration_falls_back_to_input() {
    assert_eq!(transliteration_result("amma", Err(AppError::WorkerNotFound)), vec!["amma"]);
    let failed = AppError::WorkerFailed { code: Some(1), message: "boom".into() };
    assert_eq!(transliteration_result("amma", Err(failed)), vec!["amma"]);
    assert_eq!(fallback_transliteration("x"), vec!["x"]);
}

#[test]
fn transliteration_passes_candidates_through() {
    let c = vec!["அம்மா".to_string(), "அமா".to_string()];
    assert_eq!(transliteration_result("amma", Ok(c.clone())), c);
}

#[test]
fn session_is_required() {
    assert!(matches!(require_session(None), Err(AppError::Unauthorized)));
    let u = UserProfile { id: "1".into(), email: "a@b".into(), display_name: None, created_at: "now".into() };
    assert_eq!(require_session(Some(u)).unwrap().email, "a@b");
}

#[test]
fn error_messages() {
    let e = AppError::WorkerFailed { code: Some(3), message: "oops".into() };
    assert_eq!(e.message(), "Worker exited with status 3: oops");
    assert!(AppError::WorkerNotFound.message().contains("SCRIPTWRITER_ML_ROOT"));
    assert_eq!(AppError::Unauthorized.message(), "Unauthorized");
}

#[test]
fn command_defaults() {
    assert_eq!(language_or_default(None), "en-IN");
    assert_eq!(language_or_default(Some("ta-IN".into())), "ta-IN");
    assert_eq!(duration_or_default(None), 5);
    assert_eq!(duration_or_default(Some(12)), 12);
}

#[test]
fn stdout_document_is_returned_not_stderr() {
    let v = complete_worker_call(&exit(true, Some(0)), br#"[1,2]"#, br#"{"a":1}"#).unwrap();
    assert_eq!(v.as_array().map(|a| a.len()), Some(2));
    assert_eq!(v[1], 2);
}

#[test]
fn transliteration_answer_shape() {
    let ok = complete_transliteration_call(&exit(true, Some(0)), br#"{"candidates":["a","b"],"notes":["n"]}"#, b"").unwrap();
    assert_eq!(ok, vec!["a", "b"]);
    for bad in [&br#"{"candidates":[1]}"#[..], br#"{"items":[]}"#, br#"{"candidates":"a"}"#, b"[]", b"nope"] {
        assert!(matches!(complete_transliteration_call(&exit(true, Some(0)), bad, b""), Err(AppError::WorkerProtocolError)));
    }
    assert!(matches!(complete_transliteration_call(&exit(false, Some(1)), b"", b"x"), Err(AppError::WorkerFailed { .. })));
}

#[test]
fn models_answer_shape() {
    let ms = complete_models_call(&exit(true, Some(0)), br#"{"models":[{"id":"m"},3]}"#, b"").unwrap();
    assert_eq!(ms.len(), 2);
    assert_eq!(ms[0]["id"], "m");
    assert!(matches!(complete_models_call(&exit(true, Some(0)), br#"{"items":[]}"#, b""), Err(AppError::WorkerProtocolError)));
    assert!(matches!(complete_models_call(&exit(true, Some(0)), br#"{"models":{}}"#, b""), Err(AppError::WorkerProtocolError)));
}
