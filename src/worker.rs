use vstd::prelude::*;

use crate::assets::{decimal, push_decimal};
use crate::error::AppError;
use crate::sandbox::join_spec;
use crate::sandbox::join_path;
use crate::text::{views, push_char};

verus! {

#[verifier::external_type_specification]
#[verifier::external_body]
pub struct ExJsonValue(serde_json::Value);

#[verifier::external_type_specification]
#[verifier::external_body]
pub struct ExJsonError(serde_json::Error);

/// How the worker process ended.
pub struct WorkerExit {
    pub success: bool,
    /// The exit code, absent when the process was ended by a signal.
    pub code: Option<i32>,
}

/// One run of the worker: program, arguments, extra environment and the
/// text written to its input stream, if any.
pub struct WorkerInvocation {
    pub program: String,
    pub args: Vec<String>,
    pub env: Vec<(String, String)>,
    pub stdin: Option<String>,
}

pub open spec fn env_views(v: Seq<(String, String)>) -> Seq<(Seq<char>, Seq<char>)> {
    v.map_values(|p: (String, String)| (p.0@, p.1@))
}

/// What `String::from_utf8_lossy` makes of a byte string.
pub uninterp spec fn lossy_text(b: Seq<u8>) -> Seq<char>;

/// Relies on `String::from_utf8_lossy`: the text depends on the bytes alone.
#[verifier::external_body]
fn lossy(b: &[u8]) -> (r: String)
    ensures
        r@ == lossy_text(b@),
{
    String::from_utf8_lossy(b).into_owned()
}

/// The bytes form one JSON document, as `serde_json` reads it (which
/// includes its nesting limit).
pub uninterp spec fn is_json_document(b: Seq<u8>) -> bool;

/// The value that `serde_json` reads from a byte string that holds one.
pub uninterp spec fn json_of(b: Seq<u8>) -> serde_json::Value;

/// Relies on `serde_json::from_slice` into a `Value`: it succeeds exactly on
/// one JSON document within serde_json's nesting limit of 128 levels, a
/// property of the bytes alone, and the value it reads depends on the bytes
/// alone.
#[verifier::external_body]
fn parse_json(b: &[u8]) -> (r: Result<serde_json::Value, serde_json::Error>)
    ensures
        r is Ok == is_json_document(b@),
        r is Ok ==> r->Ok_0 == json_of(b@),
{
    serde_json::from_slice(b)
}

pub open spec fn default_program() -> Seq<char> {
    "python3"@
}

pub open spec fn module_name() -> Seq<char> {
    "scriptwriter_ml.cli"@
}

pub open spec fn package_dir() -> Seq<char> {
    "scriptwriter_ml"@
}

pub open spec fn module_path_var() -> Seq<char> {
    "PYTHONPATH"@
}

pub open spec fn api_key_var() -> Seq<char> {
    "OPENROUTER_API_KEY"@
}

/// The interpreter to run: the override when one is set.
pub fn worker_program(override_program: Option<String>) -> (r: String)
    ensures
        r@ == match override_program {
            Some(p) => p@,
            None => default_program(),
        },
{
    match override_program {
        Some(p) => p,
        None => String::from_str("python3"),
    }
}

/// Index of the last `/` in `s`, or -1.
pub open spec fn last_slash(s: Seq<char>) -> int
    decreases s.len(),
{
    if s.len() == 0 {
        -1
    } else if s.last() == '/' {
        s.len() - 1
    } else {
        last_slash(s.drop_last())
    }
}

/// The directory above `p`, as `PathBuf::pop` finds it for a path without
/// a trailing separator; none above the root or an empty path.
pub open spec fn parent_dir(p: Seq<char>) -> Option<Seq<char>> {
    let k = last_slash(p);
    if p.len() == 0 {
        None
    } else if k < 0 {
        Some(Seq::empty())
    } else if k == 0 {
        if p.len() == 1 {
            None
        } else {
            Some(seq!['/'])
        }
    } else {
        Some(p.subrange(0, k))
    }
}

/// The `ml` directories in `dir` and in up to `n - 1` directories above it.
pub open spec fn upward_candidates(dir: Seq<char>, n: nat) -> Seq<Seq<char>>
    decreases n,
{
    if n == 0 {
        Seq::empty()
    } else {
        seq![join_spec(dir, "ml"@)] + match parent_dir(dir) {
            Some(p) => upward_candidates(p, (n - 1) as nat),
            None => Seq::empty(),
        }
    }
}

/// The places to look for the worker's installation, in order: the
/// override, then an `ml` directory in the working directory and up to four
/// directories above it.
pub open spec fn root_candidates(override_root: Option<Seq<char>>, cwd: Seq<char>) -> Seq<Seq<char>> {
    let head: Seq<Seq<char>> = match override_root {
        Some(r) => seq![r],
        None => Seq::empty(),
    };
    head + upward_candidates(cwd, 5)
}

pub open spec fn opt_view(o: Option<String>) -> Option<Seq<char>> {
    match o {
        Some(s) => Some(s@),
        None => None,
    }
}

/// Appends `s` to a list of strings.
fn push_string(v: &mut Vec<String>, s: String)
    ensures
        views(final(v)@) == views(old(v)@).push(s@),
{
    let ghost before = v@;
    v.push(s);
    assert(views(v@) =~= views(before).push(s@));
}

fn last_slash_index(s: &str) -> (r: Option<usize>)
    ensures
        match r {
            Some(k) => last_slash(s@) == k as int && k < s@.len(),
            None => last_slash(s@) == -1,
        },
{
    let mut j: usize = s.unicode_len();
    assert(s@.subrange(0, j as int) =~= s@);
    while j > 0
        invariant
            j <= s@.len(),
            last_slash(s@) == last_slash(s@.subrange(0, j as int)),
        decreases j,
    {
        let ghost t = s@.subrange(0, j as int);
        if s.get_char(j - 1) == '/' {
            assert(t.last() == s@[j - 1]);
            return Some(j - 1);
        }
        assert(t.drop_last() =~= s@.subrange(0, j - 1));
        j = j - 1;
    }
    None
}

/// The directory above `p`.
pub fn parent_of(p: &str) -> (r: Option<String>)
    ensures
        match r {
            Some(q) => parent_dir(p@) == Some(q@),
            None => parent_dir(p@) is None,
        },
{
    let n = p.unicode_len();
    if n == 0 {
        return None;
    }
    match last_slash_index(p) {
        None => Some(String::new()),
        Some(k) => {
            if k == 0 {
                if n == 1 {
                    None
                } else {
                    let mut r = String::new();
                    push_char(&mut r, '/');
                    assert(r@ =~= seq!['/']);
                    Some(r)
                }
            } else {
                Some(String::from_str(p.substring_char(0, k)))
            }
        },
    }
}

/// The candidate installation roots of the worker, in the order they are
/// tried.
pub fn ml_root_candidates(override_root: Option<String>, cwd: &str) -> (r: Vec<String>)
    ensures
        views(r@) == root_candidates(opt_view(override_root), cwd@),
{
    let ghost o = opt_view(override_root);
    let ghost head: Seq<Seq<char>> = match o {
        Some(r) => seq![r],
        None => Seq::empty(),
    };
    let mut out: Vec<String> = Vec::new();
    match override_root {
        Some(s) => {
            push_string(&mut out, s);
        },
        None => {},
    }
    assert(views(out@) =~= head);
    let mut dir = String::from_str(cwd);
    let mut i: usize = 0;
    let mut done = false;
    while i < 5 && !done
        invariant
            i <= 5,
            done ==> views(out@) == head + upward_candidates(cwd@, 5),
            !done ==> views(out@) + upward_candidates(dir@, (5 - i) as nat) == head
                + upward_candidates(cwd@, 5),
        decreases 5 - i,
    {
        let ghost before = views(out@);
        let ghost rest = upward_candidates(dir@, (5 - i) as nat);
        let ghost d = dir@;
        push_string(&mut out, join_path(dir.as_str(), "ml"));
        assert(views(out@) =~= before.push(join_spec(d, "ml"@)));
        match parent_of(dir.as_str()) {
            Some(p) => {
                assert(rest =~= seq![join_spec(d, "ml"@)] + upward_candidates(p@, (5 - i - 1) as nat));
                assert(views(out@) + upward_candidates(p@, (5 - i - 1) as nat) =~= before + rest);
                dir = p;
            },
            None => {
                assert(rest =~= seq![join_spec(d, "ml"@)]);
                assert(views(out@) =~= before + rest);
                done = true;
            },
        }
        i = i + 1;
    }
    if !done {
        assert(upward_candidates(dir@, 0) =~= Seq::<Seq<char>>::empty());
        assert(views(out@) =~= head + upward_candidates(cwd@, 5));
    }
    out
}

/// Where the worker's package must lie below a candidate root.
pub fn package_probe(candidate: &str) -> (r: String)
    ensures
        r@ == join_spec(candidate@, package_dir()),
{
    join_path(candidate, "scriptwriter_ml")
}

/// The first candidate whose package is present, or `WorkerNotFound`.
pub fn select_candidate(present: &Vec<bool>) -> (r: Result<usize, AppError>)
    ensures
        match r {
            Ok(i) => i < present@.len() && present@[i as int] && forall|j: int|
                0 <= j < i ==> !present@[j],
            Err(e) => e is WorkerNotFound && forall|j: int| 0 <= j < present@.len() ==> !present@[j],
        },
{
    let mut i: usize = 0;
    while i < present.len()
        invariant
            i <= present@.len(),
            forall|j: int| 0 <= j < i ==> !present@[j],
        decreases present@.len() - i,
    {
        if present[i] {
            return Ok(i);
        }
        i = i + 1;
    }
    Err(AppError::WorkerNotFound)
}

/// `d` in decimal, with a leading `-` when negative.
pub open spec fn int_text(d: int) -> Seq<char> {
    if d < 0 {
        seq!['-'] + decimal((-d) as nat)
    } else {
        decimal(d as nat)
    }
}

pub fn int_string(d: i32) -> (r: String)
    ensures
        r@ == int_text(d as int),
{
    let mut r = String::new();
    if d < 0 {
        push_char(&mut r, '-');
        let m: u64 = (-(d as i64)) as u64;
        push_decimal(&mut r, m);
        assert(r@ =~= seq!['-'] + decimal((-d) as nat));
    } else {
        push_decimal(&mut r, d as u64);
        assert(r@ =~= decimal(d as nat));
    }
    r
}

/// Arguments that run the worker's command-line module with `sub`.
fn module_args(sub: &str) -> (r: Vec<String>)
    ensures
        views(r@) == seq!["-m"@, module_name(), sub@],
{
    let mut v: Vec<String> = Vec::new();
    push_string(&mut v, String::from_str("-m"));
    push_string(&mut v, String::from_str("scriptwriter_ml.cli"));
    push_string(&mut v, String::from_str(sub));
    assert(views(v@) =~= seq!["-m"@, module_name(), sub@]);
    v
}

/// The environment that lets the interpreter import the worker's package.
fn module_env(ml_root: &str) -> (r: Vec<(String, String)>)
    ensures
        env_views(r@) == seq![(module_path_var(), ml_root@)],
{
    let mut v: Vec<(String, String)> = Vec::new();
    v.push((String::from_str("PYTHONPATH"), String::from_str(ml_root)));
    assert(env_views(v@) =~= seq![(module_path_var(), ml_root@)]);
    v
}

/// Transliteration: the text goes to the worker's input stream.
pub fn transliterate_invocation(program: String, ml_root: &str, text: &str) -> (r: WorkerInvocation)
    ensures
        r.program == program,
        views(r.args@) == seq!["-m"@, module_name(), "transliterate"@, "--stdin"@],
        env_views(r.env@) == seq![(module_path_var(), ml_root@)],
        r.stdin is Some && r.stdin->Some_0@ == text@,
{
    let mut args = module_args("transliterate");
    push_string(&mut args, String::from_str("--stdin"));
    assert(views(args@) =~= seq!["-m"@, module_name(), "transliterate"@, "--stdin"@]);
    WorkerInvocation {
        program,
        args,
        env: module_env(ml_root),
        stdin: Some(String::from_str(text)),
    }
}

/// Transcription of an audio file, all parameters as arguments.
pub fn transcribe_file_invocation(
    program: String,
    ml_root: &str,
    audio_path: &str,
    language: &str,
) -> (r: WorkerInvocation)
    ensures
        r.program == program,
        views(r.args@) == seq![
            "-m"@,
            module_name(),
            "transcribe-file"@,
            audio_path@,
            "--language"@,
            language@,
        ],
        env_views(r.env@) == seq![(module_path_var(), ml_root@)],
        r.stdin is None,
{
    let mut args = module_args("transcribe-file");
    push_string(&mut args, String::from_str(audio_path));
    push_string(&mut args, String::from_str("--language"));
    push_string(&mut args, String::from_str(language));
    assert(views(args@) =~= seq![
        "-m"@,
        module_name(),
        "transcribe-file"@,
        audio_path@,
        "--language"@,
        language@,
    ]);
    WorkerInvocation { program, args, env: module_env(ml_root), stdin: None }
}

/// Recording from the microphone for `duration` seconds, then transcription.
pub fn transcribe_mic_invocation(program: String, ml_root: &str, duration: i32, language: &str) -> (r:
    WorkerInvocation)
    ensures
        r.program == program,
        views(r.args@) == seq![
            "-m"@,
            module_name(),
            "transcribe-mic"@,
            "--duration"@,
            int_text(duration as int),
            "--language"@,
            language@,
        ],
        env_views(r.env@) == seq![(module_path_var(), ml_root@)],
        r.stdin is None,
{
    let mut args = module_args("transcribe-mic");
    push_string(&mut args, String::from_str("--duration"));
    push_string(&mut args, int_string(duration));
    push_string(&mut args, String::from_str("--language"));
    push_string(&mut args, String::from_str(language));
    assert(views(args@) =~= seq![
        "-m"@,
        module_name(),
        "transcribe-mic"@,
        "--duration"@,
        int_text(duration as int),
        "--language"@,
        language@,
    ]);
    WorkerInvocation { program, args, env: module_env(ml_root), stdin: None }
}

/// Speech synthesis: the text goes to the input stream; the audio is written
/// to `output` when one is given.
pub fn tts_invocation(program: String, ml_root: &str, text: &str, output: Option<&str>) -> (r:
    WorkerInvocation)
    ensures
        r.program == program,
        views(r.args@) == seq!["-m"@, module_name(), "tts"@, "--stdin"@] + match output {
            Some(o) => seq!["--output"@, o@],
            None => Seq::empty(),
        },
        env_views(r.env@) == seq![(module_path_var(), ml_root@)],
        r.stdin is Some && r.stdin->Some_0@ == text@,
{
    let mut args = module_args("tts");
    push_string(&mut args, String::from_str("--stdin"));
    match output {
        Some(o) => {
            push_string(&mut args, String::from_str("--output"));
            push_string(&mut args, String::from_str(o));
            assert(views(args@) =~= seq!["-m"@, module_name(), "tts"@, "--stdin"@] + seq![
                "--output"@,
                o@,
            ]);
        },
        None => {
            assert(views(args@) =~= seq!["-m"@, module_name(), "tts"@, "--stdin"@] + Seq::<
                Seq<char>,
            >::empty());
        },
    }
    WorkerInvocation {
        program,
        args,
        env: module_env(ml_root),
        stdin: Some(String::from_str(text)),
    }
}

/// The inventory of installed models under `models_root`.
pub fn models_invocation(program: String, ml_root: &str, models_root: &str) -> (r: WorkerInvocation)
    ensures
        r.program == program,
        views(r.args@) == seq!["-m"@, module_name(), "models"@, "--root"@, models_root@],
        env_views(r.env@) == seq![(module_path_var(), ml_root@)],
        r.stdin is None,
{
    let mut args = module_args("models");
    push_string(&mut args, String::from_str("--root"));
    push_string(&mut args, String::from_str(models_root));
    assert(views(args@) =~= seq!["-m"@, module_name(), "models"@, "--root"@, models_root@]);
    WorkerInvocation { program, args, env: module_env(ml_root), stdin: None }
}

/// Scene drafting. Prompt and context travel as separate arguments and the
/// credential in the environment, so that no caller text becomes program
/// text; an empty credential is not passed on.
pub fn scene_invocation(
    program: String,
    ml_root: &str,
    prompt: &str,
    context: &str,
    api_key: Option<&str>,
) -> (r: WorkerInvocation)
    ensures
        r.program == program,
        views(r.args@) == seq![
            "-m"@,
            module_name(),
            "draft-scene"@,
            "--prompt"@,
            prompt@,
            "--context"@,
            context@,
        ],
        env_views(r.env@) == seq![(module_path_var(), ml_root@)] + match api_key {
            Some(k) => if k@.len() > 0 {
                seq![(api_key_var(), k@)]
            } else {
                Seq::empty()
            },
            None => Seq::empty(),
        },
        r.stdin is None,
{
    let mut args = module_args("draft-scene");
    push_string(&mut args, String::from_str("--prompt"));
    push_string(&mut args, String::from_str(prompt));
    push_string(&mut args, String::from_str("--context"));
    push_string(&mut args, String::from_str(context));
    assert(views(args@) =~= seq![
        "-m"@,
        module_name(),
        "draft-scene"@,
        "--prompt"@,
        prompt@,
        "--context"@,
        context@,
    ]);
    let mut env = module_env(ml_root);
    let ghost base = env_views(env@);
    match api_key {
        Some(k) => {
            if k.unicode_len() > 0 {
                env.push((String::from_str("OPENROUTER_API_KEY"), String::from_str(k)));
                assert(env_views(env@) =~= base + seq![(api_key_var(), k@)]);
            } else {
                assert(env_views(env@) =~= base + Seq::<(Seq<char>, Seq<char>)>::empty());
            }
        },
        None => {
            assert(env_views(env@) =~= base + Seq::<(Seq<char>, Seq<char>)>::empty());
        },
    }
    WorkerInvocation { program, args, env, stdin: None }
}

/// The failure that a worker exit carries, if it was not a success.
pub open spec fn is_failure_of(e: AppError, exit: WorkerExit, stderr: Seq<u8>) -> bool {
    match e {
        AppError::WorkerFailed { code, message } => code == exit.code && message@ == lossy_text(
            stderr,
        ),
        _ => false,
    }
}

/// `WorkerFailed` with the exit code and the error stream's text when the
/// worker did not succeed.
pub fn check_exit(exit: &WorkerExit, stderr: &[u8]) -> (r: Result<(), AppError>)
    ensures
        match r {
            Ok(_) => exit.success,
            Err(e) => !exit.success && is_failure_of(e, *exit, stderr@),
        },
{
    if exit.success {
        Ok(())
    } else {
        Err(AppError::WorkerFailed { code: exit.code, message: lossy(stderr) })
    }
}

/// The worker's output as one JSON document, or `WorkerProtocolError`.
pub fn parse_worker_json(stdout: &[u8]) -> (r: Result<serde_json::Value, AppError>)
    ensures
        r is Ok == is_json_document(stdout@),
        r is Ok ==> r->Ok_0 == json_of(stdout@),
        r is Err ==> r->Err_0 is WorkerProtocolError,
{
    match parse_json(stdout) {
        Ok(v) => Ok(v),
        Err(_) => Err(AppError::WorkerProtocolError),
    }
}

/// The result of a finished worker run: its failure when it did not succeed,
/// else its output read as JSON.
pub fn complete_worker_call(exit: &WorkerExit, stdout: &[u8], stderr: &[u8]) -> (r: Result<
    serde_json::Value,
    AppError,
>)
    ensures
        !exit.success ==> r is Err && is_failure_of(r->Err_0, *exit, stderr@),
        exit.success ==> (r is Ok == is_json_document(stdout@)) && (r is Err
            ==> r->Err_0 is WorkerProtocolError),
        r is Ok ==> r->Ok_0 == json_of(stdout@),
{
    match check_exit(exit, stderr) {
        Err(e) => Err(e),
        Ok(_) => parse_worker_json(stdout),
    }
}

/// The member `key` of a JSON object, as `serde_json::Value::get` finds it.
pub uninterp spec fn json_member(v: serde_json::Value, key: Seq<char>) -> Option<serde_json::Value>;

/// The elements of a JSON array, as `serde_json::Value::as_array` gives them.
pub uninterp spec fn json_items(v: serde_json::Value) -> Option<Seq<serde_json::Value>>;

/// The text of a JSON string, as `serde_json::Value::as_str` gives it.
pub uninterp spec fn json_text(v: serde_json::Value) -> Option<Seq<char>>;

/// Relies on `serde_json::Value::get` with a string key: the member of that
/// name of an object, none otherwise; it depends on the value and key alone.
#[verifier::external_body]
fn member(v: &serde_json::Value, key: &str) -> (r: Option<serde_json::Value>)
    ensures
        r == json_member(*v, key@),
{
    v.get(key).cloned()
}

/// Relies on `serde_json::Value::as_array`: the elements of an array, none
/// for any other value.
#[verifier::external_body]
fn items(v: &serde_json::Value) -> (r: Option<Vec<serde_json::Value>>)
    ensures
        match r {
            Some(x) => json_items(*v) == Some(x@),
            None => json_items(*v) is None,
        },
{
    v.as_array().cloned()
}

/// Relies on `serde_json::Value::as_str`: the text of a string, none for any
/// other value.
#[verifier::external_body]
fn text(v: &serde_json::Value) -> (r: Option<String>)
    ensures
        match r {
            Some(t) => json_text(*v) == Some(t@),
            None => json_text(*v) is None,
        },
{
    v.as_str().map(String::from)
}

/// The array held by member `key` of `v`, if there is one.
pub open spec fn member_items(v: serde_json::Value, key: Seq<char>) -> Option<Seq<serde_json::Value>> {
    match json_member(v, key) {
        Some(f) => json_items(f),
        None => None,
    }
}

/// The list of strings held by member `key` of `v`, if it is one.
pub open spec fn member_strings(v: serde_json::Value, key: Seq<char>) -> Option<Seq<Seq<char>>> {
    match member_items(v, key) {
        Some(xs) => if forall|i: int| 0 <= i < xs.len() ==> (#[trigger] json_text(xs[i])) is Some {
            Some(Seq::new(xs.len(), |i: int| json_text(xs[i])->Some_0))
        } else {
            None
        },
        None => None,
    }
}

/// The `candidates` list of a transliteration answer, or
/// `WorkerProtocolError` when the answer has no list of strings there.
pub fn candidates_from(v: &serde_json::Value) -> (r: Result<Vec<String>, AppError>)
    ensures
        match member_strings(*v, "candidates"@) {
            Some(c) => r is Ok && views(r->Ok_0@) == c,
            None => r is Err && r->Err_0 is WorkerProtocolError,
        },
{
    let field = match member(v, "candidates") {
        Some(f) => f,
        None => {
            return Err(AppError::WorkerProtocolError);
        },
    };
    let xs = match items(&field) {
        Some(xs) => xs,
        None => {
            return Err(AppError::WorkerProtocolError);
        },
    };
    let mut out: Vec<String> = Vec::new();
    let mut i: usize = 0;
    while i < xs.len()
        invariant
            i <= xs@.len(),
            member_items(*v, "candidates"@) == Some(xs@),
            out@.len() == i,
            forall|j: int| 0 <= j < i ==> json_text(xs@[j]) == Some(#[trigger] out@[j]@),
        decreases xs@.len() - i,
    {
        match text(&xs[i]) {
            Some(t) => {
                out.push(t);
            },
            None => {
                assert(json_text(xs@[i as int]) is None);
                return Err(AppError::WorkerProtocolError);
            },
        }
        i = i + 1;
    }
    assert forall|j: int| 0 <= j < xs@.len() implies (#[trigger] json_text(xs@[j])) is Some by {
        assert(json_text(xs@[j]) == Some(out@[j]@));
    }
    assert(views(out@) =~= Seq::new(xs@.len(), |j: int| json_text(xs@[j])->Some_0));
    Ok(out)
}

/// The `models` array of an inventory answer, or `WorkerProtocolError` when
/// the answer has no array there.
pub fn models_from(v: &serde_json::Value) -> (r: Result<Vec<serde_json::Value>, AppError>)
    ensures
        match member_items(*v, "models"@) {
            Some(ms) => r is Ok && r->Ok_0@ == ms,
            None => r is Err && r->Err_0 is WorkerProtocolError,
        },
{
    match member(v, "models") {
        Some(f) => match items(&f) {
            Some(ms) => Ok(ms),
            None => Err(AppError::WorkerProtocolError),
        },
        None => Err(AppError::WorkerProtocolError),
    }
}

/// The candidates of a finished transliteration run: its failure when it
/// did not succeed, `WorkerProtocolError` when its output is not a JSON
/// document with a list of strings under `candidates`.
pub fn complete_transliteration_call(exit: &WorkerExit, stdout: &[u8], stderr: &[u8]) -> (r: Result<
    Vec<String>,
    AppError,
>)
    ensures
        !exit.success ==> r is Err && is_failure_of(r->Err_0, *exit, stderr@),
        exit.success && !is_json_document(stdout@) ==> r is Err && r->Err_0 is WorkerProtocolError,
        exit.success && is_json_document(stdout@) ==> match member_strings(
            json_of(stdout@),
            "candidates"@,
        ) {
            Some(c) => r is Ok && views(r->Ok_0@) == c,
            None => r is Err && r->Err_0 is WorkerProtocolError,
        },
{
    match complete_worker_call(exit, stdout, stderr) {
        Ok(v) => candidates_from(&v),
        Err(e) => Err(e),
    }
}

/// The models of a finished inventory run: its failure when it did not
/// succeed, `WorkerProtocolError` when its output is not a JSON document
/// with an array under `models`.
pub fn complete_models_call(exit: &WorkerExit, stdout: &[u8], stderr: &[u8]) -> (r: Result<
    Vec<serde_json::Value>,
    AppError,
>)
    ensures
        !exit.success ==> r is Err && is_failure_of(r->Err_0, *exit, stderr@),
        exit.success && !is_json_document(stdout@) ==> r is Err && r->Err_0 is WorkerProtocolError,
        exit.success && is_json_document(stdout@) ==> match member_items(json_of(stdout@), "models"@) {
            Some(ms) => r is Ok && r->Ok_0@ == ms,
            None => r is Err && r->Err_0 is WorkerProtocolError,
        },
{
    match complete_worker_call(exit, stdout, stderr) {
        Ok(v) => models_from(&v),
        Err(e) => Err(e),
    }
}

} // verus!
