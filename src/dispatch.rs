use vstd::prelude::*;

use crate::error::AppError;
use crate::models::UserProfile;
use crate::text::{is_ws, lemma_all_ws_trims_empty, trim, trimmed, views};

verus! {

/// The signed-in user, or `Unauthorized` when there is no session.
pub fn require_session(session: Option<UserProfile>) -> (r: Result<UserProfile, AppError>)
    ensures
        r is Ok == session is Some,
        r is Ok ==> r->Ok_0 == session->Some_0,
        r is Err ==> r->Err_0 is Unauthorized,
{
    match session {
        Some(u) => Ok(u),
        None => Err(AppError::Unauthorized),
    }
}

/// The degraded transliteration: the input itself as the only candidate.
pub fn fallback_transliteration(text: &str) -> (r: Vec<String>)
    ensures
        views(r@) == seq![text@],
{
    let mut v: Vec<String> = Vec::new();
    v.push(String::from_str(text));
    assert(views(v@) =~= seq![text@]);
    v
}

/// Whether transliterating `input` asks the worker at all: blank input does
/// not.
pub fn transliteration_needs_worker(input: &str) -> (r: bool)
    ensures
        r == (trimmed(input@).len() > 0),
{
    trim(input).unicode_len() > 0
}

/// The candidates returned for `input`, given what the worker answered: no
/// candidates for blank input, the worker's candidates on success, and the
/// input itself on any failure.
pub fn transliteration_result(input: &str, worker: Result<Vec<String>, AppError>) -> (r: Vec<
    String,
>)
    ensures
        trimmed(input@).len() == 0 ==> r@.len() == 0,
        trimmed(input@).len() > 0 ==> match worker {
            Ok(c) => r == c,
            Err(_) => views(r@) == seq![input@],
        },
{
    if !transliteration_needs_worker(input) {
        return Vec::new();
    }
    match worker {
        Ok(c) => c,
        Err(_) => fallback_transliteration(input),
    }
}

/// The language asked of a transcription: `en-IN` unless one is named.
pub fn language_or_default(language: Option<String>) -> (r: String)
    ensures
        r@ == match language {
            Some(l) => l@,
            None => "en-IN"@,
        },
{
    match language {
        Some(l) => l,
        None => String::from_str("en-IN"),
    }
}

/// The recording length in seconds: 5 unless one is named.
pub fn duration_or_default(duration: Option<i32>) -> (r: i32)
    ensures
        r == match duration {
            Some(d) => d,
            None => 5,
        },
{
    match duration {
        Some(d) => d,
        None => 5,
    }
}

/// Blank input, empty or whitespace only, never reaches the worker and
/// yields no candidates.
pub proof fn law_blank_input_skips_worker(input: Seq<char>)
    requires
        forall|i: int| 0 <= i < input.len() ==> is_ws(#[trigger] input[i]),
    ensures
        trimmed(input).len() == 0,
{
    lemma_all_ws_trims_empty(input);
}

} // verus!
