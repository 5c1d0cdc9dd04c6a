//! The shared upstream GET: when a failed attempt is retried, and how long
//! the pause before the retry is.
use vstd::prelude::*;
use std::hash::{Hash, Hasher};
use std::time::Duration;
use crate::corover::{FetchOutcome, FetchStep};
use crate::error::AppError;
use crate::fanout::{duration_from_millis, millis_nanos, RETRY_DELAY_MS, RETRY_JITTER_MAX_MS};
use crate::text::{chars_of, contains_chars, has_infix, push_str, string_of};

verus! {

/// The step after GET attempt `attempt` (from 0) came back with `o`: a 2xx
/// answer is used; a 4xx answer fails at once; anything else (another
/// status, or no answer) is retried after the first attempt only.
pub open spec fn get_step_of(attempt: u32, o: FetchOutcome) -> FetchStep {
    match o {
        FetchOutcome::Status(code) => if 200 <= code && code <= 299 {
            FetchStep::Decode
        } else if 400 <= code && code <= 499 {
            FetchStep::Fail
        } else if attempt == 0 {
            FetchStep::Retry
        } else {
            FetchStep::Fail
        },
        FetchOutcome::Transport { .. } => if attempt == 0 { FetchStep::Retry } else { FetchStep::Fail },
    }
}

/// The step after GET attempt `attempt` came back with `outcome`.
pub fn get_step(attempt: u32, outcome: &FetchOutcome) -> (r: FetchStep)
    ensures
        r == get_step_of(attempt, *outcome),
{
    match outcome {
        FetchOutcome::Status(code) => {
            if 200 <= *code && *code <= 299 {
                FetchStep::Decode
            } else if 400 <= *code && *code <= 499 {
                FetchStep::Fail
            } else if attempt == 0 {
                FetchStep::Retry
            } else {
                FetchStep::Fail
            }
        },
        FetchOutcome::Transport { .. } => if attempt == 0 { FetchStep::Retry } else { FetchStep::Fail },
    }
}

/// A GET is sent at most twice, and a client error is never retried.
pub proof fn lemma_get_at_most_twice(attempt: u32, o: FetchOutcome)
    ensures
        get_step_of(attempt, o) == FetchStep::Retry ==> attempt == 0,
        (o matches FetchOutcome::Status(code) && 400 <= code && code <= 499) ==> get_step_of(attempt, o)
            == FetchStep::Fail,
{
}

/// `DefaultHasher::new()` fed with `url` and finished. Nothing is claimed
/// about the hash value.
#[verifier::external_body]
fn url_hash(url: &str) -> u64 {
    let mut h = std::collections::hash_map::DefaultHasher::new();
    url.hash(&mut h);
    h.finish()
}

/// The pause before retrying a GET of `url`: 200 ms plus a jitter below
/// 100 ms taken from a hash of the URL.
pub fn retry_delay(url: &str) -> (r: Duration)
    ensures
        millis_nanos(RETRY_DELAY_MS) <= crate::clock::duration_nanos(r) < millis_nanos(
            (RETRY_DELAY_MS + RETRY_JITTER_MAX_MS) as u64,
        ),
{
    let h = url_hash(url);
    duration_from_millis(RETRY_DELAY_MS + h % RETRY_JITTER_MAX_MS)
}

/// Every one of `needles` occurs in `page`.
pub open spec fn mentions_all(page: Seq<char>, needles: Seq<&str>) -> bool {
    forall|i: int| 0 <= i < needles.len() ==> has_infix(page, #[trigger] needles[i]@)
}

/// What a fetched page of a mirror source amounts to: where the answer had
/// a failing status (`failed_status`, as written in the error), the source
/// failed with it; else the page counts where it mentions every one of
/// `needles`, and the source failed for `missing` where it does not.
pub fn page_outcome(
    source: &str,
    url: &str,
    failed_status: Option<&str>,
    page: &str,
    needles: &[&str],
    missing: &str,
) -> (r: Result<(), AppError>)
    ensures
        match failed_status {
            Some(st) => r matches Err(AppError::SourceUnavailable { source: s, reason }) && s@ == source@
                && reason@ == "GET "@ + url@ + " returned "@ + st@,
            None => if mentions_all(page@, needles@) {
                r is Ok
            } else {
                r matches Err(AppError::SourceUnavailable { source: s, reason }) && s@ == source@ && reason@ == missing@
            },
        },
{
    match failed_status {
        Some(st) => {
            let mut m: Vec<char> = Vec::new();
            push_str(&mut m, "GET ");
            push_str(&mut m, url);
            push_str(&mut m, " returned ");
            push_str(&mut m, st);
            return Err(AppError::source_unavailable(source, string_of(m.as_slice()).as_str()));
        },
        None => {},
    }
    let pv = chars_of(page);
    let mut i: usize = 0;
    while i < needles.len()
        invariant
            0 <= i <= needles@.len(),
            pv@ == page@,
            failed_status is None,
            forall|j: int| 0 <= j < i ==> has_infix(page@, #[trigger] needles@[j]@),
        decreases needles@.len() - i,
    {
        let nv = chars_of(needles[i]);
        if !contains_chars(pv.as_slice(), nv.as_slice()) {
            proof {
                assert(!has_infix(page@, needles@[i as int]@));
            }
            return Err(AppError::source_unavailable(source, missing));
        }
        i = i + 1;
    }
    Ok(())
}

} // verus!
