//! The decisions of the legacy race over every data source: which source a
//! targeted request goes to, how a failed source is recorded, and what the
//! caller is told when no source answered.
use vstd::prelude::*;
use crate::error::{message_of, AppError, CaptchaRequiredError};
use crate::text::{decimal, join_with, push_decimal, push_joined, push_str, str_eq, string_of, strings_view};

verus! {

/// How one raced source failed.
#[derive(Debug)]
pub enum AgentFailure {
    /// The source asked for a CAPTCHA to be solved.
    Captcha(CaptchaRequiredError),
    /// Any other failure, by its message.
    Failed(String),
}

/// The error of a race over no source at all.
pub fn no_sources_error() -> (r: AppError)
    ensures
        r matches AppError::Internal(m) && m@ == "no data sources configured"@,
{
    AppError::internal("no data sources configured")
}

/// The index of the source a request targeted at `target` goes to: the
/// first one of that name; a request for an unknown source is refused.
pub fn route_target(names: &[String], target: &str) -> (r: Result<usize, AppError>)
    ensures
        match r {
            Ok(i) => i < names@.len() && names@[i as int]@ == target@ && forall|j: int| 0 <= j < i ==> names@[j]@ != target@,
            Err(e) => (forall|j: int| 0 <= j < names@.len() ==> names@[j]@ != target@) && (e matches AppError::BadRequest(m)
                && m@ == "Source "@ + target@ + " not found"@),
        },
{
    let mut i: usize = 0;
    while i < names.len()
        invariant
            0 <= i <= names@.len(),
            forall|j: int| 0 <= j < i ==> names@[j]@ != target@,
        decreases names@.len() - i,
    {
        if str_eq(names[i].as_str(), target) {
            return Ok(i);
        }
        i = i + 1;
    }
    let mut m: Vec<char> = Vec::new();
    push_str(&mut m, "Source ");
    push_str(&mut m, target);
    push_str(&mut m, " not found");
    Err(AppError::bad_request(string_of(m.as_slice()).as_str()))
}

/// How a failed source is recorded: a CAPTCHA challenge as such, any other
/// error by its message.
pub fn classify(e: AppError) -> (r: AgentFailure)
    ensures
        match e {
            AppError::CaptchaRequired(c) => r == AgentFailure::Captcha(c),
            _ => r matches AgentFailure::Failed(m) && m@ == message_of(e),
        },
{
    match e {
        AppError::CaptchaRequired(c) => AgentFailure::Captcha(c),
        other => {
            let m = other.message();
            AgentFailure::Failed(m)
        },
    }
}

/// The index of the last CAPTCHA challenge among `fs`.
pub open spec fn last_captcha(fs: Seq<AgentFailure>) -> Option<int>
    decreases fs.len(),
{
    if fs.len() == 0 {
        None
    } else if fs.last() is Captcha {
        Some(fs.len() - 1)
    } else {
        last_captcha(fs.drop_last())
    }
}

/// The messages of the failures that were no CAPTCHA challenge, in order.
pub open spec fn failure_texts(fs: Seq<AgentFailure>) -> Seq<Seq<char>>
    decreases fs.len(),
{
    if fs.len() == 0 {
        Seq::empty()
    } else {
        let rest = failure_texts(fs.drop_last());
        match fs.last() {
            AgentFailure::Failed(m) => rest.push(m@),
            AgentFailure::Captcha(_) => rest,
        }
    }
}

/// The reason reported when all `n` sources failed on `query`.
pub open spec fn all_failed_reason(n: nat, query: Seq<char>, texts: Seq<Seq<char>>) -> Seq<char> {
    decimal(n) + " sub-agents failed to resolve query '"@ + query + "': "@ + join_with(texts, " | "@)
}

/// What the caller is told when none of the `n` raced sources answered
/// `query`, given their failures in the order they came in: the last CAPTCHA
/// challenge, where any source raised one; else a failure of `all-sources`
/// listing every other failure.
pub fn all_failed(n: usize, query: &str, failures: Vec<AgentFailure>) -> (r: AppError)
    ensures
        match last_captcha(failures@) {
            Some(i) => r == AppError::CaptchaRequired(failures@[i]->Captcha_0),
            None => r matches AppError::SourceUnavailable { source, reason } && source@ == "all-sources"@ && reason@
                == all_failed_reason(n as nat, query@, failure_texts(failures@)),
        },
{
    let mut failures = failures;
    let ghost fs = failures@;
    let mut last: Option<usize> = None;
    let mut texts: Vec<String> = Vec::new();
    let mut i: usize = 0;
    while i < failures.len()
        invariant
            0 <= i <= fs.len(),
            failures@ == fs,
            match last {
                Some(j) => last_captcha(fs.take(i as int)) == Some(j as int),
                None => last_captcha(fs.take(i as int)) is None,
            },
            strings_view(texts@) == failure_texts(fs.take(i as int)),
        decreases fs.len() - i,
    {
        proof {
            assert(fs.take(i + 1).drop_last() =~= fs.take(i as int));
            assert(fs.take(i + 1).last() == fs[i as int]);
        }
        match &failures[i] {
            AgentFailure::Captcha(_) => {
                last = Some(i);
            },
            AgentFailure::Failed(m) => {
                let ghost before = texts@;
                texts.push(m.clone());
                proof {
                    assert(strings_view(texts@) =~= strings_view(before).push(m@));
                }
            },
        }
        i = i + 1;
    }
    proof {
        assert(fs.take(fs.len() as int) =~= fs);
    }
    match last {
        Some(j) => {
            proof {
                lemma_last_captcha_is_captcha(fs);
            }
            let f = failures.remove(j);
            match f {
                AgentFailure::Captcha(c) => AppError::CaptchaRequired(c),
                AgentFailure::Failed(_) => {
                    proof {
                        assert(false);
                    }
                    no_sources_error()
                },
            }
        },
        None => {
            let mut m: Vec<char> = Vec::new();
            push_decimal(&mut m, n as u64);
            push_str(&mut m, " sub-agents failed to resolve query '");
            push_str(&mut m, query);
            push_str(&mut m, "': ");
            push_joined(&mut m, texts.as_slice(), " | ");
            AppError::source_unavailable("all-sources", string_of(m.as_slice()).as_str())
        },
    }
}

proof fn lemma_last_captcha_is_captcha(fs: Seq<AgentFailure>)
    ensures
        last_captcha(fs) matches Some(i) ==> 0 <= i < fs.len() && fs[i] is Captcha,
    decreases fs.len(),
{
    if fs.len() > 0 && !(fs.last() is Captcha) {
        lemma_last_captcha_is_captcha(fs.drop_last());
        if let Some(i) = last_captcha(fs.drop_last()) {
            assert(fs.drop_last()[i] == fs[i]);
        }
    }
}

} // verus!
