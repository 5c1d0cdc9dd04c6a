//! The NTES web form transport: the request each query sends, how an answer
//! is judged, and the staged recovery between attempts (drop the CSRF token
//! first, then the whole session).
use vstd::prelude::*;
use crate::data::{split_words, texts, words};
use crate::error::AppError;
use crate::ntes::{csrf_of, extract_csrf, regex_valid, CSRF_PATTERN};
use crate::text::{
    chars_of, contains_chars, has_infix, join_with, push_joined, push_str, string_of, string_of_range, trim,
    trim_seq,
};

verus! {

/// Characters of a body kept when reporting a decode failure.
pub const SNIPPET_CHARS: usize = 120;

/// A body shortened for an error message: its words joined by single
/// spaces, cut after [`SNIPPET_CHARS`] characters with `...` where longer.
pub open spec fn snippet_of(body: Seq<char>) -> Seq<char> {
    let c = join_with(words(body), " "@);
    if c.len() > SNIPPET_CHARS { c.take(SNIPPET_CHARS as int) + "..."@ } else { c }
}

/// `body` shortened for an error message.
pub fn body_snippet(body: &str) -> (r: String)
    ensures
        r@ == snippet_of(body@),
{
    let ws = split_words(body);
    let mut c: Vec<char> = Vec::new();
    push_joined(&mut c, ws.as_slice(), " ");
    proof {
        assert(c@ == join_with(words(body@), " "@));
    }
    if c.len() > SNIPPET_CHARS {
        let mut out: Vec<char> = Vec::new();
        let head = string_of_range(c.as_slice(), 0, SNIPPET_CHARS);
        push_str(&mut out, head.as_str());
        push_str(&mut out, "...");
        proof {
            assert(c@.subrange(0, SNIPPET_CHARS as int) =~= c@.take(SNIPPET_CHARS as int));
        }
        string_of(out.as_slice())
    } else {
        string_of(c.as_slice())
    }
}

/// Name/value pairs as plain values.
pub open spec fn pairs_view(v: Seq<(String, String)>) -> Seq<(Seq<char>, Seq<char>)> {
    v.map_values(|p: (String, String)| (p.0@, p.1@))
}

/// The query parameters appended to a form URL, each as `&name=value`
/// (as given, unescaped).
pub open spec fn query_suffix(q: Seq<(Seq<char>, Seq<char>)>) -> Seq<char>
    decreases q.len(),
{
    if q.len() == 0 {
        Seq::empty()
    } else {
        query_suffix(q.drop_last()) + "&"@ + q.last().0 + "="@ + q.last().1
    }
}

/// The URL a form query is posted to.
pub open spec fn form_url_of(
    web: Seq<char>,
    endpoint: Seq<char>,
    opt: Seq<char>,
    sub_opt: Seq<char>,
    q: Seq<(Seq<char>, Seq<char>)>,
) -> Seq<char> {
    web + "/"@ + endpoint + "?opt="@ + opt + "&subOpt="@ + sub_opt + query_suffix(q)
}

/// `{web}/{endpoint}?opt={opt}&subOpt={sub_opt}` followed by `&name=value`
/// for each query parameter.
pub fn form_url(web: &str, endpoint: &str, opt: &str, sub_opt: &str, query: &[(String, String)]) -> (r: String)
    ensures
        r@ == form_url_of(web@, endpoint@, opt@, sub_opt@, pairs_view(query@)),
{
    let mut out: Vec<char> = Vec::new();
    push_str(&mut out, web);
    push_str(&mut out, "/");
    push_str(&mut out, endpoint);
    push_str(&mut out, "?opt=");
    push_str(&mut out, opt);
    push_str(&mut out, "&subOpt=");
    push_str(&mut out, sub_opt);
    let ghost head = out@;
    let mut i: usize = 0;
    while i < query.len()
        invariant
            0 <= i <= query@.len(),
            out@ == head + query_suffix(pairs_view(query@).take(i as int)),
        decreases query@.len() - i,
    {
        push_str(&mut out, "&");
        push_str(&mut out, query[i].0.as_str());
        push_str(&mut out, "=");
        push_str(&mut out, query[i].1.as_str());
        proof {
            assert(pairs_view(query@).take(i + 1).drop_last() =~= pairs_view(query@).take(i as int));
        }
        i = i + 1;
    }
    proof {
        assert(pairs_view(query@).take(query@.len() as int) =~= pairs_view(query@));
    }
    string_of(out.as_slice())
}

/// The fields every search form (`q`) adds after the language.
pub open spec fn search_fields() -> Seq<(Seq<char>, Seq<char>)> {
    seq![("appLang"@, "en"@), ("find"@, "Get Trains"@), ("clear"@, "Clear"@)]
}

/// The form body of a query: the language, the search-form fields for the
/// `q` endpoint, the query's own fields, then the CSRF token pair.
pub open spec fn form_body_of(
    endpoint: Seq<char>,
    fields: Seq<(Seq<char>, Seq<char>)>,
    token: (Seq<char>, Seq<char>),
) -> Seq<(Seq<char>, Seq<char>)> {
    seq![("lan"@, "en"@)] + (if endpoint == "q"@ { search_fields() } else { Seq::empty() }) + fields + seq![token]
}

fn pair(k: &str, v: &str) -> (r: (String, String))
    ensures
        r.0@ == k@,
        r.1@ == v@,
{
    (k.to_string(), v.to_string())
}

/// The form body posted for a query on `endpoint` with `fields` and the
/// CSRF token `token_name`=`token_value`.
pub fn form_body(endpoint: &str, fields: &[(String, String)], token_name: &str, token_value: &str) -> (r: Vec<(String, String)>)
    ensures
        pairs_view(r@) == form_body_of(endpoint@, pairs_view(fields@), (token_name@, token_value@)),
{
    let mut out: Vec<(String, String)> = Vec::new();
    out.push(pair("lan", "en"));
    let q = chars_of(endpoint);
    let is_search = q.len() == 1 && q[0] == 'q';
    proof {
        reveal_strlit("q");
        if endpoint@ == "q"@ {
            assert(q@.len() == 1 && q@[0] == 'q');
        }
        if q@.len() == 1 && q@[0] == 'q' {
            assert(endpoint@ =~= "q"@);
        }
    }
    if is_search {
        out.push(pair("appLang", "en"));
        out.push(pair("find", "Get Trains"));
        out.push(pair("clear", "Clear"));
    }
    let ghost head = pairs_view(out@);
    proof {
        assert(head =~= seq![("lan"@, "en"@)] + (if endpoint@ == "q"@ { search_fields() } else { Seq::empty() }));
    }
    let mut i: usize = 0;
    while i < fields.len()
        invariant
            0 <= i <= fields@.len(),
            pairs_view(out@) == head + pairs_view(fields@).take(i as int),
        decreases fields@.len() - i,
    {
        let p = pair(fields[i].0.as_str(), fields[i].1.as_str());
        let ghost before = out@;
        out.push(p);
        proof {
            assert(pairs_view(out@) =~= pairs_view(before).push((p.0@, p.1@)));
            assert(pairs_view(fields@).take(i + 1) =~= pairs_view(fields@).take(i as int).push(pairs_view(fields@)[i as int]));
            assert(pairs_view(out@) =~= head + pairs_view(fields@).take(i + 1));
        }
        i = i + 1;
    }
    out.push(pair(token_name, token_value));
    proof {
        assert(pairs_view(fields@).take(fields@.len() as int) =~= pairs_view(fields@));
        assert(pairs_view(out@) =~= head + pairs_view(fields@) + seq![(token_name@, token_value@)]);
    }
    out
}

/// An answer that shows the request was rejected or challenged: blank, or
/// missing the marker of the expected result rows.
pub open spec fn challenged_of(body: Seq<char>, marker: Option<Seq<char>>) -> bool {
    trim_seq(body).len() == 0 || match marker {
        Some(m) => !has_infix(body, m),
        None => false,
    }
}

/// Whether the answer `body` was rejected or challenged.
pub fn challenged(body: &str, rows_marker: Option<&str>) -> (r: bool)
    ensures
        r == challenged_of(body@, match rows_marker {
            Some(m) => Some(m@),
            None => None,
        }),
{
    if trim(body).is_empty() {
        return true;
    }
    match rows_marker {
        Some(m) => {
            let b = chars_of(body);
            let mv = chars_of(m);
            !contains_chars(b.as_slice(), mv.as_slice())
        },
        None => false,
    }
}

/// What is reset before the next attempt.
#[derive(PartialEq, Eq, Structural, Debug)]
pub enum Recovery {
    /// Drop only the cached CSRF token; the session cookies stay.
    DropToken,
    /// Drop the cookies and the token: a whole fresh session.
    ResetSession,
}

/// The recovery staged after attempt `attempt` (from 0): the token first,
/// the session after that.
pub open spec fn recovery_of(attempt: usize) -> Recovery {
    if attempt == 0 { Recovery::DropToken } else { Recovery::ResetSession }
}

/// The recovery staged after attempt `attempt`.
pub fn recovery_for(attempt: usize) -> (r: Recovery)
    ensures
        r == recovery_of(attempt),
{
    if attempt == 0 { Recovery::DropToken } else { Recovery::ResetSession }
}

/// How many times a form query is sent at most.
pub const FORM_ATTEMPTS: usize = 3;

/// What follows one attempt.
#[derive(PartialEq, Eq, Structural, Debug)]
pub enum FormStep {
    /// The answer is usable.
    Accept,
    /// Stage this recovery and try again.
    Retry(Recovery),
    /// Stage this recovery and give up: no usable answer in any attempt.
    Exhausted(Recovery),
    /// Give up with the transport error of the last attempt.
    Fail,
}

/// The step after attempt `attempt`: `delivered` where an answer came back
/// (then `challenged` says whether it was rejected), else the request failed.
pub open spec fn form_step_of(attempt: usize, delivered: bool, challenged: bool) -> FormStep {
    if delivered && !challenged {
        FormStep::Accept
    } else if attempt + 1 < FORM_ATTEMPTS {
        FormStep::Retry(recovery_of(attempt))
    } else if delivered {
        FormStep::Exhausted(recovery_of(attempt))
    } else {
        FormStep::Fail
    }
}

/// The step after attempt `attempt`.
pub fn form_step(attempt: usize, delivered: bool, challenged: bool) -> (r: FormStep)
    ensures
        r == form_step_of(attempt, delivered, challenged),
{
    if delivered && !challenged {
        FormStep::Accept
    } else if attempt < FORM_ATTEMPTS - 1 {
        FormStep::Retry(recovery_for(attempt))
    } else if delivered {
        FormStep::Exhausted(recovery_for(attempt))
    } else {
        FormStep::Fail
    }
}

/// A query is sent at most [`FORM_ATTEMPTS`] times, and the recoveries
/// escalate: the first retry keeps the session and drops only the token,
/// later ones start a fresh session.
pub proof fn lemma_recovery_escalates(attempt: usize, delivered: bool, challenged: bool)
    ensures
        form_step_of(attempt, delivered, challenged) is Retry ==> attempt + 1 < FORM_ATTEMPTS,
        form_step_of(0, delivered, challenged) is Retry ==> form_step_of(0, delivered, challenged)
            == FormStep::Retry(Recovery::DropToken),
        attempt >= 1 && form_step_of(attempt, delivered, challenged) is Retry ==> form_step_of(
            attempt,
            delivered,
            challenged,
        ) == FormStep::Retry(Recovery::ResetSession),
        delivered && !challenged ==> form_step_of(attempt, delivered, challenged) == FormStep::Accept,
{
}

/// The reason given when every attempt came back without usable data.
pub open spec fn exhausted_reason() -> Seq<char> {
    "NTES web form returned no usable data after a CSRF + session refresh"@
}

/// The error after every attempt came back without usable data.
pub fn exhausted_error() -> (r: AppError)
    ensures
        r matches AppError::SourceUnavailable { source, reason } && source@ == "ntes"@ && reason@ == exhausted_reason(),
{
    AppError::source_unavailable("ntes", "NTES web form returned no usable data after a CSRF + session refresh")
}

/// The CSRF token pair read from the token endpoint's answer `text`: refused
/// where the answer is blank or holds no token.
pub fn csrf_from_answer(text: &str) -> (r: Result<(String, String), AppError>)
    ensures
        trim_seq(text@).len() == 0 ==> (r matches Err(AppError::SourceUnavailable { source, reason })
            && source@ == "ntes"@ && reason@ == "empty CSRF response"@),
        trim_seq(text@).len() > 0 && regex_valid(CSRF_PATTERN@) ==> match r {
            Ok((n, v)) => csrf_of(text@) == Some((n@, v@)),
            Err(e) => csrf_of(text@) is None && (e matches AppError::SourceUnavailable { source, reason }
                && source@ == "ntes"@ && reason@ == "no CSRF token in response: "@ + snippet_of(text@)),
        },
{
    if trim(text).is_empty() {
        return Err(AppError::source_unavailable("ntes", "empty CSRF response"));
    }
    match extract_csrf(text) {
        Some(t) => Ok(t),
        None => {
            let mut m: Vec<char> = Vec::new();
            push_str(&mut m, "no CSRF token in response: ");
            let s = body_snippet(text);
            push_str(&mut m, s.as_str());
            let reason = string_of(m.as_slice());
            Err(AppError::source_unavailable("ntes", reason.as_str()))
        },
    }
}

} // verus!
