//! AskDISHA (CoRover) guest enquiries: where each request goes, how the
//! run-day flags of a schedule read, and when a failed request is tried
//! once more.
use vstd::prelude::*;
use vstd::utf8::encode_utf8;
use crate::paytm::{percent_encoded, url_encode};
use crate::json::{as_bool, as_i64, bool_of, get, get_of, i64_of, Json};
use crate::text::{ascii_upper, chars_of, push_str, push_trimmed_end, string_of, trim_end_char, upper_char};

verus! {

/// Source id reported for calls against the AskDISHA API.
pub const SOURCE_API: &'static str = "corover-api";

/// Source id reported for calls against the AskDISHA CDN bucket.
pub const SOURCE_CDN: &'static str = "corover-cdn";

/// A text as one percent-encoded URL segment.
pub open spec fn segment(s: Seq<char>) -> Seq<char> {
    percent_encoded(encode_utf8(s))
}

/// The view of an optional text.
pub open spec fn text_opt(o: Option<&str>) -> Option<Seq<char>> {
    match o {
        Some(s) => Some(s@),
        None => None,
    }
}

/// The query string of a schedule enquiry: `journeyDate` and
/// `startingStationCode`, each only where given, in that order.
pub open spec fn schedule_query_of(date: Option<Seq<char>>, from: Option<Seq<char>>) -> Seq<char> {
    match (date, from) {
        (None, None) => Seq::empty(),
        (Some(d), None) => "?journeyDate="@ + segment(d),
        (None, Some(f)) => "?startingStationCode="@ + segment(f),
        (Some(d), Some(f)) => "?journeyDate="@ + segment(d) + "&startingStationCode="@ + segment(f),
    }
}

/// The two origins the enquiries are sent to, each without trailing `/`.
pub struct CoroverClient {
    /// API origin, such as `https://api.disha.corover.ai`.
    pub corover_base: String,
    /// CDN origin, without the bucket path.
    pub cdn_base: String,
}

impl CoroverClient {
    /// A client rooted at `corover_base` (API origin) and `cdn_base` (CDN
    /// origin); trailing slashes on either are dropped.
    pub fn new(corover_base: &str, cdn_base: &str) -> (r: Self)
        ensures
            r.corover_base@ == trim_end_char(corover_base@, '/'),
            r.cdn_base@ == trim_end_char(cdn_base@, '/'),
    {
        let mut api: Vec<char> = Vec::new();
        push_trimmed_end(&mut api, corover_base, '/');
        let mut cdn: Vec<char> = Vec::new();
        push_trimmed_end(&mut cdn, cdn_base, '/');
        CoroverClient { corover_base: string_of(api.as_slice()), cdn_base: string_of(cdn.as_slice()) }
    }

    /// Typeahead station search: `{api}/dishaAPI/bot/searchStation/{q}`,
    /// `q` percent-encoded as one path segment.
    pub fn search_station_url(&self, q: &str) -> (r: String)
        ensures
            r@ == self.corover_base@ + "/dishaAPI/bot/searchStation/"@ + segment(q@),
    {
        let mut out: Vec<char> = Vec::new();
        push_str(&mut out, self.corover_base.as_str());
        push_str(&mut out, "/dishaAPI/bot/searchStation/");
        let e = url_encode(q);
        push_str(&mut out, e.as_str());
        string_of(out.as_slice())
    }

    /// Train schedule enquiry:
    /// `{api}/dishaAPI/bot/trnscheduleEnq/{train_no}`, with `journeyDate`
    /// and `startingStationCode` appended only when given.
    pub fn schedule_url(&self, train_no: &str, journey_date: Option<&str>, from_code: Option<&str>) -> (r: String)
        ensures
            r@ == self.corover_base@ + "/dishaAPI/bot/trnscheduleEnq/"@ + segment(train_no@)
                + schedule_query_of(text_opt(journey_date), text_opt(from_code)),
    {
        let mut out: Vec<char> = Vec::new();
        push_str(&mut out, self.corover_base.as_str());
        push_str(&mut out, "/dishaAPI/bot/trnscheduleEnq/");
        let e = url_encode(train_no);
        push_str(&mut out, e.as_str());
        let ghost head = out@;
        match journey_date {
            Some(d) => {
                push_str(&mut out, "?journeyDate=");
                let de = url_encode(d);
                push_str(&mut out, de.as_str());
            },
            None => {},
        }
        match from_code {
            Some(f) => {
                if journey_date.is_some() {
                    push_str(&mut out, "&startingStationCode=");
                } else {
                    push_str(&mut out, "?startingStationCode=");
                }
                let fe = url_encode(f);
                push_str(&mut out, fe.as_str());
            },
            None => {},
        }
        proof {
            assert(out@ =~= head + schedule_query_of(text_opt(journey_date), text_opt(from_code)));
        }
        string_of(out.as_slice())
    }

    /// FAQ strings for `lang`: `{cdn}/askdisha-bucket/{lang}.json`.
    pub fn faqs_url(&self, lang: &str) -> (r: String)
        ensures
            r@ == self.cdn_base@ + "/askdisha-bucket/"@ + segment(lang@) + ".json"@,
    {
        let mut out: Vec<char> = Vec::new();
        push_str(&mut out, self.cdn_base.as_str());
        push_str(&mut out, "/askdisha-bucket/");
        let e = url_encode(lang);
        push_str(&mut out, e.as_str());
        push_str(&mut out, ".json");
        string_of(out.as_slice())
    }

    /// Feature-flag document: `{cdn}/askdisha-bucket/getSettings.json`.
    pub fn settings_url(&self) -> (r: String)
        ensures
            r@ == self.cdn_base@ + "/askdisha-bucket/getSettings.json"@,
    {
        let mut out: Vec<char> = Vec::new();
        push_str(&mut out, self.cdn_base.as_str());
        push_str(&mut out, "/askdisha-bucket/getSettings.json");
        string_of(out.as_slice())
    }
}

/// How an upstream run-day text reads: one letter, `Y` for a day the train
/// runs and `N` for one it does not, in either case; any other text is
/// refused.
pub open spec fn yn_text_of(s: Seq<char>) -> Option<bool> {
    if s.len() == 1 && ascii_upper(s[0]) == 'Y' {
        Some(true)
    } else if s.len() == 1 && ascii_upper(s[0]) == 'N' {
        Some(false)
    } else {
        None
    }
}

/// How a run-day flag of a schedule reads: a `"Y"`/`"N"` text as
/// [`yn_text_of`] says, or a JSON boolean as it stands; any other value is
/// refused.
pub open spec fn yn_of(v: Json) -> Option<bool> {
    match v {
        Json::Bool(b) => Some(b),
        Json::Str(s) => yn_text_of(s@),
        _ => None,
    }
}

/// The run-day flag written as `s`; `None` where the text is neither `Y`
/// nor `N` (in either case).
pub fn yn_text(s: &str) -> (r: Option<bool>)
    ensures
        r == yn_text_of(s@),
{
    let v = chars_of(s);
    if v.len() == 1 {
        let u = upper_char(v[0]);
        if u == 'Y' {
            return Some(true);
        } else if u == 'N' {
            return Some(false);
        }
    }
    None
}

/// The run-day flag held by `v`; `None` where `v` is neither a `"Y"`/`"N"`
/// text nor a boolean.
pub fn yn_flag(v: &Json) -> (r: Option<bool>)
    ensures
        r == yn_of(*v),
{
    match v {
        Json::Bool(b) => Some(*b),
        Json::Str(s) => yn_text(s.as_str()),
        _ => None,
    }
}

/// What one GET came back with.
pub enum FetchOutcome {
    /// An HTTP answer with this status code.
    Status(u16),
    /// No answer at all; `transient` where the failure was a timeout, a
    /// failed connection or a request that could not be sent.
    Transport { transient: bool },
}

/// What to do after one GET.
#[derive(PartialEq, Eq, Structural, Debug)]
pub enum FetchStep {
    /// A 2xx answer: decode its body.
    Decode,
    /// A transient failure on the first attempt: wait and try once more.
    Retry,
    /// Give up and report the source unavailable.
    Fail,
}

/// The step after attempt `attempt` (counted from 0) came back with `o`:
/// a 2xx answer is decoded; a 5xx answer or a transient transport failure
/// is retried after the first attempt only; anything else fails.
pub open spec fn fetch_step_of(attempt: u32, o: FetchOutcome) -> FetchStep {
    match o {
        FetchOutcome::Status(code) => if 200 <= code && code <= 299 {
            FetchStep::Decode
        } else if 500 <= code && code <= 599 && attempt == 0 {
            FetchStep::Retry
        } else {
            FetchStep::Fail
        },
        FetchOutcome::Transport { transient } => if transient && attempt == 0 {
            FetchStep::Retry
        } else {
            FetchStep::Fail
        },
    }
}

/// The step after attempt `attempt` came back with `outcome`.
pub fn fetch_step(attempt: u32, outcome: &FetchOutcome) -> (r: FetchStep)
    ensures
        r == fetch_step_of(attempt, *outcome),
{
    match outcome {
        FetchOutcome::Status(code) => {
            if 200 <= *code && *code <= 299 {
                FetchStep::Decode
            } else if 500 <= *code && *code <= 599 && attempt == 0 {
                FetchStep::Retry
            } else {
                FetchStep::Fail
            }
        },
        FetchOutcome::Transport { transient } => {
            if *transient && attempt == 0 {
                FetchStep::Retry
            } else {
                FetchStep::Fail
            }
        },
    }
}

/// A request is sent at most twice: no outcome of any attempt after the
/// first is retried, and a client error (4xx) is never retried.
pub proof fn lemma_at_most_one_retry(attempt: u32, o: FetchOutcome)
    ensures
        fetch_step_of(attempt, o) == FetchStep::Retry ==> attempt == 0,
        (o matches FetchOutcome::Status(code) && 400 <= code && code <= 499)
            ==> fetch_step_of(attempt, o) == FetchStep::Fail,
{
}

/// CDN `getSettings.json` feature flags.
pub struct SettingsFlag {
    pub id: i64,
    pub is_disabled: bool,
    pub booking: bool,
}

/// The flags document `doc` describes: an object whose `id` is a whole
/// number that fits `i64` and whose `isDisabled` and `booking` are booleans;
/// other members are ignored.
pub open spec fn settings_of(doc: Json) -> Option<SettingsFlag> {
    let d = Some(doc);
    match (i64_of(get_of(d, "id"@)), bool_of(get_of(d, "isDisabled"@)), bool_of(get_of(d, "booking"@))) {
        (Some(id), Some(is_disabled), Some(booking)) => Some(SettingsFlag { id, is_disabled, booking }),
        _ => None,
    }
}

impl SettingsFlag {
    /// The flags read from the document `doc`; `None` where a member is
    /// missing or of another kind.
    pub fn from_json(doc: &Json) -> (r: Option<SettingsFlag>)
        ensures
            r == settings_of(*doc),
    {
        let d = Some(doc);
        let id = as_i64(get(d, "id"));
        let is_disabled = as_bool(get(d, "isDisabled"));
        let booking = as_bool(get(d, "booking"));
        match (id, is_disabled, booking) {
            (Some(id), Some(is_disabled), Some(booking)) => Some(SettingsFlag { id, is_disabled, booking }),
            _ => None,
        }
    }
}

} // verus!
