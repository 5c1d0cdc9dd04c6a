//! Reading the RailYatri pages: the JSON document a Next.js page embeds,
//! lookups by dotted path, clock times given as minutes after midnight, and
//! the timetable and live-status answers built from them.
use vstd::prelude::*;
use crate::error::AppError;
use crate::json::{
    array_of, as_array, as_bool, as_i64, as_str, bool_of, deref, get, get_of, i64_of, is_object, is_object_of,
    json_parse_of, parse_json, str_of, Json,
};
use crate::text::{
    chars_of, find_from, lemma_occurrence_from, occurrence_from, push_str, push_two_digits, split_on, split_str,
    str_eq, string_of, string_of_range, string_views, to_uppercase, two_digits, uppercase_of,
};

verus! {

/// A minute count folded into one day: `m` modulo 1440, in `0..1440`.
pub open spec fn day_minute(m: int) -> int {
    m % 1440
}

/// `HH:MM` for a minute of the day.
pub open spec fn hhmm_of(m: int) -> Seq<char> {
    two_digits((m / 60) as nat) + seq![':'] + two_digits((m % 60) as nat)
}

/// `m` modulo 1440, computed without overflow for every `i64`.
fn fold_day(m: i64) -> (r: i64)
    ensures
        r == day_minute(m as int),
        0 <= r < 1440,
{
    if m >= 0 {
        m % 1440
    } else {
        let k: i64 = -(m + 1);
        let t: i64 = k % 1440;
        proof {
            let q = k as int / 1440;
            assert(k as int == 1440 * q + t) by (nonlinear_arith)
                requires k >= 0, t == k as int % 1440, q == k as int / 1440;
            assert(m as int == 1440 * (-q - 1) + (1439 - t)) by (nonlinear_arith)
                requires k as int == 1440 * q + t, k == -(m + 1);
            assert((m as int) % 1440 == 1439 - t) by (nonlinear_arith)
                requires m as int == 1440 * (-q - 1) + (1439 - t), 0 <= t < 1440;
        }
        1439 - t
    }
}

/// Minutes after midnight as `HH:MM`, wrapping past midnight in either
/// direction; no time gives the empty string.
pub fn minutes_to_hhmm(minutes: Option<i64>) -> (r: String)
    ensures
        r@ == match minutes {
            Some(m) => hhmm_of(day_minute(m as int)),
            None => Seq::empty(),
        },
{
    let m = match minutes {
        Some(m) => m,
        None => return String::new(),
    };
    let d = fold_day(m);
    let mut out: Vec<char> = Vec::new();
    push_two_digits(&mut out, (d / 60) as u64);
    out.push(':');
    push_two_digits(&mut out, (d % 60) as u64);
    proof {
        assert(out@ =~= hhmm_of(d as int));
    }
    string_of(out.as_slice())
}

// ------------------------------------------------------------ the page's data

/// What opens the page's embedded document.
pub const NEXT_DATA_START: &'static str = r#"<script id="__NEXT_DATA__" type="application/json">"#;

/// What closes it.
pub const NEXT_DATA_END: &'static str = "</script>";

/// The failure where the page has no embedded document.
pub const NO_SCRIPT: &'static str = "Railyatri: __NEXT_DATA__ script not found";

/// The failure where the embedded document is not closed.
pub const UNCLOSED_SCRIPT: &'static str = "Railyatri: __NEXT_DATA__ script not closed";

/// The start of the failure where the embedded document is no JSON; the
/// parser's own words follow.
pub const NOT_JSON: &'static str = "Railyatri: __NEXT_DATA__ is not valid JSON: ";

/// The text of the embedded document, or what is wrong with the page.
pub open spec fn next_data_text(html: Seq<char>) -> Result<Seq<char>, Seq<char>> {
    match occurrence_from(html, NEXT_DATA_START@, 0) {
        None => Err(NO_SCRIPT@),
        Some(k) => {
            let rest = html.skip(k + NEXT_DATA_START@.len());
            match occurrence_from(rest, NEXT_DATA_END@, 0) {
                None => Err(UNCLOSED_SCRIPT@),
                Some(e) => Ok(rest.take(e)),
            }
        },
    }
}

/// The embedded document of a page, where there is one and it is JSON.
pub open spec fn next_data_doc(html: Seq<char>) -> Option<Json> {
    match next_data_text(html) {
        Ok(t) => json_parse_of(t),
        Err(_) => None,
    }
}

/// `e` is the failure that reading the page's document gives: the fixed
/// text for a missing or unclosed script, and for a document that is no
/// JSON the fixed start followed by the parser's words.
pub open spec fn next_data_failure(html: Seq<char>, e: AppError) -> bool {
    match e {
        AppError::Internal(m) => match next_data_text(html) {
            Err(fixed) => m@ == fixed,
            Ok(_) => m@.len() >= NOT_JSON@.len() && m@.take(NOT_JSON@.len() as int) == NOT_JSON@,
        },
        _ => false,
    }
}

/// The JSON document a Next.js page embeds in its `__NEXT_DATA__` script.
pub fn extract_next_data(html: &str) -> (r: Result<Json, AppError>)
    ensures
        match r {
            Ok(j) => next_data_doc(html@) == Some(j),
            Err(e) => next_data_doc(html@) is None && next_data_failure(html@, e),
        },
{
    let hv = chars_of(html);
    let start = chars_of(NEXT_DATA_START);
    let end = chars_of(NEXT_DATA_END);
    proof {
        reveal_strlit(r#"<script id="__NEXT_DATA__" type="application/json">"#);
        reveal_strlit("</script>");
    }
    let k = match find_from(hv.as_slice(), start.as_slice(), 0) {
        Some(k) => k,
        None => return Err(AppError::Internal(NO_SCRIPT.to_owned())),
    };
    proof {
        lemma_occurrence_from(hv@, start@, 0);
    }
    let n = hv.len();
    let s = k + start.len();
    let rest = crate::text::chars_range(hv.as_slice(), s, n);
    proof {
        assert(rest@ =~= hv@.skip(s as int));
    }
    let e = match find_from(rest.as_slice(), end.as_slice(), 0) {
        Some(e) => e,
        None => return Err(AppError::Internal(UNCLOSED_SCRIPT.to_owned())),
    };
    proof {
        lemma_occurrence_from(rest@, end@, 0);
    }
    let body = string_of_range(rest.as_slice(), 0, e);
    proof {
        assert(body@ =~= rest@.take(e as int));
    }
    match parse_json(body.as_str()) {
        Ok(j) => Ok(j),
        Err(detail) => {
            let mut m: Vec<char> = Vec::new();
            push_str(&mut m, NOT_JSON);
            push_str(&mut m, detail.as_str());
            proof {
                assert(m@.take(NOT_JSON@.len() as int) =~= NOT_JSON@);
            }
            Err(AppError::Internal(string_of(m.as_slice())))
        },
    }
}

/// The value at a dotted path: each piece of the path looked up in turn.
pub open spec fn path_of(v: Option<Json>, parts: Seq<Seq<char>>) -> Option<Json>
    decreases parts.len(),
{
    if parts.len() == 0 {
        v
    } else {
        path_of(get_of(v, parts[0]), parts.drop_first())
    }
}

/// The value at a dotted path such as `props.pageProps.trainTimeTable`.
pub open spec fn deep_get_of(root: Json, path: Seq<char>) -> Option<Json> {
    path_of(Some(root), split_on(path, "."@))
}

/// The value at a dotted path of `root`, where every step exists.
pub fn deep_get<'a>(root: &'a Json, path: &str) -> (r: Option<&'a Json>)
    ensures
        deref(r) == deep_get_of(*root, path@),
{
    let dot = chars_of(".");
    proof {
        reveal_strlit(".");
    }
    let parts = split_str(chars_of(path).as_slice(), dot.as_slice());
    let ghost ps = string_views(parts@);
    let mut cur: &Json = root;
    let mut i: usize = 0;
    proof {
        assert(ps.skip(0) =~= ps);
    }
    while i < parts.len()
        invariant
            0 <= i <= parts@.len(),
            ps == string_views(parts@),
            deep_get_of(*root, path@) == path_of(Some(*cur), ps.skip(i as int)),
        decreases parts@.len() - i,
    {
        proof {
            assert(ps.skip(i as int)[0] == parts@[i as int]@);
            assert(ps.skip(i as int).drop_first() =~= ps.skip(i + 1));
        }
        match get(Some(cur), parts[i].as_str()) {
            Some(next) => cur = next,
            None => {
                proof {
                    lemma_path_of_none(ps.skip(i + 1));
                }
                return None;
            },
        }
        i = i + 1;
    }
    Some(cur)
}

/// Nothing is found below a missing value.
proof fn lemma_path_of_none(parts: Seq<Seq<char>>)
    ensures
        path_of(None, parts) is None,
    decreases parts.len(),
{
    if parts.len() > 0 {
        lemma_path_of_none(parts.drop_first());
    }
}

/// The text of a value, where it is a string.
pub fn get_string(v: &Json) -> (r: Option<String>)
    ensures
        match r {
            Some(s) => str_of(Some(*v)) == Some(s@),
            None => str_of(Some(*v)) is None,
        },
{
    match as_str(Some(v)) {
        Some(s) => Some(s.to_owned()),
        None => None,
    }
}

/// The value of a whole number that fits `i64`.
pub fn get_i64(v: &Json) -> (r: Option<i64>)
    ensures
        r == i64_of(Some(*v)),
{
    as_i64(Some(v))
}

/// The days a `run_days` value names, upper-cased: the strings of an
/// array, or the keys of an object whose value is `true`, in order.
pub open spec fn run_days_of(v: Json) -> Seq<Seq<char>> {
    match v {
        Json::Array(a) => strings_upper(a@),
        Json::Object(fields) => true_keys_upper(fields@),
        _ => Seq::empty(),
    }
}

/// The strings among `a`, upper-cased.
pub open spec fn strings_upper(a: Seq<Json>) -> Seq<Seq<char>>
    decreases a.len(),
{
    if a.len() == 0 {
        Seq::empty()
    } else {
        match a.last() {
            Json::Str(s) => strings_upper(a.drop_last()).push(uppercase_of(s@)),
            _ => strings_upper(a.drop_last()),
        }
    }
}

/// The keys whose value is `true`, upper-cased.
pub open spec fn true_keys_upper(f: Seq<(String, Json)>) -> Seq<Seq<char>>
    decreases f.len(),
{
    if f.len() == 0 {
        Seq::empty()
    } else {
        match f.last().1 {
            Json::Bool(true) => true_keys_upper(f.drop_last()).push(uppercase_of(f.last().0@)),
            _ => true_keys_upper(f.drop_last()),
        }
    }
}

/// The days a `run_days` value names (`["MON","TUE"]`, or `{"MON": true}`).
pub fn normalize_run_days(v: &Json) -> (r: Vec<String>)
    ensures
        string_views(r@) == run_days_of(*v),
{
    let mut out: Vec<String> = Vec::new();
    match v {
        Json::Array(a) => {
            let mut i: usize = 0;
            proof {
                assert(a@.take(0) =~= Seq::<Json>::empty());
                assert(string_views(out@) =~= Seq::<Seq<char>>::empty());
            }
            while i < a.len()
                invariant
                    0 <= i <= a@.len(),
                    string_views(out@) == strings_upper(a@.take(i as int)),
                decreases a@.len() - i,
            {
                proof {
                    assert(a@.take(i + 1).drop_last() =~= a@.take(i as int));
                    assert(a@.take(i + 1).last() == a@[i as int]);
                }
                match &a[i] {
                    Json::Str(s) => {
                        let ghost ov = string_views(out@);
                        let u = to_uppercase(s.as_str());
                        out.push(u);
                        proof {
                            assert(string_views(out@) =~= ov.push(uppercase_of(s@)));
                        }
                    },
                    _ => {},
                }
                i = i + 1;
            }
            proof {
                assert(a@.take(a@.len() as int) =~= a@);
            }
        },
        Json::Object(fields) => {
            let mut i: usize = 0;
            proof {
                assert(fields@.take(0) =~= Seq::<(String, Json)>::empty());
                assert(string_views(out@) =~= Seq::<Seq<char>>::empty());
            }
            while i < fields.len()
                invariant
                    0 <= i <= fields@.len(),
                    string_views(out@) == true_keys_upper(fields@.take(i as int)),
                decreases fields@.len() - i,
            {
                proof {
                    assert(fields@.take(i + 1).drop_last() =~= fields@.take(i as int));
                    assert(fields@.take(i + 1).last() == fields@[i as int]);
                }
                let (k, val) = &fields[i];
                match val {
                    Json::Bool(true) => {
                        let ghost ov = string_views(out@);
                        let u = to_uppercase(k.as_str());
                        out.push(u);
                        proof {
                            assert(string_views(out@) =~= ov.push(uppercase_of(k@)));
                        }
                    },
                    _ => {},
                }
                i = i + 1;
            }
            proof {
                assert(fields@.take(fields@.len() as int) =~= fields@);
            }
        },
        _ => {
            proof {
                assert(string_views(out@) =~= Seq::<Seq<char>>::empty());
            }
        },
    }
    out
}

/// A text, or empty.
pub open spec fn text_or_empty(t: Option<Seq<char>>) -> Seq<char> {
    match t {
        Some(x) => x,
        None => Seq::empty(),
    }
}

/// The `station_code` and `station_name` of a stop, empty where missing.
pub open spec fn stop_pair_of(stop: Json) -> (Seq<char>, Seq<char>) {
    (
        text_or_empty(str_of(get_of(Some(stop), "station_code"@))),
        text_or_empty(str_of(get_of(Some(stop), "station_name"@))),
    )
}

/// A member's text, or empty.
fn member_text(v: &Json, key: &str) -> (r: String)
    ensures
        r@ == text_or_empty(str_of(get_of(Some(*v), key@))),
{
    match as_str(get(Some(v), key)) {
        Some(s) => s.to_owned(),
        None => String::new(),
    }
}

/// The code and name of a timetable stop.
pub fn stop_pair(stop: &Json) -> (r: (String, String))
    ensures
        (r.0@, r.1@) == stop_pair_of(*stop),
{
    (member_text(stop, "station_code"), member_text(stop, "station_name"))
}

/// `{"data": data}`.
pub fn wrap_ok(data: Json) -> (r: Json)
    ensures
        r matches Json::Object(f) && f@.len() == 1 && f@[0].0@ == "data"@ && f@[0].1 == data,
{
    let mut f: Vec<(String, Json)> = Vec::new();
    f.push(("data".to_owned(), data));
    Json::Object(f)
}

// ----------------------------------------------------------- the timetable

/// The code of a stop, empty where missing.
pub open spec fn code_of(stop: Json) -> Seq<char> {
    text_or_empty(str_of(get_of(Some(stop), "station_code"@)))
}

/// The `routesummary` stops of a route group.
pub open spec fn summary_of(g: Json) -> Option<Seq<Json>> {
    array_of(get_of(Some(g), "routesummary"@))
}

/// The stops of every route group's summary, one group after another.
pub open spec fn flat_summaries(gs: Seq<Json>) -> Seq<Json>
    decreases gs.len(),
{
    if gs.len() == 0 {
        Seq::empty()
    } else {
        flat_summaries(gs.drop_last()) + match summary_of(gs.last()) {
            Some(a) => a,
            None => Seq::empty(),
        }
    }
}

/// Some stop of `s` has code `c`.
pub open spec fn code_seen(s: Seq<Json>, c: Seq<char>) -> bool {
    exists|j: int| 0 <= j < s.len() && code_of(#[trigger] s[j]) == c
}

/// The stops, each code kept at its first occurrence only.
pub open spec fn first_by_code(s: Seq<Json>) -> Seq<Json>
    decreases s.len(),
{
    if s.len() == 0 {
        Seq::empty()
    } else if code_seen(s.drop_last(), code_of(s.last())) {
        first_by_code(s.drop_last())
    } else {
        first_by_code(s.drop_last()).push(s.last())
    }
}

/// The candidate stop lists of a timetable, in order of preference: the
/// first route group's summary; the union of every group's summary, each
/// code once (where not empty); the first schedule detail's route.
pub open spec fn candidates_of(ttt: Json) -> Seq<Seq<Json>> {
    let groups = array_of(get_of(Some(ttt), "routeGroup"@));
    let first: Seq<Seq<Json>> = match groups {
        Some(gs) => if gs.len() > 0 {
            match summary_of(gs[0]) {
                Some(a) => seq![a],
                None => Seq::empty(),
            }
        } else {
            Seq::empty()
        },
        None => Seq::empty(),
    };
    let merged: Seq<Seq<Json>> = match groups {
        Some(gs) => if first_by_code(flat_summaries(gs)).len() > 0 {
            seq![first_by_code(flat_summaries(gs))]
        } else {
            Seq::empty()
        },
        None => Seq::empty(),
    };
    let detail: Seq<Seq<Json>> = match array_of(get_of(Some(ttt), "trainScheduleDetail"@)) {
        Some(a) => if a.len() > 0 {
            match array_of(get_of(Some(a[0]), "route"@)) {
                Some(r) => seq![r],
                None => Seq::empty(),
            }
        } else {
            Seq::empty()
        },
        None => Seq::empty(),
    };
    first + merged + detail
}

/// The first candidate with at least ten stops.
pub open spec fn first_long(cs: Seq<Seq<Json>>) -> Option<Seq<Json>>
    decreases cs.len(),
{
    if cs.len() == 0 {
        None
    } else if cs[0].len() >= 10 {
        Some(cs[0])
    } else {
        first_long(cs.drop_first())
    }
}

/// The first candidate with a stop.
pub open spec fn first_nonempty(cs: Seq<Seq<Json>>) -> Option<Seq<Json>>
    decreases cs.len(),
{
    if cs.len() == 0 {
        None
    } else if cs[0].len() > 0 {
        Some(cs[0])
    } else {
        first_nonempty(cs.drop_first())
    }
}

/// The stops of a timetable: the first complete candidate (ten stops or
/// more), else the first that has any, else none.
pub open spec fn timetable_stops_of(ttt: Json) -> Seq<Json> {
    let cs = candidates_of(ttt);
    match first_long(cs) {
        Some(c) => c,
        None => match first_nonempty(cs) {
            Some(c) => c,
            None => Seq::empty(),
        },
    }
}

/// Borrowed values as the values.
pub open spec fn refs(v: Seq<&Json>) -> Seq<Json> {
    v.map_values(|r: &Json| *r)
}

/// A borrow of each element, in order.
fn borrow_all<'a>(rs: &'a Vec<Json>) -> (r: Vec<&'a Json>)
    ensures
        refs(r@) == rs@,
{
    let mut c: Vec<&'a Json> = Vec::new();
    let mut j: usize = 0;
    while j < rs.len()
        invariant
            0 <= j <= rs@.len(),
            c@.len() == j,
            forall|k: int| 0 <= k < j ==> *(#[trigger] c@[k]) == rs@[k],
        decreases rs@.len() - j,
    {
        let x: &'a Json = &rs[j];
        c.push(x);
        j = j + 1;
    }
    proof {
        assert(refs(c@) =~= rs@);
    }
    c
}

/// The same borrows again.
fn copy_refs<'a>(c: &Vec<&'a Json>) -> (r: Vec<&'a Json>)
    ensures
        refs(r@) == refs(c@),
{
    let mut out: Vec<&'a Json> = Vec::new();
    let mut j: usize = 0;
    while j < c.len()
        invariant
            0 <= j <= c@.len(),
            out@.len() == j,
            forall|k: int| 0 <= k < j ==> *(#[trigger] out@[k]) == *c@[k],
        decreases c@.len() - j,
    {
        let x: &'a Json = c[j];
        out.push(x);
        j = j + 1;
    }
    proof {
        assert(refs(out@) =~= refs(c@));
    }
    out
}

/// Whether some text among `seen` is `c`.
fn seen_contains(seen: &Vec<String>, c: &str) -> (r: bool)
    ensures
        r == exists|k: int| 0 <= k < seen@.len() && (#[trigger] seen@[k])@ == c@,
{
    let mut i: usize = 0;
    while i < seen.len()
        invariant
            0 <= i <= seen@.len(),
            forall|k: int| 0 <= k < i ==> (#[trigger] seen@[k])@ != c@,
        decreases seen@.len() - i,
    {
        if str_eq(seen[i].as_str(), c) {
            return true;
        }
        i = i + 1;
    }
    false
}

/// The stops of every group's summary, one group after another.
fn flatten<'a>(gs: &'a Vec<Json>) -> (r: Vec<&'a Json>)
    ensures
        refs(r@) == flat_summaries(gs@),
{
    let mut out: Vec<&'a Json> = Vec::new();
    let mut i: usize = 0;
    proof {
        assert(gs@.take(0) =~= Seq::<Json>::empty());
        assert(refs(out@) =~= Seq::<Json>::empty());
    }
    while i < gs.len()
        invariant
            0 <= i <= gs@.len(),
            refs(out@) == flat_summaries(gs@.take(i as int)),
        decreases gs@.len() - i,
    {
        proof {
            assert(gs@.take(i + 1).drop_last() =~= gs@.take(i as int));
            assert(gs@.take(i + 1).last() == gs@[i as int]);
        }
        let ghost before = refs(out@);
        match as_array(get(Some(&gs[i]), "routesummary")) {
            Some(rs) => {
                let b = borrow_all(rs);
                let mut j: usize = 0;
                while j < b.len()
                    invariant
                        0 <= j <= b@.len(),
                        refs(b@) == rs@,
                        refs(out@) == before + rs@.take(j as int),
                    decreases b@.len() - j,
                {
                    let ghost ov = out@;
                    out.push(b[j]);
                    proof {
                        assert(refs(b@)[j as int] == *b@[j as int]);
                        assert(rs@.take(j + 1) =~= rs@.take(j as int).push(rs@[j as int]));
                        assert(refs(out@) =~= refs(ov).push(rs@[j as int]));
                    }
                    j = j + 1;
                }
                proof {
                    assert(rs@.take(rs@.len() as int) =~= rs@);
                }
            },
            None => {
                proof {
                    assert(refs(out@) =~= before + Seq::<Json>::empty());
                }
            },
        }
        i = i + 1;
    }
    proof {
        assert(gs@.take(gs@.len() as int) =~= gs@);
    }
    out
}

/// The stops, each code kept at its first occurrence only.
fn dedup_by_code<'a>(flat: &Vec<&'a Json>) -> (r: Vec<&'a Json>)
    ensures
        refs(r@) == first_by_code(refs(flat@)),
{
    let ghost fv = refs(flat@);
    let mut seen: Vec<String> = Vec::new();
    let mut out: Vec<&'a Json> = Vec::new();
    let mut i: usize = 0;
    proof {
        assert(fv.take(0) =~= Seq::<Json>::empty());
        assert(refs(out@) =~= Seq::<Json>::empty());
    }
    while i < flat.len()
        invariant
            0 <= i <= flat@.len(),
            fv == refs(flat@),
            refs(out@) == first_by_code(fv.take(i as int)),
            forall|c: Seq<char>|
                (exists|k: int| 0 <= k < seen@.len() && (#[trigger] seen@[k])@ == c) <==> code_seen(fv.take(i as int), c),
        decreases flat@.len() - i,
    {
        let stop: &Json = flat[i];
        let code = member_text(stop, "station_code");
        let ghost pre = fv.take(i as int);
        let ghost post = fv.take(i + 1);
        proof {
            assert(post.drop_last() =~= pre);
            assert(post.last() == *stop);
            assert(fv[i as int] == *stop);
        }
        if !seen_contains(&seen, code.as_str()) {
            let ghost ov = refs(out@);
            let ghost old_seen = seen@;
            seen.push(code);
            out.push(stop);
            proof {
                assert(refs(out@) =~= ov.push(*stop));
                assert forall|c: Seq<char>|
                    (exists|k: int| 0 <= k < seen@.len() && (#[trigger] seen@[k])@ == c) <==> code_seen(post, c) by {
                    if code_seen(post, c) {
                        let j = choose|j: int| 0 <= j < post.len() && code_of(#[trigger] post[j]) == c;
                        if j < i {
                            assert(pre[j] == post[j]);
                            assert(code_seen(pre, c));
                            let k = choose|k: int| 0 <= k < old_seen.len() && (#[trigger] old_seen[k])@ == c;
                            assert(seen@[k] == old_seen[k]);
                        } else {
                            assert(seen@[old_seen.len() as int]@ == c);
                        }
                    }
                    if exists|k: int| 0 <= k < seen@.len() && (#[trigger] seen@[k])@ == c {
                        let k = choose|k: int| 0 <= k < seen@.len() && (#[trigger] seen@[k])@ == c;
                        if k < old_seen.len() {
                            assert(old_seen[k] == seen@[k]);
                            assert(code_seen(pre, c));
                            let j = choose|j: int| 0 <= j < pre.len() && code_of(#[trigger] pre[j]) == c;
                            assert(post[j] == pre[j]);
                        } else {
                            assert(post[i as int] == *stop);
                        }
                    }
                }
            }
        } else {
            proof {
                let k = choose|k: int| 0 <= k < seen@.len() && (#[trigger] seen@[k])@ == code@;
                assert(code_seen(pre, code_of(*stop)));
                assert forall|c: Seq<char>| code_seen(post, c) implies code_seen(pre, c) by {
                    let j = choose|j: int| 0 <= j < post.len() && code_of(#[trigger] post[j]) == c;
                    if j < i {
                        assert(pre[j] == post[j]);
                    }
                }
                assert forall|c: Seq<char>| code_seen(pre, c) implies code_seen(post, c) by {
                    let j = choose|j: int| 0 <= j < pre.len() && code_of(#[trigger] pre[j]) == c;
                    assert(post[j] == pre[j]);
                }
            }
        }
        i = i + 1;
    }
    proof {
        assert(fv.take(flat@.len() as int) =~= fv);
    }
    out
}

/// Candidate stop lists as plain values.
pub open spec fn cands_view(v: Seq<Vec<&Json>>) -> Seq<Seq<Json>> {
    v.map_values(|c: Vec<&Json>| refs(c@))
}

/// The stops of a timetable.
fn timetable_stops<'a>(ttt: &'a Json) -> (r: Vec<&'a Json>)
    ensures
        refs(r@) == timetable_stops_of(*ttt),
{
    let mut cands: Vec<Vec<&'a Json>> = Vec::new();
    let ghost cv0 = Seq::<Seq<Json>>::empty();
    match as_array(get(Some(ttt), "routeGroup")) {
        Some(gs) => {
            if gs.len() > 0 {
                match as_array(get(Some(&gs[0]), "routesummary")) {
                    Some(rs) => {
                        cands.push(borrow_all(rs));
                    },
                    None => {},
                }
            }
            let flat = flatten(gs);
            let merged = dedup_by_code(&flat);
            if merged.len() > 0 {
                cands.push(merged);
            }
        },
        None => {},
    }
    match as_array(get(Some(ttt), "trainScheduleDetail")) {
        Some(a) => {
            if a.len() > 0 {
                match as_array(get(Some(&a[0]), "route")) {
                    Some(rs) => {
                        cands.push(borrow_all(rs));
                    },
                    None => {},
                }
            }
        },
        None => {},
    }
    proof {
        assert(cands_view(cands@) =~= candidates_of(*ttt));
    }
    let ghost cs = cands_view(cands@);
    let mut i: usize = 0;
    proof {
        assert(cs.skip(0) =~= cs);
    }
    while i < cands.len()
        invariant
            0 <= i <= cands@.len(),
            cs == cands_view(cands@),
            cs == candidates_of(*ttt),
            first_long(cs) == first_long(cs.skip(i as int)),
        decreases cands@.len() - i,
    {
        proof {
            assert(cs.skip(i as int)[0] == refs(cands@[i as int]@));
            assert(cs.skip(i as int).drop_first() =~= cs.skip(i + 1));
        }
        if cands[i].len() >= 10 {
            proof {
                assert(cs.skip(i as int)[0].len() == cands@[i as int]@.len());
                assert(first_long(cs) == Some(refs(cands@[i as int]@)));
            }
            return copy_refs(&cands[i]);
        }
        i = i + 1;
    }
    let mut i: usize = 0;
    proof {
        assert(cs.skip(0) =~= cs);
        assert(cs.skip(cands@.len() as int) =~= Seq::<Seq<Json>>::empty());
    }
    while i < cands.len()
        invariant
            0 <= i <= cands@.len(),
            cs == cands_view(cands@),
            cs == candidates_of(*ttt),
            first_long(cs) is None,
            first_nonempty(cs) == first_nonempty(cs.skip(i as int)),
        decreases cands@.len() - i,
    {
        proof {
            assert(cs.skip(i as int)[0] == refs(cands@[i as int]@));
            assert(cs.skip(i as int).drop_first() =~= cs.skip(i + 1));
        }
        if cands[i].len() > 0 {
            proof {
                assert(cs.skip(i as int)[0].len() == cands@[i as int]@.len());
                assert(first_nonempty(cs) == Some(refs(cands@[i as int]@)));
            }
            return copy_refs(&cands[i]);
        }
        i = i + 1;
    }
    proof {
        assert(cs.skip(cands@.len() as int) =~= Seq::<Seq<Json>>::empty());
    }
    Vec::new()
}

// ------------------------------------------------------------ the answers

/// `HH:MM` of an optional minute count, empty without one.
pub open spec fn clock_of(m: Option<i64>) -> Seq<char> {
    match m {
        Some(x) => hhmm_of(day_minute(x as int)),
        None => Seq::empty(),
    }
}

/// A stop of a train's timetable.
#[derive(Debug, Clone)]
pub struct ScheduleStop {
    pub code: String,
    pub name: String,
    pub arrival: String,
    pub departure: String,
    pub day: i64,
    /// The train halts here.
    pub stop: bool,
}

/// A timetable stop as plain values.
pub struct ScheduleStopV {
    pub code: Seq<char>,
    pub name: Seq<char>,
    pub arrival: Seq<char>,
    pub departure: Seq<char>,
    pub day: i64,
    pub stop: bool,
}

impl View for ScheduleStop {
    type V = ScheduleStopV;

    open spec fn view(&self) -> ScheduleStopV {
        ScheduleStopV {
            code: self.code@,
            name: self.name@,
            arrival: self.arrival@,
            departure: self.departure@,
            day: self.day,
            stop: self.stop,
        }
    }
}

/// A train's timetable.
#[derive(Debug, Clone)]
pub struct Schedule {
    pub train_number: String,
    pub train_name: String,
    pub run_days: Vec<String>,
    pub route_description: String,
    pub stops: Vec<ScheduleStop>,
}

/// A timetable as plain values.
pub struct ScheduleV {
    pub train_number: Seq<char>,
    pub train_name: Seq<char>,
    pub run_days: Seq<Seq<char>>,
    pub route_description: Seq<char>,
    pub stops: Seq<ScheduleStopV>,
}

impl View for Schedule {
    type V = ScheduleV;

    open spec fn view(&self) -> ScheduleV {
        ScheduleV {
            train_number: self.train_number@,
            train_name: self.train_name@,
            run_days: string_views(self.run_days@),
            route_description: self.route_description@,
            stops: self.stops@.map_values(|t: ScheduleStop| t@),
        }
    }
}

/// A timetable stop: code and name, arrival and departure from the minute
/// counts `sta_min` and `std_min`, the day (1 where missing) and whether the
/// train halts (yes where missing).
pub open spec fn schedule_stop_of(stop: Json) -> ScheduleStopV {
    ScheduleStopV {
        code: stop_pair_of(stop).0,
        name: stop_pair_of(stop).1,
        arrival: clock_of(i64_of(get_of(Some(stop), "sta_min"@))),
        departure: clock_of(i64_of(get_of(Some(stop), "std_min"@))),
        day: match i64_of(get_of(Some(stop), "day"@)) {
            Some(d) => d,
            None => 1,
        },
        stop: match bool_of(get_of(Some(stop), "stop"@)) {
            Some(b) => b,
            None => true,
        },
    }
}

/// Where the timetable sits in the page's document.
pub const TIMETABLE_PATH: &'static str = "props.pageProps.trainTimeTable";

/// The timetable a page's document carries: number, name, run days, the
/// `<source> - <destination> Express` description (empty where either end
/// is missing or empty) and the stops; all empty where it carries none.
pub open spec fn schedule_of(doc: Json) -> ScheduleV {
    match deep_get_of(doc, TIMETABLE_PATH@) {
        None => ScheduleV {
            train_number: Seq::empty(),
            train_name: Seq::empty(),
            run_days: Seq::empty(),
            route_description: Seq::empty(),
            stops: Seq::empty(),
        },
        Some(ttt) => {
            let source = text_or_empty(str_of(get_of(Some(ttt), "source_station"@)));
            let destination = text_or_empty(str_of(get_of(Some(ttt), "destination_station"@)));
            ScheduleV {
                train_number: text_or_empty(str_of(get_of(Some(ttt), "train_number"@))),
                train_name: text_or_empty(str_of(get_of(Some(ttt), "train_name"@))),
                run_days: match get_of(Some(ttt), "run_days"@) {
                    Some(v) => run_days_of(v),
                    None => Seq::empty(),
                },
                route_description: if source.len() == 0 || destination.len() == 0 {
                    Seq::empty()
                } else {
                    source + " - "@ + destination + " Express"@
                },
                stops: timetable_stops_of(ttt).map_values(|s: Json| schedule_stop_of(s)),
            }
        },
    }
}

/// A minute count member as `HH:MM`.
fn member_clock(stop: &Json, key: &str) -> (r: String)
    ensures
        r@ == clock_of(i64_of(get_of(Some(*stop), key@))),
{
    minutes_to_hhmm(as_i64(get(Some(stop), key)))
}

/// A timetable stop.
fn schedule_stop(stop: &Json) -> (r: ScheduleStop)
    ensures
        r@ == schedule_stop_of(*stop),
{
    let (code, name) = stop_pair(stop);
    let day = match as_i64(get(Some(stop), "day")) {
        Some(d) => d,
        None => 1,
    };
    let halt = match as_bool(get(Some(stop), "stop")) {
        Some(b) => b,
        None => true,
    };
    ScheduleStop {
        code,
        name,
        arrival: member_clock(stop, "sta_min"),
        departure: member_clock(stop, "std_min"),
        day,
        stop: halt,
    }
}

/// The timetable a page's document carries.
fn schedule_from(doc: &Json) -> (r: Schedule)
    ensures
        r@ == schedule_of(*doc),
{
    let ttt = match deep_get(doc, TIMETABLE_PATH) {
        Some(t) => t,
        None => {
            let r = Schedule {
                train_number: String::new(),
                train_name: String::new(),
                run_days: Vec::new(),
                route_description: String::new(),
                stops: Vec::new(),
            };
            proof {
                assert(string_views(r.run_days@) =~= Seq::<Seq<char>>::empty());
                assert(r.stops@.map_values(|t: ScheduleStop| t@) =~= Seq::<ScheduleStopV>::empty());
            }
            return r;
        },
    };
    let source = member_text(ttt, "source_station");
    let destination = member_text(ttt, "destination_station");
    let mut route: Vec<char> = Vec::new();
    if !source.as_str().is_empty() && !destination.as_str().is_empty() {
        push_str(&mut route, source.as_str());
        push_str(&mut route, " - ");
        push_str(&mut route, destination.as_str());
        push_str(&mut route, " Express");
    }
    let run_days = match get(Some(ttt), "run_days") {
        Some(v) => normalize_run_days(v),
        None => Vec::new(),
    };
    let picked = timetable_stops(ttt);
    let mut stops: Vec<ScheduleStop> = Vec::new();
    let mut i: usize = 0;
    while i < picked.len()
        invariant
            0 <= i <= picked@.len(),
            stops@.len() == i,
            forall|k: int| 0 <= k < i ==> (#[trigger] stops@[k])@ == schedule_stop_of(*picked@[k]),
        decreases picked@.len() - i,
    {
        stops.push(schedule_stop(picked[i]));
        i = i + 1;
    }
    let r = Schedule {
        train_number: member_text(ttt, "train_number"),
        train_name: member_text(ttt, "train_name"),
        run_days,
        route_description: string_of(route.as_slice()),
        stops,
    };
    proof {
        if run_days@.len() == 0 {
            assert(string_views(r.run_days@) =~= Seq::<Seq<char>>::empty());
        }
        assert(r.stops@.map_values(|t: ScheduleStop| t@) =~= refs(picked@).map_values(|s: Json| schedule_stop_of(s)));
    }
    r
}

/// A train's timetable from its RailYatri page; a page whose document
/// carries no timetable gives an empty one.
pub fn parse_schedule(html: &str) -> (r: Result<Schedule, AppError>)
    ensures
        match r {
            Ok(s) => (next_data_doc(html@) matches Some(doc) && s@ == schedule_of(doc)),
            Err(e) => next_data_doc(html@) is None && next_data_failure(html@, e),
        },
{
    match extract_next_data(html) {
        Ok(doc) => Ok(schedule_from(&doc)),
        Err(e) => Err(e),
    }
}

/// A stop of a live status.
#[derive(Debug, Clone)]
pub struct LiveStop {
    pub code: String,
    pub name: String,
    pub arrival: String,
    pub departure: String,
    pub day: i64,
}

/// A live-status stop as plain values.
pub struct LiveStopV {
    pub code: Seq<char>,
    pub name: Seq<char>,
    pub arrival: Seq<char>,
    pub departure: Seq<char>,
    pub day: i64,
}

impl View for LiveStop {
    type V = LiveStopV;

    open spec fn view(&self) -> LiveStopV {
        LiveStopV { code: self.code@, name: self.name@, arrival: self.arrival@, departure: self.departure@, day: self.day }
    }
}

/// A live-status stop: as a timetable stop, without the halt flag.
pub open spec fn live_stop_of(stop: Json) -> LiveStopV {
    LiveStopV {
        code: stop_pair_of(stop).0,
        name: stop_pair_of(stop).1,
        arrival: clock_of(i64_of(get_of(Some(stop), "sta_min"@))),
        departure: clock_of(i64_of(get_of(Some(stop), "std_min"@))),
        day: match i64_of(get_of(Some(stop), "day"@)) {
            Some(d) => d,
            None => 1,
        },
    }
}

/// A train's live status: the running fields as text (none where missing
/// or not a plain value) and the stops of its route.
#[derive(Debug, Clone)]
pub struct LiveStatus {
    pub train_number: Option<String>,
    pub train_name: Option<String>,
    pub train_start_date: Option<String>,
    pub at_src: Option<String>,
    pub at_dstn: Option<String>,
    pub at_src_dstn: Option<String>,
    pub next_station_code: Option<String>,
    pub next_station_name: Option<String>,
    pub title: Option<String>,
    pub new_message: Option<String>,
    pub spent_time: Option<String>,
    pub source_stn_name: Option<String>,
    pub dest_stn_name: Option<String>,
    pub platform_number: Option<String>,
    pub stops: Vec<LiveStop>,
}

/// An optional text as a plain value.
pub open spec fn ov(o: Option<String>) -> Option<Seq<char>> {
    match o {
        Some(s) => Some(s@),
        None => None,
    }
}

/// A live status as plain values.
pub struct LiveStatusV {
    pub train_number: Option<Seq<char>>,
    pub train_name: Option<Seq<char>>,
    pub train_start_date: Option<Seq<char>>,
    pub at_src: Option<Seq<char>>,
    pub at_dstn: Option<Seq<char>>,
    pub at_src_dstn: Option<Seq<char>>,
    pub next_station_code: Option<Seq<char>>,
    pub next_station_name: Option<Seq<char>>,
    pub title: Option<Seq<char>>,
    pub new_message: Option<Seq<char>>,
    pub spent_time: Option<Seq<char>>,
    pub source_stn_name: Option<Seq<char>>,
    pub dest_stn_name: Option<Seq<char>>,
    pub platform_number: Option<Seq<char>>,
    pub stops: Seq<LiveStopV>,
}

impl View for LiveStatus {
    type V = LiveStatusV;

    open spec fn view(&self) -> LiveStatusV {
        LiveStatusV {
            train_number: ov(self.train_number),
            train_name: ov(self.train_name),
            train_start_date: ov(self.train_start_date),
            at_src: ov(self.at_src),
            at_dstn: ov(self.at_dstn),
            at_src_dstn: ov(self.at_src_dstn),
            next_station_code: ov(self.next_station_code),
            next_station_name: ov(self.next_station_name),
            title: ov(self.title),
            new_message: ov(self.new_message),
            spent_time: ov(self.spent_time),
            source_stn_name: ov(self.source_stn_name),
            dest_stn_name: ov(self.dest_stn_name),
            platform_number: ov(self.platform_number),
            stops: self.stops@.map_values(|t: LiveStop| t@),
        }
    }
}

/// A running field as text: strings as they are, numbers as written, and
/// booleans as `true` / `false`; none for anything else.
pub open spec fn lts_text_of(v: Option<Json>) -> Option<Seq<char>> {
    match v {
        Some(Json::Str(s)) => Some(s@),
        Some(Json::Number(t)) => Some(t@),
        Some(Json::Bool(b)) => Some(if b { "true"@ } else { "false"@ }),
        _ => None,
    }
}

/// Where the running fields sit in the page's document.
pub const LTS_PATH: &'static str = "props.pageProps.ltsData";

/// Where the route's timetable sits.
pub const ROUTE_PATH: &'static str = "props.pageProps.timeTableData";

/// The failure where the page carries no running fields.
pub const NO_LTS: &'static str = "Railyatri: no ltsData in page";

/// The stops of the first timetable's route, none where missing.
pub open spec fn live_stops_of(doc: Json) -> Seq<LiveStopV> {
    match array_of(deep_get_of(doc, ROUTE_PATH@)) {
        Some(a) => if a.len() > 0 {
            match array_of(get_of(Some(a[0]), "route"@)) {
                Some(r) => r.map_values(|s: Json| live_stop_of(s)),
                None => Seq::empty(),
            }
        } else {
            Seq::empty()
        },
        None => Seq::empty(),
    }
}

/// The live status a page's document carries; none without running fields.
pub open spec fn live_status_of(doc: Json) -> Option<LiveStatusV> {
    match deep_get_of(doc, LTS_PATH@) {
        None => None,
        Some(lts) => Some(
            LiveStatusV {
                train_number: lts_text_of(get_of(Some(lts), "train_number"@)),
                train_name: lts_text_of(get_of(Some(lts), "train_name"@)),
                train_start_date: lts_text_of(get_of(Some(lts), "train_start_date"@)),
                at_src: lts_text_of(get_of(Some(lts), "at_src"@)),
                at_dstn: lts_text_of(get_of(Some(lts), "at_dstn"@)),
                at_src_dstn: lts_text_of(get_of(Some(lts), "at_src_dstn"@)),
                next_station_code: lts_text_of(get_of(Some(lts), "next_station_code"@)),
                next_station_name: lts_text_of(get_of(Some(lts), "next_station_name"@)),
                title: lts_text_of(get_of(Some(lts), "title"@)),
                new_message: lts_text_of(get_of(Some(lts), "new_message"@)),
                spent_time: lts_text_of(get_of(Some(lts), "spent_time"@)),
                source_stn_name: lts_text_of(get_of(Some(lts), "source_stn_name"@)),
                dest_stn_name: lts_text_of(get_of(Some(lts), "dest_stn_name"@)),
                platform_number: lts_text_of(get_of(Some(lts), "platform_number"@)),
                stops: live_stops_of(doc),
            },
        ),
    }
}

/// A running field as text.
fn lts_field(v: Option<&Json>) -> (r: Option<String>)
    ensures
        ov(r) == lts_text_of(deref(v)),
{
    match v {
        Some(Json::Str(s)) => Some(s.clone()),
        Some(Json::Number(t)) => Some(t.clone()),
        Some(Json::Bool(b)) => Some(if *b { "true".to_owned() } else { "false".to_owned() }),
        _ => None,
    }
}

/// A live-status stop.
fn live_stop(stop: &Json) -> (r: LiveStop)
    ensures
        r@ == live_stop_of(*stop),
{
    let (code, name) = stop_pair(stop);
    let day = match as_i64(get(Some(stop), "day")) {
        Some(d) => d,
        None => 1,
    };
    LiveStop { code, name, arrival: member_clock(stop, "sta_min"), departure: member_clock(stop, "std_min"), day }
}

/// The stops of the first timetable's route.
fn live_stops(doc: &Json) -> (r: Vec<LiveStop>)
    ensures
        r@.map_values(|t: LiveStop| t@) == live_stops_of(*doc),
{
    let mut out: Vec<LiveStop> = Vec::new();
    let first = match as_array(deep_get(doc, ROUTE_PATH)) {
        Some(a) => if a.len() > 0 {
            Some(&a[0])
        } else {
            None
        },
        None => None,
    };
    let route = match first {
        Some(f) => as_array(get(Some(f), "route")),
        None => None,
    };
    match route {
        Some(rs) => {
            let mut i: usize = 0;
            while i < rs.len()
                invariant
                    0 <= i <= rs@.len(),
                    out@.len() == i,
                    forall|k: int| 0 <= k < i ==> (#[trigger] out@[k])@ == live_stop_of(rs@[k]),
                decreases rs@.len() - i,
            {
                out.push(live_stop(&rs[i]));
                i = i + 1;
            }
            proof {
                assert(out@.map_values(|t: LiveStop| t@) =~= rs@.map_values(|s: Json| live_stop_of(s)));
            }
        },
        None => {
            proof {
                assert(out@.map_values(|t: LiveStop| t@) =~= Seq::<LiveStopV>::empty());
            }
        },
    }
    out
}

/// A train's live status from its RailYatri page; an error where the
/// page's document carries no running fields.
pub fn parse_live_status(html: &str) -> (r: Result<LiveStatus, AppError>)
    ensures
        match r {
            Ok(s) => (next_data_doc(html@) matches Some(doc) && live_status_of(doc) == Some(s@)),
            Err(e) => match next_data_doc(html@) {
                None => next_data_failure(html@, e),
                Some(doc) => live_status_of(doc) is None && (e matches AppError::Internal(m) && m@ == NO_LTS@),
            },
        },
{
    let doc = match extract_next_data(html) {
        Ok(d) => d,
        Err(e) => return Err(e),
    };
    let lts = match deep_get(&doc, LTS_PATH) {
        Some(l) => l,
        None => return Err(AppError::Internal(NO_LTS.to_owned())),
    };
    let r = LiveStatus {
        train_number: lts_field(get(Some(lts), "train_number")),
        train_name: lts_field(get(Some(lts), "train_name")),
        train_start_date: lts_field(get(Some(lts), "train_start_date")),
        at_src: lts_field(get(Some(lts), "at_src")),
        at_dstn: lts_field(get(Some(lts), "at_dstn")),
        at_src_dstn: lts_field(get(Some(lts), "at_src_dstn")),
        next_station_code: lts_field(get(Some(lts), "next_station_code")),
        next_station_name: lts_field(get(Some(lts), "next_station_name")),
        title: lts_field(get(Some(lts), "title")),
        new_message: lts_field(get(Some(lts), "new_message")),
        spent_time: lts_field(get(Some(lts), "spent_time")),
        source_stn_name: lts_field(get(Some(lts), "source_stn_name")),
        dest_stn_name: lts_field(get(Some(lts), "dest_stn_name")),
        platform_number: lts_field(get(Some(lts), "platform_number")),
        stops: live_stops(&doc),
    };
    Ok(r)
}

/// The failure where the PNR answer is no JSON.
pub const PNR_NOT_JSON: &'static str = "Railyatri: get-status response was not JSON";

/// The failure where the PNR answer is JSON but no object.
pub const PNR_NOT_OBJECT: &'static str = "Railyatri: get-status response was not a JSON object";

/// The PNR status answer: the object itself; an error where the body is no
/// JSON or no object.
pub fn parse_pnr_getstatus(body: &str) -> (r: Result<Json, AppError>)
    ensures
        match r {
            Ok(j) => json_parse_of(body@) == Some(j) && is_object_of(Some(j)),
            Err(e) => (e matches AppError::Internal(m) && match json_parse_of(body@) {
                None => m@ == PNR_NOT_JSON@,
                Some(j) => !is_object_of(Some(j)) && m@ == PNR_NOT_OBJECT@,
            }),
        },
{
    match parse_json(body) {
        Ok(v) => {
            if is_object(Some(&v)) {
                Ok(v)
            } else {
                Err(AppError::Internal(PNR_NOT_OBJECT.to_owned()))
            }
        },
        Err(_) => Err(AppError::Internal(PNR_NOT_JSON.to_owned())),
    }
}

} // verus!
