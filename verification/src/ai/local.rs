//! The decisions of the in-process model backend that do not depend on the
//! model itself: how much streamed text is held back while it may still turn
//! into an end marker, which tool a lenient decision line names, and the
//! one-line-per-tool manifest the model is shown.
use vstd::prelude::*;
use crate::fuzzy::{edit_distance, levenshtein};
use crate::json::{as_str, get, get_of, json_parse_of, parse_json, str_of, Json};
use crate::ai::frames::{events_view, AiEvent, AssembledToolCall, EventV};
use crate::text::{
    before_first, chars_eq, first_index_of, chars_of, contains_chars, find_char, has_infix, join_with, lower_chars, lower_seq, push_joined,
    push_str, str_eq, string_of, string_of_range, strings_view, trim, trim_seq,
};

verus! {

/// The ChatML marker that ends a turn.
pub const IM_END: &'static str = "<|im_end|>";

/// The marker some models emit at the end of the text.
pub const END_OF_TEXT: &'static str = "<|endoftext|>";

/// The ChatML marker that opens a turn.
pub const IM_START: &'static str = "<|im_start|>";

/// The last `l` characters of `text` are the first `l` of `marker`, and `l`
/// is short of the whole marker.
pub open spec fn hold_at(text: Seq<char>, marker: Seq<char>, l: int) -> bool {
    1 <= l && l <= text.len() && l < marker.len()
        && text.subrange(text.len() - l, text.len() as int) == marker.subrange(0, l)
}

/// The largest `l` at most `from` with [`hold_at`], or 0.
pub open spec fn hold_from(text: Seq<char>, marker: Seq<char>, from: int) -> int
    decreases from,
{
    if from <= 0 {
        0
    } else if hold_at(text, marker, from) {
        from
    } else {
        hold_from(text, marker, from - 1)
    }
}

/// How many trailing characters of `text` could still be the start of
/// `marker`: the longest suffix of `text` that is a proper prefix of
/// `marker`.
pub open spec fn hold_len_of(text: Seq<char>, marker: Seq<char>) -> int {
    hold_from(text, marker, text.len() as int)
}

proof fn lemma_hold_from(text: Seq<char>, marker: Seq<char>, from: int)
    ensures
        0 <= hold_from(text, marker, from),
        from >= 0 ==> hold_from(text, marker, from) <= from,
        hold_from(text, marker, from) == 0 || hold_at(text, marker, hold_from(text, marker, from)),
        forall|l: int| hold_from(text, marker, from) < l <= from ==> !hold_at(text, marker, l),
    decreases from,
{
    if from > 0 && !hold_at(text, marker, from) {
        lemma_hold_from(text, marker, from - 1);
    }
}

proof fn lemma_hold_skip(text: Seq<char>, marker: Seq<char>, from: int, to: int)
    requires
        0 <= to <= from,
        forall|j: int| to < j <= from ==> !hold_at(text, marker, j),
    ensures
        hold_from(text, marker, from) == hold_from(text, marker, to),
    decreases from - to,
{
    if from > to {
        lemma_hold_skip(text, marker, from - 1, to);
    }
}

/// Whether the last `l` characters of `a` are the first `l` of `b`.
fn suffix_is_prefix(a: &Vec<char>, b: &Vec<char>, l: usize) -> (r: bool)
    requires
        l <= a@.len(),
        l <= b@.len(),
    ensures
        r == (a@.subrange(a@.len() - l, a@.len() as int) == b@.subrange(0, l as int)),
{
    let n = a.len();
    let off = n - l;
    let mut i: usize = 0;
    while i < l
        invariant
            0 <= i <= l,
            n == a@.len(),
            off + l == n,
            l <= a@.len(),
            l <= b@.len(),
            forall|k: int| 0 <= k < i ==> a@[off + k] == b@[k],
        decreases l - i,
    {
        if a[off + i] != b[i] {
            proof {
                assert(a@.subrange(off as int, a@.len() as int)[i as int] != b@.subrange(0, l as int)[i as int]);
            }
            return false;
        }
        i = i + 1;
    }
    proof {
        assert(a@.subrange(off as int, a@.len() as int) =~= b@.subrange(0, l as int));
    }
    true
}

/// Length of the suffix of `text` that is a proper prefix of `marker`; the
/// longest such suffix, 0 where there is none.
pub fn marker_hold_len(text: &str, marker: &str) -> (r: usize)
    ensures
        r == hold_len_of(text@, marker@),
        r == 0 || hold_at(text@, marker@, r as int),
        forall|l: int| r < l ==> !hold_at(text@, marker@, l),
{
    let chars = chars_of(text);
    let mchars = chars_of(marker);
    let mut max: usize = if mchars.len() == 0 { 0 } else { mchars.len() - 1 };
    if chars.len() < max {
        max = chars.len();
    }
    proof {
        lemma_hold_from(text@, marker@, text@.len() as int);
        assert forall|k: int| max < k <= text@.len() implies !hold_at(text@, marker@, k) by {}
        lemma_hold_skip(text@, marker@, text@.len() as int, max as int);
    }
    let mut l: usize = max;
    while l >= 1
        invariant
            0 <= l <= max,
            max <= chars@.len(),
            chars@ == text@,
            mchars@ == marker@,
            max == 0 || max < mchars@.len(),
            hold_len_of(text@, marker@) == hold_from(text@, marker@, l as int),
        decreases l,
    {
        if suffix_is_prefix(&chars, &mchars, l) {
            proof {
                assert(hold_at(text@, marker@, l as int));
                lemma_hold_from(text@, marker@, text@.len() as int);
            }
            return l;
        }
        l = l - 1;
    }
    proof {
        lemma_hold_from(text@, marker@, text@.len() as int);
    }
    0
}

/// Generated text that contains a turn marker ends the stream there.
pub open spec fn stops_on(g: Seq<char>) -> bool {
    has_infix(g, IM_START@) || has_infix(g, IM_END@) || has_infix(g, END_OF_TEXT@)
}

/// How many leading characters of `g` are safe to send: all but the longest
/// tail that could still grow into an end marker.
pub open spec fn safe_len_of(g: Seq<char>) -> int {
    let h1 = hold_len_of(g, IM_END@);
    let h2 = hold_len_of(g, END_OF_TEXT@);
    g.len() - (if h1 >= h2 { h1 } else { h2 })
}

/// What to do with the text generated so far.
pub enum StreamCut {
    /// A marker appeared: stop generating and send nothing more.
    Stop,
    /// Nothing new is safe to send yet.
    Hold,
    /// Send `delta`; `sent_chars` characters have then been sent in all.
    Emit { delta: String, sent_chars: usize },
}

/// The next step of streamed generation, given the whole text decoded so far
/// and how many of its characters were already sent.
pub fn stream_cut(gen_text: &str, sent_chars: usize) -> (r: StreamCut)
    ensures
        match r {
            StreamCut::Stop => stops_on(gen_text@),
            StreamCut::Hold => !stops_on(gen_text@) && safe_len_of(gen_text@) <= sent_chars,
            StreamCut::Emit { delta, sent_chars: s } => {
                &&& !stops_on(gen_text@)
                &&& sent_chars < safe_len_of(gen_text@)
                &&& s == safe_len_of(gen_text@)
                &&& delta@ == gen_text@.subrange(sent_chars as int, s as int)
            },
        },
{
    let g = chars_of(gen_text);
    let start = chars_of(IM_START);
    let end = chars_of(IM_END);
    let eot = chars_of(END_OF_TEXT);
    if contains_chars(&g, &start) || contains_chars(&g, &end) || contains_chars(&g, &eot) {
        return StreamCut::Stop;
    }
    let h1 = marker_hold_len(gen_text, IM_END);
    let h2 = marker_hold_len(gen_text, END_OF_TEXT);
    let hold = if h1 >= h2 { h1 } else { h2 };
    proof {
        lemma_hold_from(gen_text@, IM_END@, gen_text@.len() as int);
        lemma_hold_from(gen_text@, END_OF_TEXT@, gen_text@.len() as int);
    }
    let safe = g.len() - hold;
    if safe > sent_chars {
        let delta = string_of_range(&g, sent_chars, safe);
        StreamCut::Emit { delta, sent_chars: safe }
    } else {
        StreamCut::Hold
    }
}

/// What is left to send once generation ended without a marker: the
/// characters after the first `sent_chars`, where there are any.
pub fn stream_tail(gen_text: &str, sent_chars: usize) -> (r: Option<String>)
    ensures
        match r {
            Some(t) => sent_chars < gen_text@.len() && t@ == gen_text@.subrange(sent_chars as int, gen_text@.len() as int),
            None => gen_text@.len() <= sent_chars,
        },
{
    let g = chars_of(gen_text);
    if g.len() > sent_chars {
        Some(string_of_range(&g, sent_chars, g.len()))
    } else {
        None
    }
}

/// The name of a tool envelope: its `function.name`, where that is a text.
pub open spec fn tool_name_of(t: Json) -> Option<Seq<char>> {
    str_of(get_of(get_of(Some(t), "function"@), "name"@))
}

/// The exact pass from `i` on: the first tool that has no name (the search
/// gives up: `Some(None)`) or is named `name` (`Some(Some(i))`); `None` once
/// every tool was looked at.
pub open spec fn exact_scan(tools: Seq<Json>, name: Seq<char>, i: int) -> Option<Option<int>>
    decreases tools.len() - i,
{
    if i >= tools.len() {
        None
    } else {
        match tool_name_of(tools[i]) {
            None => Some(None),
            Some(n) => if n == name { Some(Some(i)) } else { exact_scan(tools, name, i + 1) },
        }
    }
}

/// The first tool from `i` on whose name equals `name` ignoring ASCII case.
pub open spec fn caseless_scan(tools: Seq<Json>, name: Seq<char>, i: int) -> Option<int>
    decreases tools.len() - i,
{
    if i >= tools.len() {
        None
    } else {
        match tool_name_of(tools[i]) {
            Some(n) => if lower_seq(n) == lower_seq(name) { Some(i) } else { caseless_scan(tools, name, i + 1) },
            None => caseless_scan(tools, name, i + 1),
        }
    }
}

/// The edit distance between two lower-cased names, where it is at most 2
/// (and the two lengths add up to less than `usize::MAX`).
pub open spec fn near_of(lname: Seq<char>, n: Seq<char>) -> Option<nat> {
    let ln = lower_seq(n);
    if lname.len() + ln.len() < usize::MAX && edit_distance(lname, ln) <= 2 {
        Some(edit_distance(lname, ln))
    } else {
        None
    }
}

/// The fuzzy pass from `i` on with the best candidate so far: the first tool
/// at the smallest distance of at most 2 from `lname`.
pub open spec fn fuzzy_scan(tools: Seq<Json>, lname: Seq<char>, i: int, best: Option<(int, nat)>) -> Option<int>
    decreases tools.len() - i,
{
    if i >= tools.len() {
        match best {
            Some(b) => Some(b.0),
            None => None,
        }
    } else {
        let next = match tool_name_of(tools[i]) {
            Some(n) => match near_of(lname, n) {
                Some(d) => match best {
                    Some(b) => if d < b.1 { Some((i, d)) } else { best },
                    None => Some((i, d)),
                },
                None => best,
            },
            None => best,
        };
        fuzzy_scan(tools, lname, i + 1, next)
    }
}

/// The tool a decision line names: exactly, else ignoring ASCII case, else
/// the closest within edit distance 2 (first on ties). A tool without a
/// name met before an exact match ends the search with nothing.
pub open spec fn find_tool_of(tools: Seq<Json>, name: Seq<char>) -> Option<int> {
    match exact_scan(tools, name, 0) {
        Some(found) => found,
        None => match caseless_scan(tools, name, 0) {
            Some(i) => Some(i),
            None => fuzzy_scan(tools, lower_seq(name), 0, None),
        },
    }
}

/// The name of the tool envelope `t`.
pub fn tool_name<'a>(t: &'a Json) -> (r: Option<&'a str>)
    ensures
        match r {
            Some(s) => tool_name_of(*t) == Some(s@),
            None => tool_name_of(*t) is None,
        },
{
    as_str(get(get(Some(t), "function"), "name"))
}

proof fn lemma_exact_scan_named(tools: Seq<Json>, name: Seq<char>, i: int)
    requires
        0 <= i,
        exact_scan(tools, name, i) is None,
    ensures
        forall|j: int| i <= j < tools.len() ==> tool_name_of(tools[j]) is Some,
    decreases tools.len() - i,
{
    if i < tools.len() {
        lemma_exact_scan_named(tools, name, i + 1);
    }
}

/// The index of the tool `name` picks among `tools`.
pub fn find_tool(tools: &[Json], name: &str) -> (r: Option<usize>)
    ensures
        match r {
            Some(i) => find_tool_of(tools@, name@) == Some(i as int),
            None => find_tool_of(tools@, name@) is None,
        },
{
    let mut i: usize = 0;
    while i < tools.len()
        invariant
            0 <= i <= tools@.len(),
            exact_scan(tools@, name@, 0) == exact_scan(tools@, name@, i as int),
        decreases tools@.len() - i,
    {
        match tool_name(&tools[i]) {
            None => return None,
            Some(n) => {
                if str_eq(n, name) {
                    return Some(i);
                }
            },
        }
        i = i + 1;
    }
    proof {
        lemma_exact_scan_named(tools@, name@, 0);
    }
    let lower = lower_chars(chars_of(name).as_slice());
    let mut i: usize = 0;
    while i < tools.len()
        invariant
            0 <= i <= tools@.len(),
            exact_scan(tools@, name@, 0) is None,
            forall|j: int| 0 <= j < tools@.len() ==> tool_name_of(tools@[j]) is Some,
            lower@ == lower_seq(name@),
            caseless_scan(tools@, name@, 0) == caseless_scan(tools@, name@, i as int),
        decreases tools@.len() - i,
    {
        match tool_name(&tools[i]) {
            None => {
                proof {
                    assert(tool_name_of(tools@[i as int]) is Some);
                }
                return None;
            },
            Some(n) => {
                let ln = lower_chars(chars_of(n).as_slice());
                if chars_eq(ln.as_slice(), lower.as_slice()) {
                    return Some(i);
                }
            },
        }
        i = i + 1;
    }
    let lower_text = string_of(lower.as_slice());
    let mut best: Option<(usize, usize)> = None;
    let mut i: usize = 0;
    while i < tools.len()
        invariant
            0 <= i <= tools@.len(),
            exact_scan(tools@, name@, 0) is None,
            caseless_scan(tools@, name@, 0) is None,
            forall|j: int| 0 <= j < tools@.len() ==> tool_name_of(tools@[j]) is Some,
            lower_text@ == lower_seq(name@),
            fuzzy_scan(tools@, lower_seq(name@), 0, None) == fuzzy_scan(
                tools@,
                lower_seq(name@),
                i as int,
                match best {
                    Some(b) => Some((b.0 as int, b.1 as nat)),
                    None => None,
                },
            ),
            match best {
                Some(b) => b.0 < i,
                None => true,
            },
        decreases tools@.len() - i,
    {
        match tool_name(&tools[i]) {
            None => {},
            Some(n) => {
                let ln = string_of(lower_chars(chars_of(n).as_slice()).as_slice());
                let a = lower_text.as_str();
                let b = ln.as_str();
                let la = chars_of(a).len();
                let lb = chars_of(b).len();
                if la < usize::MAX - lb {
                    let d = levenshtein(a, b);
                    if d <= 2 {
                        match best {
                            Some(bb) => {
                                if d < bb.1 {
                                    best = Some((i, d));
                                }
                            },
                            None => {
                                best = Some((i, d));
                            },
                        }
                    }
                }
            },
        }
        i = i + 1;
    }
    match best {
        Some(b) => Some(b.0),
        None => None,
    }
}

/// The texts among `vs`, in order; other values are skipped.
pub open spec fn texts_in(vs: Seq<Json>) -> Seq<Seq<char>>
    decreases vs.len(),
{
    if vs.len() == 0 {
        Seq::empty()
    } else {
        let rest = texts_in(vs.drop_last());
        match vs.last() {
            Json::Str(t) => rest.push(t@),
            _ => rest,
        }
    }
}

/// The text of `v`, or the empty text where `v` is none.
pub open spec fn text_or_empty(v: Option<Json>) -> Seq<char> {
    match str_of(v) {
        Some(t) => t,
        None => Seq::empty(),
    }
}

/// The parameter names a tool lists as required.
pub open spec fn required_of(params: Option<Json>) -> Seq<Seq<char>> {
    match get_of(params, "required"@) {
        Some(Json::Array(a)) => texts_in(a@),
        _ => Seq::empty(),
    }
}

/// The parameter names of a tool, in the order of its `properties` object.
pub open spec fn prop_names_of(params: Option<Json>) -> Seq<Seq<char>> {
    match get_of(params, "properties"@) {
        Some(Json::Object(fs)) => fs@.map_values(|m: (String, Json)| m.0@),
        _ => Seq::empty(),
    }
}

/// A parameter as the manifest shows it: bare where required, in brackets
/// where optional.
pub open spec fn param_label(k: Seq<char>, required: Seq<Seq<char>>) -> Seq<char> {
    if required.contains(k) { k } else { "["@ + k + "]"@ }
}

/// The manifest line of one tool envelope:
/// `- NAME(PARAMS): FIRST SENTENCE OF THE DESCRIPTION`.
pub open spec fn manifest_line_of(t: Json) -> Seq<char> {
    let f = get_of(Some(t), "function"@);
    let params = get_of(f, "parameters"@);
    let req = required_of(params);
    let labels = prop_names_of(params).map_values(|k: Seq<char>| param_label(k, req));
    "- "@ + text_or_empty(get_of(f, "name"@)) + "("@ + join_with(labels, ", "@) + "): "@
        + trim_seq(before_first(text_or_empty(get_of(f, "description"@)), '.'))
}

/// The manifest shown to the model: a heading, then one line per tool.
pub open spec fn compact_manifest_of(tools: Seq<Json>) -> Seq<char> {
    join_with(seq!["AVAILABLE TOOLS:"@] + tools.map_values(|t: Json| manifest_line_of(t)), "\n"@)
}

fn texts_of(a: &Vec<Json>) -> (r: Vec<String>)
    ensures
        strings_view(r@) == texts_in(a@),
{
    let mut out: Vec<String> = Vec::new();
    let mut i: usize = 0;
    while i < a.len()
        invariant
            0 <= i <= a@.len(),
            strings_view(out@) == texts_in(a@.take(i as int)),
        decreases a@.len() - i,
    {
        proof {
            assert(a@.take(i + 1).drop_last() =~= a@.take(i as int));
        }
        match &a[i] {
            Json::Str(t) => {
                out.push(t.clone());
                proof {
                    assert(strings_view(out@) =~= strings_view(out@.drop_last()).push(t@));
                }
            },
            _ => {},
        }
        i = i + 1;
    }
    proof {
        assert(a@.take(a@.len() as int) =~= a@);
    }
    out
}

fn text_of_or_empty<'a>(v: Option<&'a Json>) -> (r: &'a str)
    ensures
        r@ == text_or_empty(crate::json::deref(v)),
{
    match as_str(v) {
        Some(t) => t,
        None => {
            proof {
                reveal_strlit("");
            }
            ""
        },
    }
}

fn param_label_text(k: &str, required: &Vec<String>) -> (r: String)
    ensures
        r@ == param_label(k@, strings_view(required@)),
{
    let mut i: usize = 0;
    while i < required.len()
        invariant
            0 <= i <= required@.len(),
            forall|j: int| 0 <= j < i ==> required@[j]@ != k@,
        decreases required@.len() - i,
    {
        if str_eq(required[i].as_str(), k) {
            proof {
                assert(strings_view(required@)[i as int] == k@);
            }
            return k.to_string();
        }
        i = i + 1;
    }
    proof {
        assert(!strings_view(required@).contains(k@));
    }
    let mut out: Vec<char> = Vec::new();
    push_str(&mut out, "[");
    push_str(&mut out, k);
    push_str(&mut out, "]");
    string_of(out.as_slice())
}

/// The manifest line of the tool envelope `t`.
fn manifest_line(t: &Json) -> (r: String)
    ensures
        r@ == manifest_line_of(*t),
{
    let f = get(Some(t), "function");
    let params = get(f, "parameters");
    let required: Vec<String> = match get(params, "required") {
        Some(Json::Array(a)) => texts_of(a),
        _ => Vec::new(),
    };
    let mut labels: Vec<String> = Vec::new();
    let ghost names = prop_names_of(crate::json::deref(params));
    match get(params, "properties") {
        Some(Json::Object(fs)) => {
            let mut i: usize = 0;
            while i < fs.len()
                invariant
                    0 <= i <= fs@.len(),
                    names == fs@.map_values(|m: (String, Json)| m.0@),
                    strings_view(required@) == required_of(crate::json::deref(params)),
                    strings_view(labels@) == names.take(i as int).map_values(
                        |k: Seq<char>| param_label(k, required_of(crate::json::deref(params))),
                    ),
                decreases fs@.len() - i,
            {
                let l = param_label_text(fs[i].0.as_str(), &required);
                let ghost before = labels@;
                labels.push(l);
                proof {
                    let g = |k: Seq<char>| param_label(k, required_of(crate::json::deref(params)));
                    assert(strings_view(labels@) =~= strings_view(before).push(l@));
                    assert(names[i as int] == fs@[i as int].0@);
                    assert(names.take(i + 1).map_values(g) =~= names.take(i as int).map_values(g).push(g(names[i as int])));
                    assert(strings_view(labels@) =~= names.take(i + 1).map_values(
                        |k: Seq<char>| param_label(k, required_of(crate::json::deref(params))),
                    ));
                }
                i = i + 1;
            }
            proof {
                assert(names.take(fs@.len() as int) =~= names);
            }
        },
        _ => {
            proof {
                assert(strings_view(labels@) =~= names.map_values(
                    |k: Seq<char>| param_label(k, required_of(crate::json::deref(params))),
                ));
            }
        },
    }
    let desc = chars_of(text_of_or_empty(get(f, "description")));
    let first = match find_char(desc.as_slice(), '.') {
        Some(i) => string_of_range(desc.as_slice(), 0, i),
        None => string_of(desc.as_slice()),
    };
    let mut out: Vec<char> = Vec::new();
    push_str(&mut out, "- ");
    push_str(&mut out, text_of_or_empty(get(f, "name")));
    push_str(&mut out, "(");
    push_joined(&mut out, labels.as_slice(), ", ");
    push_str(&mut out, "): ");
    push_str(&mut out, trim(first.as_str()));
    string_of(out.as_slice())
}

/// The tool manifest shown to the model: `AVAILABLE TOOLS:`, then one line
/// per tool envelope, `- NAME(PARAMS): SUMMARY`, where required parameters
/// stand bare and optional ones in brackets, and the summary is the
/// description up to its first `.`, trimmed.
pub fn compact_manifest(tools: &[Json]) -> (r: String)
    ensures
        r@ == compact_manifest_of(tools@),
{
    let mut lines: Vec<String> = Vec::new();
    lines.push("AVAILABLE TOOLS:".to_string());
    let ghost head: Seq<Seq<char>> = seq!["AVAILABLE TOOLS:"@];
    let mut i: usize = 0;
    while i < tools.len()
        invariant
            0 <= i <= tools@.len(),
            strings_view(lines@) == head + tools@.take(i as int).map_values(|t: Json| manifest_line_of(t)),
        decreases tools@.len() - i,
    {
        let l = manifest_line(&tools[i]);
        let ghost before = lines@;
        lines.push(l);
        proof {
            let g = |t: Json| manifest_line_of(t);
            assert(strings_view(lines@) =~= strings_view(before).push(l@));
            assert(tools@.take(i + 1).map_values(g) =~= tools@.take(i as int).map_values(g).push(g(tools@[i as int])));
            assert(strings_view(lines@) =~= head + tools@.take(i + 1).map_values(|t: Json| manifest_line_of(t)));
        }
        i = i + 1;
    }
    proof {
        assert(tools@.take(tools@.len() as int) =~= tools@);
    }
    let mut out: Vec<char> = Vec::new();
    push_joined(&mut out, lines.as_slice(), "\n");
    string_of(out.as_slice())
}

/// The index of the last `c` in `s`.
pub open spec fn last_index_of(s: Seq<char>, c: char) -> Option<int>
    decreases s.len(),
{
    if s.len() == 0 {
        None
    } else if s.last() == c {
        Some(s.len() - 1)
    } else {
        last_index_of(s.drop_last(), c)
    }
}

fn rfind_char(v: &Vec<char>, c: char) -> (r: Option<usize>)
    ensures
        match r {
            Some(i) => last_index_of(v@, c) == Some(i as int) && i < v@.len(),
            None => last_index_of(v@, c) is None,
        },
{
    let mut k: usize = v.len();
    proof {
        assert(v@.take(k as int) =~= v@);
    }
    while k > 0
        invariant
            0 <= k <= v@.len(),
            last_index_of(v@, c) == last_index_of(v@.take(k as int), c),
        decreases k,
    {
        if v[k - 1] == c {
            return Some(k - 1);
        }
        proof {
            assert(v@.take(k as int).drop_last() =~= v@.take(k - 1));
        }
        k = k - 1;
    }
    None
}

/// Where the model's decision stands after its reply was read.
pub enum Decision {
    /// Execute this tool with these normalized JSON arguments.
    Call(String, String),
    /// Go on to write the answer in prose.
    Answer,
    /// The reply was unusable, for the reason given.
    Invalid(String),
}

/// A decision reply read as far as it can be without the arguments.
pub enum Draft {
    /// The reply settles the decision.
    Settled(Decision),
    /// The reply names the tool at index `tool`; `doc` is the JSON object it
    /// wrote, whose `args` are still to be checked against the tool.
    Pick { tool: usize, doc: Json },
}

/// The span of a reply from its first `{` to its last `}`, both included.
pub open spec fn object_span(t: Seq<char>) -> Option<Seq<char>> {
    match (first_index_of(t, '{'), last_index_of(t, '}')) {
        (Some(a), Some(b)) => if b < a { None } else { Some(t.subrange(a, b + 1)) },
        _ => None,
    }
}

/// The tool names that mean "answer now".
pub open spec fn answer_word(n: Seq<char>) -> bool {
    n == "none"@ || n == "answer"@ || n.len() == 0
}

/// The `tool` member of a decision object, where it is a text.
pub open spec fn tool_word(v: Json) -> Option<Seq<char>> {
    str_of(get_of(Some(v), "tool"@))
}

/// The JSON object a trimmed reply holds between its first `{` and its last
/// `}`.
pub open spec fn doc_of(t: Seq<char>) -> Option<Json> {
    match object_span(t) {
        Some(span) => json_parse_of(span),
        None => None,
    }
}

/// Both braces are there, but the last `}` comes before the first `{`.
pub open spec fn braces_inverted(t: Seq<char>) -> bool {
    match (first_index_of(t, '{'), last_index_of(t, '}')) {
        (Some(a), Some(b)) => b < a,
        _ => false,
    }
}

/// The span between the braces is there but is no JSON.
pub open spec fn span_unparsable(t: Seq<char>) -> bool {
    match object_span(t) {
        Some(span) => json_parse_of(span) is None,
        None => false,
    }
}

/// A decision object that asks to answer: it has an `answer` member, or its
/// `tool` is `none`, `answer` or empty.
pub open spec fn says_answer(v: Json) -> bool {
    get_of(Some(v), "answer"@) is Some || match tool_word(v) {
        Some(n) => answer_word(n),
        None => false,
    }
}

/// A decision object that names the tool at index `tool` of `tools`.
pub open spec fn draft_doc_of(v: Json, tools: Seq<Json>, tool: int) -> bool {
    !says_answer(v) && match tool_word(v) {
        Some(n) => find_tool_of(tools, n) == Some(tool),
        None => false,
    }
}

/// A decision object that is refused with the reason `m`: it has no `tool`
/// text, or names no known tool.
pub open spec fn doc_refused(v: Json, tools: Seq<Json>, m: Seq<char>) -> bool {
    !says_answer(v) && match tool_word(v) {
        None => m == "missing 'tool' key"@,
        Some(n) => find_tool_of(tools, n) is None && m == "unknown tool '"@ + n + "'"@,
    }
}

/// Read the decision line `raw`: the JSON object between its first `{` and
/// its last `}` (after trimming), then its `answer` or `tool` member.
pub fn read_decision(raw: &str, tools: &[Json]) -> (r: Draft)
    ensures
        match r {
            Draft::Pick { tool, doc } => doc_of(trim_seq(raw@)) == Some(doc) && draft_doc_of(doc, tools@, tool as int),
            Draft::Settled(Decision::Call(_, _)) => false,
            Draft::Settled(Decision::Answer) => match doc_of(trim_seq(raw@)) {
                Some(v) => says_answer(v),
                None => false,
            },
            Draft::Settled(Decision::Invalid(m)) => {
                let t = trim_seq(raw@);
                ||| first_index_of(t, '{') is None && m@ == "no JSON object found"@
                ||| first_index_of(t, '{') is Some && last_index_of(t, '}') is None && m@ == "JSON object not closed"@
                ||| braces_inverted(t) && m@ == "malformed JSON"@
                ||| span_unparsable(t) && "unparsable JSON: "@.is_prefix_of(m@)
                ||| match doc_of(t) {
                    Some(v) => doc_refused(v, tools@, m@),
                    None => false,
                }
            },
        },
{
    let trimmed = chars_of(trim(raw));
    let start = match find_char(trimmed.as_slice(), '{') {
        Some(a) => a,
        None => return Draft::Settled(Decision::Invalid("no JSON object found".to_string())),
    };
    let end = match rfind_char(&trimmed, '}') {
        Some(b) => b,
        None => return Draft::Settled(Decision::Invalid("JSON object not closed".to_string())),
    };
    if end < start {
        return Draft::Settled(Decision::Invalid("malformed JSON".to_string()));
    }
    let n = trimmed.len();
    let span = string_of_range(trimmed.as_slice(), start, end + 1);
    proof {
        assert(object_span(trim_seq(raw@)) == Some(span@));
    }
    let v = match parse_json(span.as_str()) {
        Ok(v) => v,
        Err(e) => {
            let mut m: Vec<char> = Vec::new();
            push_str(&mut m, "unparsable JSON: ");
            push_str(&mut m, e.as_str());
            let ghost mv = m@;
            proof {
                assert("unparsable JSON: "@.is_prefix_of(mv)) by {
                    assert(mv.subrange(0, "unparsable JSON: "@.len() as int) =~= "unparsable JSON: "@);
                }
            }
            return Draft::Settled(Decision::Invalid(string_of(m.as_slice())));
        },
    };
    if get(Some(&v), "answer").is_some() {
        return Draft::Settled(Decision::Answer);
    }
    let name = match as_str(get(Some(&v), "tool")) {
        Some(n) => n,
        None => return Draft::Settled(Decision::Invalid("missing 'tool' key".to_string())),
    };
    if str_eq(name, "none") || str_eq(name, "answer") || str_eq(name, "") {
        proof {
            reveal_strlit("");
        }
        return Draft::Settled(Decision::Answer);
    }
    proof {
        reveal_strlit("");
    }
    match find_tool(tools, name) {
        Some(i) => {
            proof {
                assert(doc_of(trim_seq(raw@)) == Some(v));
                if name@.len() == 0 {
                    assert(name@ =~= ""@);
                }
                assert(!answer_word(name@));
                assert(!says_answer(v));
            }
            Draft::Pick { tool: i, doc: v }
        },
        None => {
            let mut m: Vec<char> = Vec::new();
            push_str(&mut m, "unknown tool '");
            push_str(&mut m, name);
            push_str(&mut m, "'");
            Draft::Settled(Decision::Invalid(string_of(m.as_slice())))
        },
    }
}

/// The decision once the picked tool's arguments were normalized: the call
/// with them, or refused where they did not fit the tool.
pub fn settle_call(name: &str, normalized: Option<String>) -> (r: Decision)
    ensures
        normalized is Some ==> (r matches Decision::Call(n, a) && n@ == name@ && a@ == normalized.unwrap()@),
        normalized is None ==> (r matches Decision::Invalid(m) && m@ == "bad args for tool '"@ + name@ + "'"@),
{
    match normalized {
        Some(a) => Decision::Call(name.to_string(), a),
        None => {
            let mut m: Vec<char> = Vec::new();
            push_str(&mut m, "bad args for tool '");
            push_str(&mut m, name);
            push_str(&mut m, "'");
            Decision::Invalid(string_of(m.as_slice()))
        },
    }
}

/// The corrective message sent after an unusable first reply.
pub open spec fn corrective_of(reason: Seq<char>) -> Seq<char> {
    "[CHECK] Your previous reply was invalid ("@ + reason
        + "). Reply again with exactly one JSON line: {\"tool\":\"NAME\",\"args\":{...}} or {\"answer\":true} - nothing else."@
}

/// What follows the first decision reply.
pub enum RetryPlan {
    /// The reply settled the decision.
    Accept(Decision),
    /// Ask once more, adding this user message.
    Retry(String),
}

/// After the first reply: a usable decision stands; an unusable one is asked
/// again with a corrective message that quotes the reason.
pub fn after_first_reply(d: Decision) -> (r: RetryPlan)
    ensures
        match d {
            Decision::Invalid(reason) => r matches RetryPlan::Retry(c) && c@ == corrective_of(reason@),
            _ => r == RetryPlan::Accept(d),
        },
{
    match d {
        Decision::Invalid(reason) => {
            let mut c: Vec<char> = Vec::new();
            push_str(&mut c, "[CHECK] Your previous reply was invalid (");
            push_str(&mut c, reason.as_str());
            push_str(
                &mut c,
                "). Reply again with exactly one JSON line: {\"tool\":\"NAME\",\"args\":{...}} or {\"answer\":true} - nothing else.",
            );
            RetryPlan::Retry(string_of(c.as_slice()))
        },
        other => RetryPlan::Accept(other),
    }
}

/// After the corrective retry: an unusable reply gives way to answering in
/// prose.
pub fn after_second_reply(d: Decision) -> (r: Decision)
    ensures
        d is Invalid ==> r is Answer,
        !(d is Invalid) ==> r == d,
{
    match d {
        Decision::Invalid(_) => Decision::Answer,
        other => other,
    }
}

/// The events of a round that decided on a tool: the one call, with id
/// `call_0`, then the end of the round with no token counts.
pub fn call_events(name: String, args: String) -> (r: Vec<AiEvent>)
    ensures
        events_view(r@) == seq![EventV::ToolCalls(seq![("call_0"@, name@, args@)]), EventV::Done(0, 0)],
{
    let call = AssembledToolCall { id: "call_0".to_string(), name, arguments: args };
    let mut calls: Vec<AssembledToolCall> = Vec::new();
    calls.push(call);
    let mut out: Vec<AiEvent> = Vec::new();
    out.push(AiEvent::ToolCalls(calls));
    out.push(AiEvent::Done { prompt_tokens: 0, completion_tokens: 0 });
    proof {
        assert(calls@.map_values(|t: AssembledToolCall| t@) =~= seq![("call_0"@, name@, args@)]);
        assert(events_view(out@) =~= seq![EventV::ToolCalls(seq![("call_0"@, name@, args@)]), EventV::Done(0, 0)]);
    }
    out
}

} // verus!
