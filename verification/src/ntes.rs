//! Reading the NTES web pages: the session's CSRF token and the small text
//! fields of the running-status popup. Patterns are matched by the `regex`
//! crate; what is read out of the matches is this module's own logic.
use vstd::prelude::*;
use regex::Regex;

pub mod boards;
pub mod maps;
pub mod mobile;
pub mod session;
pub mod status;
use crate::text::{
    chars_of, chars_range, contains_chars, decimal, find_from, has_infix, lemma_occurrence_from, lower_chars,
    lower_seq, occurrence_from, parse_unsigned, parsed_unsigned, push_decimal, push_str, push_trimmed_end,
    push_two_digits, split_on, split_str, string_of, string_views, trim, trim_end_char, trim_seq, two_digits,
};

verus! {

#[verifier::external_type_specification]
#[verifier::external_body]
pub struct ExRegex(Regex);

/// A compiled regular expression and the pattern it was compiled from.
pub struct Pattern {
    re: Regex,
    source: String,
}

impl View for Pattern {
    type V = Seq<char>;

    closed spec fn view(&self) -> Seq<char> {
        self.source@
    }
}

/// Whether `Regex::new` accepts `pattern`.
pub uninterp spec fn regex_valid(pattern: Seq<char>) -> bool;

/// The text of capture group `group` in the leftmost-first match of
/// `pattern` in `text` (`Regex::captures(text)?.get(group)`), `None` where
/// nothing matches or the group took no part.
pub uninterp spec fn regex_group_of(pattern: Seq<char>, text: Seq<char>, group: usize) -> Option<Seq<char>>;

/// An optional text as a plain value.
pub open spec fn opt_view(o: Option<String>) -> Option<Seq<char>> {
    match o {
        Some(s) => Some(s@),
        None => None,
    }
}

/// `Regex::new(pattern)`: the compiled pattern, `None` where the regex
/// crate rejects it. Which patterns it accepts is named, not described.
#[verifier::external_body]
fn compile(pattern: &str) -> (r: Option<Pattern>)
    ensures
        r is Some <==> regex_valid(pattern@),
        r matches Some(p) ==> p@ == pattern@,
{
    match Regex::new(pattern) {
        Ok(re) => Some(Pattern { re, source: pattern.to_owned() }),
        Err(_) => None,
    }
}

/// Whether the regex crate accepts `pattern`.
pub(crate) fn pattern_compiles(pattern: &str) -> (r: bool)
    ensures
        r == regex_valid(pattern@),
{
    compile(pattern).is_some()
}

/// `Regex::captures(text)` and the text of group `group` of that match.
#[verifier::external_body]
fn capture(p: &Pattern, text: &str, group: usize) -> (r: Option<String>)
    ensures
        opt_view(r) == regex_group_of(p@, text@, group),
{
    p.re.captures(text).and_then(|c| c.get(group)).map(|m| m.as_str().to_owned())
}

/// Group `group` of the first match of `pattern` in `text`; nothing where
/// the pattern does not compile.
pub fn group_of(pattern: &str, text: &str, group: usize) -> (r: Option<String>)
    ensures
        regex_valid(pattern@) ==> opt_view(r) == regex_group_of(pattern@, text@, group),
        !regex_valid(pattern@) ==> r is None,
{
    match compile(pattern) {
        Some(p) => capture(&p, text, group),
        None => None,
    }
}

/// The text of capture group `group` in each successive non-overlapping
/// match of `pattern` in `text` (`Regex::captures_iter(text)`, each match's
/// `.get(group)`), in order.
pub uninterp spec fn regex_groups_of(pattern: Seq<char>, text: Seq<char>, group: usize) -> Seq<Option<Seq<char>>>;

/// Optional texts as plain values.
pub open spec fn opt_views(v: Seq<Option<String>>) -> Seq<Option<Seq<char>>> {
    v.map_values(|o: Option<String>| opt_view(o))
}

/// `Regex::captures_iter(text)` and the text of group `group` of each match.
#[verifier::external_body]
fn capture_all(p: &Pattern, text: &str, group: usize) -> (r: Vec<Option<String>>)
    ensures
        opt_views(r@) == regex_groups_of(p@, text@, group),
{
    p.re.captures_iter(text).map(|c| c.get(group).map(|m| m.as_str().to_owned())).collect()
}

/// Group `group` of every match of `pattern` in `text`; nothing where the
/// pattern does not compile.
pub fn groups_of(pattern: &str, text: &str, group: usize) -> (r: Vec<Option<String>>)
    ensures
        regex_valid(pattern@) ==> opt_views(r@) == regex_groups_of(pattern@, text@, group),
        !regex_valid(pattern@) ==> r@.len() == 0,
{
    match compile(pattern) {
        Some(p) => capture_all(&p, text, group),
        None => Vec::new(),
    }
}

/// `Regex::replace_all(text, with)`: `text` with every non-overlapping match
/// of `pattern` replaced by `with`.
pub uninterp spec fn regex_replaced_of(pattern: Seq<char>, text: Seq<char>, with: Seq<char>) -> Seq<char>;

/// `Regex::replace_all(text, with)`, as an owned string.
#[verifier::external_body]
fn replace_every(p: &Pattern, text: &str, with: &str) -> (r: String)
    ensures
        r@ == regex_replaced_of(p@, text@, with@),
{
    p.re.replace_all(text, with).into_owned()
}

/// `text` with every match of `pattern` replaced by `with`; `text` itself
/// where the pattern does not compile.
pub fn replace_matches(pattern: &str, text: &str, with: &str) -> (r: String)
    ensures
        regex_valid(pattern@) ==> r@ == regex_replaced_of(pattern@, text@, with@),
        !regex_valid(pattern@) ==> r@ == text@,
{
    match compile(pattern) {
        Some(p) => replace_every(&p, text, with),
        None => text.to_owned(),
    }
}

/// `Regex::split(text)`: the pieces of `text` around the matches of
/// `pattern`, in order.
pub uninterp spec fn regex_split_of(pattern: Seq<char>, text: Seq<char>) -> Seq<Seq<char>>;

/// `Regex::split(text)`, each piece as an owned string.
#[verifier::external_body]
fn split_at_matches(p: &Pattern, text: &str) -> (r: Vec<String>)
    ensures
        string_views(r@) == regex_split_of(p@, text@),
{
    p.re.split(text).map(|s| s.to_owned()).collect()
}

/// The pieces of `text` around the matches of `pattern`; nothing where the
/// pattern does not compile.
pub fn split_by(pattern: &str, text: &str) -> (r: Vec<String>)
    ensures
        regex_valid(pattern@) ==> string_views(r@) == regex_split_of(pattern@, text@),
        !regex_valid(pattern@) ==> r@.len() == 0,
{
    match compile(pattern) {
        Some(p) => split_at_matches(&p, text),
        None => Vec::new(),
    }
}

/// `Regex::splitn(text, limit)`: at most `limit` pieces of `text`, cut at
/// the leftmost matches of `pattern`, the last piece holding the rest.
pub uninterp spec fn regex_splitn_of(pattern: Seq<char>, text: Seq<char>, limit: usize) -> Seq<Seq<char>>;

/// `Regex::splitn(text, limit)`, each piece as an owned string.
#[verifier::external_body]
fn split_at_first_matches(p: &Pattern, text: &str, limit: usize) -> (r: Vec<String>)
    ensures
        string_views(r@) == regex_splitn_of(p@, text@, limit),
{
    p.re.splitn(text, limit).map(|s| s.to_owned()).collect()
}

/// At most `limit` pieces of `text` cut at the first matches of `pattern`;
/// nothing where the pattern does not compile.
pub fn splitn_by(pattern: &str, text: &str, limit: usize) -> (r: Vec<String>)
    ensures
        regex_valid(pattern@) ==> string_views(r@) == regex_splitn_of(pattern@, text@, limit),
        !regex_valid(pattern@) ==> r@.len() == 0,
{
    match compile(pattern) {
        Some(p) => split_at_first_matches(&p, text, limit),
        None => Vec::new(),
    }
}

/// Group 1 of the first match, trimmed.
pub open spec fn match1_of(pattern: Seq<char>, text: Seq<char>) -> Option<Seq<char>> {
    match regex_group_of(pattern, text, 1) {
        Some(g) => Some(trim_seq(g)),
        None => None,
    }
}

/// Group 1 of the first match of `pattern` in `text`, trimmed.
pub fn match_one(pattern: &str, text: &str) -> (r: Option<String>)
    ensures
        regex_valid(pattern@) ==> opt_view(r) == match1_of(pattern@, text@),
        !regex_valid(pattern@) ==> r is None,
{
    match group_of(pattern, text, 1) {
        Some(g) => Some(trim(g.as_str()).to_owned()),
        None => None,
    }
}

/// The hidden input that carries the CSRF token: its name and its value.
pub const CSRF_PATTERN: &'static str = r#"name=['"]([^'"]+)['"]\s+value=['"]([^'"]+)['"]"#;

/// The first `H:MM` / `HH:MM` of a text.
pub const TIME_PATTERN: &'static str = r"(\d{1,2}:\d{2})";

/// A delay written as `H:MM`.
pub const BADGE_COLON_PATTERN: &'static str = r"(\d{1,2}):(\d{2})";

/// Hours of a delay written in words.
pub const BADGE_HOURS_PATTERN: &'static str = r"(\d+)\s*(?:hr|hrs|hour|hours|h)";

/// Minutes of a delay written in words.
pub const BADGE_MINUTES_PATTERN: &'static str = r"(\d+)\s*(?:min|mins|minute|minutes)";

/// The `(name, value)` of the CSRF input, both trimmed and non-empty.
pub open spec fn csrf_of(body: Seq<char>) -> Option<(Seq<char>, Seq<char>)> {
    match (regex_group_of(CSRF_PATTERN@, body, 1), regex_group_of(CSRF_PATTERN@, body, 2)) {
        (Some(n), Some(v)) => if trim_seq(n).len() == 0 || trim_seq(v).len() == 0 {
            None
        } else {
            Some((trim_seq(n), trim_seq(v)))
        },
        _ => None,
    }
}

/// Extract `(name, value)` from the CSRF hidden input of a page, e.g.
/// `<input type='hidden' name='csrfToken' value='abc'>`.
pub fn extract_csrf(body: &str) -> (r: Option<(String, String)>)
    ensures
        regex_valid(CSRF_PATTERN@) ==> match r {
            Some((n, v)) => csrf_of(body@) == Some((n@, v@)),
            None => csrf_of(body@) is None,
        },
        !regex_valid(CSRF_PATTERN@) ==> r is None,
{
    let name = match group_of(CSRF_PATTERN, body, 1) {
        Some(n) => n,
        None => return None,
    };
    let value = match group_of(CSRF_PATTERN, body, 2) {
        Some(v) => v,
        None => return None,
    };
    let n = trim(name.as_str());
    let v = trim(value.as_str());
    if n.is_empty() || v.is_empty() {
        None
    } else {
        Some((n.to_owned(), v.to_owned()))
    }
}

/// The first `HH:MM` of a text, else empty.
pub fn hhmm(text: &str) -> (r: String)
    ensures
        regex_valid(TIME_PATTERN@) ==> r@ == match regex_group_of(TIME_PATTERN@, text@, 1) {
            Some(t) => t,
            None => Seq::empty(),
        },
        !regex_valid(TIME_PATTERN@) ==> r@ == Seq::<char>::empty(),
{
    match group_of(TIME_PATTERN, text, 1) {
        Some(t) => t,
        None => String::new(),
    }
}

/// A reported time is real only when it is non-blank, has a `:` and no
/// trailing `*` (NTES marks estimates with a star).
pub open spec fn real_time(raw: Seq<char>) -> bool {
    let t = trim_seq(raw);
    t.len() > 0 && t.last() != '*' && has_infix(t, seq![':'])
}

/// Whether a reported actual time is real rather than estimated.
pub fn is_real_time(raw: &str) -> (r: bool)
    ensures
        r == real_time(raw@),
{
    let t = chars_of(trim(raw));
    let colon = chars_of(":");
    proof {
        reveal_strlit(":");
        assert(colon@ =~= seq![':']);
    }
    t.len() > 0 && t[t.len() - 1] != '*' && contains_chars(t.as_slice(), colon.as_slice())
}

/// A decimal group as a number: its value where it is plain ASCII digits
/// that fit `i64`, else 0.
pub open spec fn group_number(g: Option<Seq<char>>) -> i64 {
    match g {
        Some(t) => match parsed_unsigned(t, i64::MAX as nat) {
            Some(n) => n as i64,
            None => 0,
        },
        None => 0,
    }
}

/// Hours times sixty plus minutes, wrapping like release builds do.
pub open spec fn hours_minutes(h: i64, m: i64) -> i64 {
    h.wrapping_mul(60).wrapping_add(m)
}

/// Minutes late that a delay badge says: `On Time` (or nothing) is 0,
/// `H:MM` is read as hours and minutes, else the hour and minute counts
/// written in words; all after trimming and lower-casing.
pub open spec fn badge_of(badge: Seq<char>) -> i64 {
    let b = lower_seq(trim_seq(badge));
    if b.len() == 0 || has_infix(b, "on time"@) {
        0
    } else if regex_group_of(BADGE_COLON_PATTERN@, b, 0) is Some {
        hours_minutes(
            group_number(regex_group_of(BADGE_COLON_PATTERN@, b, 1)),
            group_number(regex_group_of(BADGE_COLON_PATTERN@, b, 2)),
        )
    } else {
        hours_minutes(
            group_number(regex_group_of(BADGE_HOURS_PATTERN@, b, 1)),
            group_number(regex_group_of(BADGE_MINUTES_PATTERN@, b, 1)),
        )
    }
}

/// A decimal group as a number.
fn number_of(g: Option<String>) -> (r: i64)
    ensures
        r == group_number(opt_view(g)),
{
    match g {
        Some(t) => match parse_unsigned(t.as_str(), i64::MAX as u64) {
            Some(n) => n as i64,
            None => 0,
        },
        None => 0,
    }
}

/// Badge text (`On Time`, `3 Min`, `41 Mins.`, `1 Hr 5 Min`, `02:10`) as
/// minutes late.
pub fn badge_minutes(badge: &str) -> (r: i64)
    ensures
        regex_valid(BADGE_COLON_PATTERN@) && regex_valid(BADGE_HOURS_PATTERN@) && regex_valid(
            BADGE_MINUTES_PATTERN@,
        ) ==> r == badge_of(badge@),
{
    let lv = lower_chars(chars_of(trim(badge)).as_slice());
    let b = string_of(lv.as_slice());
    let on_time = chars_of("on time");
    if lv.len() == 0 || contains_chars(lv.as_slice(), on_time.as_slice()) {
        return 0;
    }
    if group_of(BADGE_COLON_PATTERN, b.as_str(), 0).is_some() {
        let h = number_of(group_of(BADGE_COLON_PATTERN, b.as_str(), 1));
        let m = number_of(group_of(BADGE_COLON_PATTERN, b.as_str(), 2));
        return h.wrapping_mul(60).wrapping_add(m);
    }
    let hours = number_of(group_of(BADGE_HOURS_PATTERN, b.as_str(), 1));
    let mins = number_of(group_of(BADGE_MINUTES_PATTERN, b.as_str(), 1));
    hours.wrapping_mul(60).wrapping_add(mins)
}

/// Header of the exception calendar: train number and name.
pub const EXC_HEAD_PATTERN: &'static str = r"<h4>\s*(\d{4,5})\s+-\s+([^<]+?)</h4>";

/// The route line under the header.
pub const EXC_ROUTE_PATTERN: &'static str = r"</h4>\s*([^<]+?)\s*<br";

/// The days of run.
pub const EXC_DAYS_PATTERN: &'static str = r"Days of Run : <b>([^<]+)</b>";

/// The month and year of the calendar.
pub const EXC_MONTH_PATTERN: &'static str = r#"<font size="5pt">([A-Za-z]{3})-(\d{4})</font>"#;

/// The day number of one calendar cell.
pub const EXC_DAYNUM_PATTERN: &'static str = r"<b>(?:\s*<font[^>]*>)?\s*(?:&nbsp;)?(\d{1,2})\s*(?:</font>)?\s*</b>";

/// The hover note of an exceptional day.
pub const EXC_TAG_PATTERN: &'static str = r"w3-tag[^>]*>\s*\[([^\]]+)\]";

/// The background colour of a day's circle.
pub const EXC_BG_PATTERN: &'static str = r"background:\s*([a-z]+)";

/// The text colour of a day's circle.
pub const EXC_FG_PATTERN: &'static str = r#"color="([^"]+)""#;

/// What opens each calendar day cell.
pub const EXC_CELL_MARKER: &'static str = r#"<td class="w3-tooltip""#;

/// What the page says when a train has no exceptions.
pub const EXC_NO_DATA: &'static str = "No Exceptional Details found";

/// Every pattern of the exception page compiles.
pub open spec fn exception_patterns_valid() -> bool {
    &&& regex_valid(EXC_HEAD_PATTERN@)
    &&& regex_valid(EXC_ROUTE_PATTERN@)
    &&& regex_valid(EXC_DAYS_PATTERN@)
    &&& regex_valid(EXC_MONTH_PATTERN@)
    &&& regex_valid(EXC_DAYNUM_PATTERN@)
    &&& regex_valid(EXC_TAG_PATTERN@)
    &&& regex_valid(EXC_BG_PATTERN@)
    &&& regex_valid(EXC_FG_PATTERN@)
}

/// Whether every pattern behind `exception_patterns_valid` compiles: the condition
/// the parsers' contracts rest on, checked at run time.
pub fn exception_patterns_ok() -> (r: bool)
    ensures
        r == exception_patterns_valid(),
{
    pattern_compiles(EXC_HEAD_PATTERN)
        && pattern_compiles(EXC_ROUTE_PATTERN)
        && pattern_compiles(EXC_DAYS_PATTERN)
        && pattern_compiles(EXC_MONTH_PATTERN)
        && pattern_compiles(EXC_DAYNUM_PATTERN)
        && pattern_compiles(EXC_TAG_PATTERN)
        && pattern_compiles(EXC_BG_PATTERN)
        && pattern_compiles(EXC_FG_PATTERN)
}

/// The kind of exception a hover note names, with the note itself.
pub open spec fn kind_of_note(n: Seq<char>) -> Option<(Seq<char>, Seq<char>)> {
    if n == "Train is Cancelled"@ {
        Some(("cancelled"@, "Train is Cancelled"@))
    } else if n == "Train is Scheduled to Run on Diverted Route"@ {
        Some(("diverted"@, "Train is Scheduled to Run on Diverted Route"@))
    } else if n == "Train is Rescheduled from Source"@ {
        Some(("rescheduled"@, "Train is Rescheduled from Source"@))
    } else if n == "Train is Scheduled to Start from New Source"@ {
        Some(("new_source"@, "Train is Scheduled to Start from New Source"@))
    } else if n == "Train is Scheduled to Terminate on New Destination"@ {
        Some(("new_destination"@, "Train is Scheduled to Terminate on New Destination"@))
    } else {
        None
    }
}

/// The kind of exception a circle's (text, background) colours stand for,
/// as the page's legend gives them.
pub open spec fn kind_of_colours(fg: Seq<char>, bg: Seq<char>) -> Option<(Seq<char>, Seq<char>)> {
    if fg == "white"@ && bg == "red"@ {
        Some(("cancelled"@, "Train is Cancelled"@))
    } else if fg == "white"@ && bg == "blue"@ {
        Some(("rescheduled"@, "Train is Rescheduled from Source"@))
    } else if fg == "white"@ && bg == "orange"@ {
        Some(("diverted"@, "Train is Scheduled to Run on Diverted Route"@))
    } else if fg == "green"@ && bg == "yellow"@ {
        Some(("new_source"@, "Train is Scheduled to Start from New Source"@))
    } else if fg == "yellow"@ && bg == "red"@ {
        Some(("new_destination"@, "Train is Scheduled to Terminate on New Destination"@))
    } else {
        None
    }
}

/// A present text, else the empty one.
pub open spec fn or_empty(o: Option<Seq<char>>) -> Seq<char> {
    match o {
        Some(t) => t,
        None => Seq::empty(),
    }
}

/// The exception of one calendar cell: from its hover note where it has
/// one, else from its circle's colours; `None` for an ordinary day.
pub open spec fn exception_kind_of(cell: Seq<char>) -> Option<(Seq<char>, Seq<char>)> {
    if regex_group_of(EXC_TAG_PATTERN@, cell, 0) is Some {
        match regex_group_of(EXC_TAG_PATTERN@, cell, 1) {
            Some(note) => kind_of_note(trim_seq(note)),
            None => None,
        }
    } else {
        kind_of_colours(or_empty(regex_group_of(EXC_FG_PATTERN@, cell, 1)), or_empty(regex_group_of(EXC_BG_PATTERN@, cell, 1)))
    }
}

/// The circle colours of a calendar cell: (text, background).
pub open spec fn cell_colours(cell: Seq<char>) -> (Seq<char>, Seq<char>) {
    (or_empty(regex_group_of(EXC_FG_PATTERN@, cell, 1)), or_empty(regex_group_of(EXC_BG_PATTERN@, cell, 1)))
}

/// A calendar cell without a hover note is classified by its circle as the
/// page legend says: white on red cancelled, white on blue rescheduled,
/// white on orange diverted, green on yellow a new source, yellow on red a
/// new destination, any other circle an ordinary running day.
pub proof fn lemma_colour_legend(cell: Seq<char>)
    ensures
        regex_group_of(EXC_TAG_PATTERN@, cell, 0) is None ==> {
            let (fg, bg) = cell_colours(cell);
            &&& (exception_kind_of(cell) == Some(("cancelled"@, "Train is Cancelled"@)) <==> fg == "white"@
                && bg == "red"@)
            &&& (exception_kind_of(cell) == Some(("rescheduled"@, "Train is Rescheduled from Source"@))
                <==> fg == "white"@ && bg == "blue"@)
            &&& (exception_kind_of(cell) == Some(("diverted"@, "Train is Scheduled to Run on Diverted Route"@))
                <==> fg == "white"@ && bg == "orange"@)
            &&& (exception_kind_of(cell) == Some(("new_source"@, "Train is Scheduled to Start from New Source"@))
                <==> fg == "green"@ && bg == "yellow"@)
            &&& (exception_kind_of(cell) == Some(
                ("new_destination"@, "Train is Scheduled to Terminate on New Destination"@),
            ) <==> fg == "yellow"@ && bg == "red"@)
            &&& (exception_kind_of(cell) is None <==> !(fg == "white"@ && (bg == "red"@ || bg == "blue"@
                || bg == "orange"@)) && !(fg == "green"@ && bg == "yellow"@) && !(fg == "yellow"@ && bg == "red"@))
        },
{
    reveal_strlit("white");
    reveal_strlit("red");
    reveal_strlit("blue");
    reveal_strlit("orange");
    reveal_strlit("green");
    reveal_strlit("yellow");
    reveal_strlit("cancelled");
    reveal_strlit("rescheduled");
    reveal_strlit("diverted");
    reveal_strlit("new_source");
    reveal_strlit("new_destination");
    assert("white"@ != "green"@ && "white"@ != "yellow"@ && "green"@ != "yellow"@) by {
        assert("white"@[0] != "green"@[0]);
        assert("white"@.len() != "yellow"@.len());
        assert("green"@.len() != "yellow"@.len());
    }
    assert("red"@ != "blue"@ && "red"@ != "orange"@ && "red"@ != "yellow"@ && "blue"@ != "orange"@
        && "blue"@ != "yellow"@ && "orange"@ != "yellow"@) by {
        assert("red"@.len() != "blue"@.len());
        assert("red"@.len() != "orange"@.len());
        assert("red"@.len() != "yellow"@.len());
        assert("blue"@.len() != "orange"@.len());
        assert("blue"@.len() != "yellow"@.len());
        assert("orange"@[0] != "yellow"@[0]);
    }
    assert("cancelled"@.len() == 9 && "rescheduled"@.len() == 11 && "diverted"@.len() == 8
        && "new_source"@.len() == 10 && "new_destination"@.len() == 15);
}

/// A kind read from a circle's colours carries the same note as the hover
/// note of that kind: the legend and the notes agree.
pub proof fn lemma_colours_agree_with_notes(fg: Seq<char>, bg: Seq<char>)
    ensures
        kind_of_colours(fg, bg) matches Some((k, m)) ==> kind_of_note(m) == Some((k, m)),
{
    reveal_strlit("Train is Cancelled");
    reveal_strlit("Train is Scheduled to Run on Diverted Route");
    reveal_strlit("Train is Rescheduled from Source");
    reveal_strlit("Train is Scheduled to Start from New Source");
    reveal_strlit("Train is Scheduled to Terminate on New Destination");
    let c = "Train is Cancelled"@;
    let d = "Train is Scheduled to Run on Diverted Route"@;
    let r = "Train is Rescheduled from Source"@;
    let ns = "Train is Scheduled to Start from New Source"@;
    let nd = "Train is Scheduled to Terminate on New Destination"@;
    assert(c.len() == 18 && d.len() == 43 && r.len() == 32 && ns.len() == 43 && nd.len() == 50);
    assert(d[22] != ns[22]);
    assert(d != ns);
}

/// Whether the text of `s` is `t`.
fn text_is(s: &str, t: &str) -> (r: bool)
    ensures
        r == (s@ == t@),
{
    crate::text::str_eq(s, t)
}

/// The kind of exception a hover note names.
fn note_kind(n: &str) -> (r: Option<(&'static str, &'static str)>)
    ensures
        match r {
            Some((k, m)) => kind_of_note(n@) == Some((k@, m@)),
            None => kind_of_note(n@) is None,
        },
{
    if text_is(n, "Train is Cancelled") {
        Some(("cancelled", "Train is Cancelled"))
    } else if text_is(n, "Train is Scheduled to Run on Diverted Route") {
        Some(("diverted", "Train is Scheduled to Run on Diverted Route"))
    } else if text_is(n, "Train is Rescheduled from Source") {
        Some(("rescheduled", "Train is Rescheduled from Source"))
    } else if text_is(n, "Train is Scheduled to Start from New Source") {
        Some(("new_source", "Train is Scheduled to Start from New Source"))
    } else if text_is(n, "Train is Scheduled to Terminate on New Destination") {
        Some(("new_destination", "Train is Scheduled to Terminate on New Destination"))
    } else {
        None
    }
}

/// The kind of exception a circle's colours stand for.
fn colour_kind(fg: &str, bg: &str) -> (r: Option<(&'static str, &'static str)>)
    ensures
        match r {
            Some((k, m)) => kind_of_colours(fg@, bg@) == Some((k@, m@)),
            None => kind_of_colours(fg@, bg@) is None,
        },
{
    if text_is(fg, "white") && text_is(bg, "red") {
        Some(("cancelled", "Train is Cancelled"))
    } else if text_is(fg, "white") && text_is(bg, "blue") {
        Some(("rescheduled", "Train is Rescheduled from Source"))
    } else if text_is(fg, "white") && text_is(bg, "orange") {
        Some(("diverted", "Train is Scheduled to Run on Diverted Route"))
    } else if text_is(fg, "green") && text_is(bg, "yellow") {
        Some(("new_source", "Train is Scheduled to Start from New Source"))
    } else if text_is(fg, "yellow") && text_is(bg, "red") {
        Some(("new_destination", "Train is Scheduled to Terminate on New Destination"))
    } else {
        None
    }
}

/// A present text, else the empty one.
fn text_or_empty(o: Option<String>) -> (r: String)
    ensures
        r@ == or_empty(opt_view(o)),
{
    match o {
        Some(t) => t,
        None => String::new(),
    }
}

/// Classify one calendar day cell as an exception, or `None` for a normal,
/// not-running or blank day.
pub fn exception_kind(cell: &str) -> (r: Option<(&'static str, &'static str)>)
    ensures
        exception_patterns_valid() ==> match r {
            Some((k, m)) => exception_kind_of(cell@) == Some((k@, m@)),
            None => exception_kind_of(cell@) is None,
        },
{
    if group_of(EXC_TAG_PATTERN, cell, 0).is_some() {
        return match group_of(EXC_TAG_PATTERN, cell, 1) {
            Some(note) => note_kind(trim(note.as_str())),
            None => None,
        };
    }
    let bg = text_or_empty(group_of(EXC_BG_PATTERN, cell, 1));
    let fg = text_or_empty(group_of(EXC_FG_PATTERN, cell, 1));
    colour_kind(fg.as_str(), bg.as_str())
}

/// One exceptional day of a train's calendar.
#[derive(Debug, Clone)]
pub struct ExceptionDay {
    /// `YYYY-MM-DD`.
    pub date: String,
    /// `cancelled`, `diverted`, `rescheduled`, `new_source` or
    /// `new_destination`.
    pub kind: &'static str,
    /// The page's note for that kind.
    pub note: &'static str,
}

/// A train's exception calendar for one month.
#[derive(Debug, Clone)]
pub struct TrainExceptions {
    pub number: String,
    pub name: String,
    pub source: String,
    pub destination: String,
    pub days_of_run: Vec<String>,
    pub exceptions: Vec<ExceptionDay>,
    /// The page said there is nothing exceptional for the train.
    pub no_data: bool,
}

/// An exception calendar as plain values.
pub struct ExceptionsV {
    pub number: Seq<char>,
    pub name: Seq<char>,
    pub source: Seq<char>,
    pub destination: Seq<char>,
    pub days_of_run: Seq<Seq<char>>,
    pub exceptions: Seq<(Seq<char>, Seq<char>, Seq<char>)>,
    pub no_data: bool,
}

/// The days of an exception calendar, as plain values.
pub open spec fn days_view(d: Seq<ExceptionDay>) -> Seq<(Seq<char>, Seq<char>, Seq<char>)> {
    d.map_values(|x: ExceptionDay| (x.date@, x.kind@, x.note@))
}

impl View for TrainExceptions {
    type V = ExceptionsV;

    open spec fn view(&self) -> ExceptionsV {
        ExceptionsV {
            number: self.number@,
            name: self.name@,
            source: self.source@,
            destination: self.destination@,
            days_of_run: string_views(self.days_of_run@),
            exceptions: days_view(self.exceptions@),
            no_data: self.no_data,
        }
    }
}

/// The route line's two ends: the trimmed line without trailing dots, split
/// at its first ` - `, both ends trimmed; empty where there is no line.
pub open spec fn route_of(html: Seq<char>) -> (Seq<char>, Seq<char>) {
    match regex_group_of(EXC_ROUTE_PATTERN@, html, 1) {
        Some(g) => {
            let line = trim_end_char(trim_seq(g), '.');
            match occurrence_from(line, " - "@, 0) {
                Some(i) => (trim_seq(line.take(i)), trim_seq(line.skip(i + 3))),
                None => (trim_seq(line), Seq::empty()),
            }
        },
        None => (Seq::empty(), Seq::empty()),
    }
}

/// The trimmed non-blank pieces, in order.
pub open spec fn nonblank_trimmed(ps: Seq<Seq<char>>) -> Seq<Seq<char>>
    decreases ps.len(),
{
    if ps.len() == 0 {
        Seq::empty()
    } else if trim_seq(ps.last()).len() == 0 {
        nonblank_trimmed(ps.drop_last())
    } else {
        nonblank_trimmed(ps.drop_last()).push(trim_seq(ps.last()))
    }
}

/// The days of run, comma-separated on the page.
pub open spec fn days_of(html: Seq<char>) -> Seq<Seq<char>> {
    match regex_group_of(EXC_DAYS_PATTERN@, html, 1) {
        Some(g) => nonblank_trimmed(split_on(g, ","@)),
        None => Seq::empty(),
    }
}

/// The lower-case three-letter month names.
pub open spec fn month_names() -> Seq<Seq<char>> {
    seq!["jan"@, "feb"@, "mar"@, "apr"@, "may"@, "jun"@, "jul"@, "aug"@, "sep"@, "oct"@, "nov"@, "dec"@]
}

/// The number (1 to 12) of a three-letter month name in any ASCII letter
/// case; 0 where it is none.
pub open spec fn month_number_of(name: Seq<char>) -> int {
    let l = lower_seq(name);
    if l == month_names()[0] { 1 } else if l == month_names()[1] { 2 } else if l == month_names()[2] { 3 }
    else if l == month_names()[3] { 4 } else if l == month_names()[4] { 5 } else if l == month_names()[5] { 6 }
    else if l == month_names()[6] { 7 } else if l == month_names()[7] { 8 } else if l == month_names()[8] { 9 }
    else if l == month_names()[9] { 10 } else if l == month_names()[10] { 11 } else if l == month_names()[11] { 12 }
    else { 0 }
}

/// The calendar's month and year: none where the page has no month banner,
/// an unknown month name, or a year that is no `u32`.
pub open spec fn calendar_of(html: Seq<char>) -> Option<(int, u32)> {
    match (regex_group_of(EXC_MONTH_PATTERN@, html, 1), regex_group_of(EXC_MONTH_PATTERN@, html, 2)) {
        (Some(m), Some(y)) => if month_number_of(m) == 0 {
            None
        } else {
            match parsed_unsigned(y, u32::MAX as nat) {
                Some(n) => Some((month_number_of(m), n as u32)),
                None => None,
            }
        },
        _ => None,
    }
}

/// `n` zero-padded to at least four digits (`{:04}`).
pub open spec fn four_digits(n: nat) -> Seq<char> {
    if n < 10 {
        "000"@ + decimal(n)
    } else if n < 100 {
        "00"@ + decimal(n)
    } else if n < 1000 {
        "0"@ + decimal(n)
    } else {
        decimal(n)
    }
}

/// `YYYY-MM-DD` of a calendar day.
pub open spec fn date_text(year: nat, month: nat, day: nat) -> Seq<char> {
    four_digits(year) + "-"@ + two_digits(month) + "-"@ + two_digits(day)
}

/// The exception of one day cell: its day number (a `u32`) and its kind;
/// `None` for a cell without either.
pub open spec fn cell_exception(cell: Seq<char>, year: nat, month: nat) -> Option<(Seq<char>, Seq<char>, Seq<char>)> {
    match regex_group_of(EXC_DAYNUM_PATTERN@, cell, 1) {
        Some(d) => match parsed_unsigned(trim_seq(d), u32::MAX as nat) {
            Some(day) => match exception_kind_of(cell) {
                Some((k, n)) => Some((date_text(year, month, day), k, n)),
                None => None,
            },
            None => None,
        },
        None => None,
    }
}

/// The exceptions of the day cells, in order.
pub open spec fn cells_exceptions(cells: Seq<Seq<char>>, year: nat, month: nat) -> Seq<(Seq<char>, Seq<char>, Seq<char>)>
    decreases cells.len(),
{
    if cells.len() == 0 {
        Seq::empty()
    } else {
        match cell_exception(cells.last(), year, month) {
            Some(e) => cells_exceptions(cells.drop_last(), year, month).push(e),
            None => cells_exceptions(cells.drop_last(), year, month),
        }
    }
}

/// What the exception page of `train` reads as: the "nothing exceptional"
/// page as an empty calendar for the train; else the header (required),
/// route, days of run, month banner (required) and each day cell's
/// exception.
pub open spec fn exceptions_of(html: Seq<char>, train: Seq<char>) -> Option<ExceptionsV> {
    if has_infix(html, EXC_NO_DATA@) {
        Some(
            ExceptionsV {
                number: train,
                name: Seq::empty(),
                source: Seq::empty(),
                destination: Seq::empty(),
                days_of_run: Seq::empty(),
                exceptions: Seq::empty(),
                no_data: true,
            },
        )
    } else {
        match (regex_group_of(EXC_HEAD_PATTERN@, html, 1), regex_group_of(EXC_HEAD_PATTERN@, html, 2)) {
            (Some(num), Some(nm)) => match calendar_of(html) {
                Some((month, year)) => Some(
                    ExceptionsV {
                        number: trim_seq(num),
                        name: trim_seq(nm),
                        source: route_of(html).0,
                        destination: route_of(html).1,
                        days_of_run: days_of(html),
                        exceptions: cells_exceptions(split_on(html, EXC_CELL_MARKER@).drop_first(), year as nat, month as nat),
                        no_data: false,
                    },
                ),
                None => None,
            },
            _ => None,
        }
    }
}

/// The two ends of the route line.
fn route(html: &str) -> (r: (String, String))
    ensures
        regex_valid(EXC_ROUTE_PATTERN@) ==> (r.0@, r.1@) == route_of(html@),
{
    match group_of(EXC_ROUTE_PATTERN, html, 1) {
        Some(g) => {
            let mut lv: Vec<char> = Vec::new();
            push_trimmed_end(&mut lv, trim(g.as_str()), '.');
            let sep = chars_of(" - ");
            proof {
                reveal_strlit(" - ");
            }
            match find_from(lv.as_slice(), sep.as_slice(), 0) {
                Some(i) => {
                    proof {
                        lemma_occurrence_from(lv@, sep@, 0);
                        assert(sep@.len() == 3);
                    }
                    let ll = lv.len();
                    assert(i + 3 <= ll);
                    let a = string_of(chars_range(lv.as_slice(), 0, i).as_slice());
                    let b = string_of(chars_range(lv.as_slice(), i + 3, lv.len()).as_slice());
                    proof {
                        assert(lv@.take(i as int) =~= lv@.subrange(0, i as int));
                        assert(lv@.skip(i + 3) =~= lv@.subrange(i + 3, lv@.len() as int));
                    }
                    (trim(a.as_str()).to_owned(), trim(b.as_str()).to_owned())
                },
                None => {
                    let a = string_of(lv.as_slice());
                    (trim(a.as_str()).to_owned(), String::new())
                },
            }
        },
        None => (String::new(), String::new()),
    }
}

/// The days of run.
fn days(html: &str) -> (r: Vec<String>)
    ensures
        regex_valid(EXC_DAYS_PATTERN@) ==> string_views(r@) == days_of(html@),
{
    match group_of(EXC_DAYS_PATTERN, html, 1) {
        Some(g) => {
            let comma = chars_of(",");
            proof {
                reveal_strlit(",");
            }
            let parts = split_str(chars_of(g.as_str()).as_slice(), comma.as_slice());
            let ghost ps = string_views(parts@);
            let mut out: Vec<String> = Vec::new();
            let mut i: usize = 0;
            proof {
                assert(ps.take(0) =~= Seq::<Seq<char>>::empty());
                assert(string_views(out@) =~= Seq::<Seq<char>>::empty());
            }
            while i < parts.len()
                invariant
                    0 <= i <= parts@.len(),
                    ps == string_views(parts@),
                    string_views(out@) == nonblank_trimmed(ps.take(i as int)),
                decreases parts@.len() - i,
            {
                let t = trim(parts[i].as_str());
                proof {
                    assert(ps.take(i + 1).drop_last() =~= ps.take(i as int));
                    assert(ps.take(i + 1).last() == parts@[i as int]@);
                }
                if !t.is_empty() {
                    let ghost ov = string_views(out@);
                    let ts = t.to_owned();
                    out.push(ts);
                    proof {
                        assert(string_views(out@) =~= ov.push(ts@));
                    }
                }
                i = i + 1;
            }
            proof {
                assert(ps.take(parts@.len() as int) =~= ps);
            }
            out
        },
        None => Vec::new(),
    }
}

/// The number of a month name, 0 where it is none.
fn month_number(name: &str) -> (r: u32)
    ensures
        r == month_number_of(name@),
{
    let l = lower_chars(chars_of(name).as_slice());
    let names: [&str; 12] = ["jan", "feb", "mar", "apr", "may", "jun", "jul", "aug", "sep", "oct", "nov", "dec"];
    let mut i: usize = 0;
    while i < 12
        invariant
            0 <= i <= 12,
            l@ == lower_seq(name@),
            forall|k: int| 0 <= k < 12 ==> (#[trigger] names@[k])@ == month_names()[k],
            forall|k: int| 0 <= k < i ==> l@ != month_names()[k],
        decreases 12 - i,
    {
        let m = chars_of(names[i]);
        if crate::text::chars_eq(l.as_slice(), m.as_slice()) {
            return (i + 1) as u32;
        }
        i = i + 1;
    }
    0
}

/// Append `n` zero-padded to four digits.
fn push_four_digits(out: &mut Vec<char>, n: u64)
    ensures
        final(out)@ == old(out)@ + four_digits(n as nat),
{
    if n < 10 {
        push_str(out, "000");
    } else if n < 100 {
        push_str(out, "00");
    } else if n < 1000 {
        push_str(out, "0");
    }
    let ghost mid = out@;
    push_decimal(out, n);
    proof {
        assert(out@ =~= old(out)@ + four_digits(n as nat));
    }
}

/// The exception of one day cell.
fn cell_day(cell: &str, year: u32, month: u32) -> (r: Option<ExceptionDay>)
    ensures
        exception_patterns_valid() ==> match r {
            Some(d) => cell_exception(cell@, year as nat, month as nat) == Some((d.date@, d.kind@, d.note@)),
            None => cell_exception(cell@, year as nat, month as nat) is None,
        },
{
    let d = match group_of(EXC_DAYNUM_PATTERN, cell, 1) {
        Some(d) => d,
        None => return None,
    };
    let day = match parse_unsigned(trim(d.as_str()), u32::MAX as u64) {
        Some(v) => v,
        None => return None,
    };
    let (kind, note) = match exception_kind(cell) {
        Some(p) => p,
        None => return None,
    };
    let mut date: Vec<char> = Vec::new();
    push_four_digits(&mut date, year as u64);
    date.push('-');
    push_two_digits(&mut date, month as u64);
    date.push('-');
    push_two_digits(&mut date, day);
    proof {
        reveal_strlit("-");
        assert(date@ =~= date_text(year as nat, month as nat, day as nat));
    }
    Some(ExceptionDay { date: string_of(date.as_slice()), kind, note })
}

/// Exception calendar page of a train, or `None` when the page carries no
/// calendar.
pub fn parse_train_exceptions(html: &str, train: &str) -> (r: Option<TrainExceptions>)
    ensures
        has_infix(html@, EXC_NO_DATA@) ==> (r matches Some(t) && t@ == exceptions_of(html@, train@).unwrap()),
        exception_patterns_valid() ==> match r {
            Some(t) => exceptions_of(html@, train@) == Some(t@),
            None => exceptions_of(html@, train@) is None,
        },
{
    let hv = chars_of(html);
    let nd = chars_of(EXC_NO_DATA);
    if contains_chars(hv.as_slice(), nd.as_slice()) {
        let r = TrainExceptions {
            number: train.to_owned(),
            name: String::new(),
            source: String::new(),
            destination: String::new(),
            days_of_run: Vec::new(),
            exceptions: Vec::new(),
            no_data: true,
        };
        proof {
            assert(string_views(r.days_of_run@) =~= Seq::<Seq<char>>::empty());
            assert(days_view(r.exceptions@) =~= Seq::<(Seq<char>, Seq<char>, Seq<char>)>::empty());
        }
        return Some(r);
    }
    let number = match group_of(EXC_HEAD_PATTERN, html, 1) {
        Some(n) => n,
        None => return None,
    };
    let name = match group_of(EXC_HEAD_PATTERN, html, 2) {
        Some(n) => n,
        None => return None,
    };
    let (source, destination) = route(html);
    let days_of_run = days(html);
    let month_name = match group_of(EXC_MONTH_PATTERN, html, 1) {
        Some(m) => m,
        None => return None,
    };
    let year_text = match group_of(EXC_MONTH_PATTERN, html, 2) {
        Some(y) => y,
        None => return None,
    };
    let month = month_number(month_name.as_str());
    if month == 0 {
        return None;
    }
    let year = match parse_unsigned(year_text.as_str(), u32::MAX as u64) {
        Some(y) => y as u32,
        None => return None,
    };
    let marker = chars_of(EXC_CELL_MARKER);
    proof {
        reveal_strlit(r#"<td class="w3-tooltip""#);
    }
    let cells = split_str(hv.as_slice(), marker.as_slice());
    let ghost cv = string_views(cells@).drop_first();
    let mut exceptions: Vec<ExceptionDay> = Vec::new();
    let mut i: usize = 1;
    proof {
        assert(cv.take(0) =~= Seq::<Seq<char>>::empty());
        assert(days_view(exceptions@) =~= Seq::<(Seq<char>, Seq<char>, Seq<char>)>::empty());
    }
    while i < cells.len()
        invariant
            1 <= i <= cells@.len() || (i == 1 && cells@.len() == 0),
            cv == string_views(cells@).drop_first(),
            exception_patterns_valid() ==> days_view(exceptions@) == cells_exceptions(cv.take(i - 1), year as nat, month as nat),
        decreases cells@.len() - i,
    {
        let e = cell_day(cells[i].as_str(), year, month);
        proof {
            assert(cv.take(i as int).drop_last() =~= cv.take(i - 1));
            assert(cv.take(i as int).last() == cells@[i as int]@);
        }
        if let Some(d) = e {
            let ghost ev = days_view(exceptions@);
            let ghost dv = (d.date@, d.kind@, d.note@);
            exceptions.push(d);
            proof {
                assert(days_view(exceptions@) =~= ev.push(dv));
            }
        }
        i = i + 1;
    }
    proof {
        if cells@.len() > 0 {
            assert(cv.take(cells@.len() - 1) =~= cv);
        } else {
            assert(cv.take(0) =~= cv);
        }
    }
    Some(TrainExceptions {
        number: trim(number.as_str()).to_owned(),
        name: trim(name.as_str()).to_owned(),
        source,
        destination,
        days_of_run,
        exceptions,
        no_data: false,
    })
}


} // verus!
