//! The tabular NTES pages: the trains at a station now, the trains between
//! two stations, a station's timetable, a train's average delays and the
//! parcel specials. A page is cut into rows at its row markers, and each row
//! is read with the page's patterns; a page without a single readable row
//! reads as nothing (it was the challenge shell, not a result).
use vstd::prelude::*;
use crate::ntes::{pattern_compiles, groups_of, match1_of, match_one, opt_view, opt_views, or_empty, regex_groups_of, regex_valid};
use crate::data::{split_words, texts, words};
use crate::ntes::{group_of, regex_group_of, regex_replaced_of, regex_split_of, replace_matches, split_by};
use crate::text::{
    after_first, all_digits, before_first, chars_all_digits, chars_eq, join_with, push_joined, strings_view, chars_of, contains_chars, find_char, has_infix, lower_chars, lower_seq, split_on,
    split_str, str_eq, string_of, string_of_range, string_views, trim, trim_seq,
};

verus! {

/// What opens a table row.
pub const ROW_MARKER: &'static str = "<tr";

/// What opens a table cell.
pub const CELL_MARKER: &'static str = "<td";

/// The link that every train row of the live and between pages carries.
pub const STATUS_LINK: &'static str = "See Train Status";

/// The rows that `row` reads out of the pieces that carry `marker`, in order.
pub open spec fn rows_where<T>(segs: Seq<Seq<char>>, marker: Seq<char>, row: spec_fn(Seq<char>) -> Option<T>) -> Seq<T>
    decreases segs.len(),
{
    if segs.len() == 0 {
        Seq::empty()
    } else {
        let r = rows_where(segs.drop_last(), marker, row);
        if has_infix(segs.last(), marker) {
            match row(segs.last()) {
                Some(x) => r.push(x),
                None => r,
            }
        } else {
            r
        }
    }
}

/// The first value where there is one, else the second.
pub open spec fn or_else(a: Option<Seq<char>>, b: Option<Seq<char>>) -> Option<Seq<char>> {
    match a {
        Some(x) => Some(x),
        None => b,
    }
}

/// The trimmed `n`-th group of a list of matches, empty where there is none.
pub open spec fn nth_group(gs: Seq<Option<Seq<char>>>, n: int) -> Seq<char> {
    if 0 <= n < gs.len() {
        match gs[n] {
            Some(g) => trim_seq(g),
            None => Seq::empty(),
        }
    } else {
        Seq::empty()
    }
}

/// The trimmed `n`-th group of a list of matches, empty where there is none.
fn nth_trimmed(gs: &Vec<Option<String>>, n: usize) -> (r: String)
    ensures
        r@ == nth_group(opt_views(gs@), n as int),
{
    if n < gs.len() {
        match &gs[n] {
            Some(g) => trim(g.as_str()).to_owned(),
            None => String::new(),
        }
    } else {
        String::new()
    }
}

/// Whether two optional texts are equal.
fn opt_eq(a: &Option<String>, b: &Option<String>) -> (r: bool)
    ensures
        r == (opt_view(*a) == opt_view(*b)),
{
    match (a, b) {
        (Some(x), Some(y)) => str_eq(x.as_str(), y.as_str()),
        (None, None) => true,
        _ => false,
    }
}

/// A text, or empty.
pub(crate) fn text_or_empty(o: Option<String>) -> (r: String)
    ensures
        r@ == or_empty(opt_view(o)),
{
    match o {
        Some(t) => t,
        None => String::new(),
    }
}

/// Whether two texts are equal ignoring ASCII case (`eq_ignore_ascii_case`).
pub(crate) fn same_ignoring_case(a: &str, b: &str) -> (r: bool)
    ensures
        r == (lower_seq(a@) == lower_seq(b@)),
{
    let x = lower_chars(chars_of(a).as_slice());
    let y = lower_chars(chars_of(b).as_slice());
    chars_eq(x.as_slice(), y.as_slice())
}

/// The texts of the matches that have one, in order.
pub open spec fn somes(s: Seq<Option<Seq<char>>>) -> Seq<Seq<char>>
    decreases s.len(),
{
    if s.len() == 0 {
        Seq::empty()
    } else {
        match s.last() {
            Some(x) => somes(s.drop_last()).push(x),
            None => somes(s.drop_last()),
        }
    }
}

/// The texts of the matches that have one, in order.
fn present(gs: Vec<Option<String>>) -> (r: Vec<String>)
    ensures
        string_views(r@) == somes(opt_views(gs@)),
{
    let ghost gv = opt_views(gs@);
    let mut out: Vec<String> = Vec::new();
    let mut i: usize = 0;
    proof {
        assert(gv.take(0) =~= Seq::<Option<Seq<char>>>::empty());
        assert(string_views(out@) =~= Seq::<Seq<char>>::empty());
    }
    while i < gs.len()
        invariant
            0 <= i <= gs@.len(),
            gv == opt_views(gs@),
            string_views(out@) == somes(gv.take(i as int)),
        decreases gs@.len() - i,
    {
        proof {
            assert(gv.take(i + 1).drop_last() =~= gv.take(i as int));
            assert(gv.take(i + 1).last() == opt_view(gs@[i as int]));
        }
        match &gs[i] {
            Some(g) => {
                let ghost ov = string_views(out@);
                let t = g.clone();
                out.push(t);
                proof {
                    assert(string_views(out@) =~= ov.push(t@));
                }
            },
            None => {},
        }
        i = i + 1;
    }
    proof {
        assert(gv.take(gs@.len() as int) =~= gv);
    }
    out
}

// ---------------------------------------------------------------- live station

/// The train number in the train cell.
pub const LIVE_NUM_PATTERN: &'static str = r"<b>\s*(\d{4,5})\s*</b>";

/// A bold text; the second one of the train cell is the train's name.
pub const LIVE_BOLD_PATTERN: &'static str = r"<b>\s*([^<]+?)\s*</b>";

/// The expected time of a time cell.
pub const LIVE_ETA_PATTERN: &'static str = r#"<font color="(?:green|red)">([^<]+)</font>"#;

/// The delay badge of a time cell.
pub const LIVE_DELAY_PATTERN: &'static str = r#"<span[^>]*class="[^"]*w3-(?:green|red)[^"]*"[^>]*>\s*([^<]+?)\s*</span>"#;

/// The scheduled time of a time cell.
pub const LIVE_STA_PATTERN: &'static str = r#"<font size="1">\s*&nbsp;([^<]+)</font>"#;

/// The platform number.
pub const LIVE_PLATFORM_PATTERN: &'static str = r"<b>\s*(\d{1,2})\s*</b>";

/// The badge of a train on time.
pub const ON_TIME: &'static str = "On Time";

/// Every pattern of the live-station page compiles.
pub open spec fn live_patterns_valid() -> bool {
    &&& regex_valid(LIVE_NUM_PATTERN@)
    &&& regex_valid(LIVE_BOLD_PATTERN@)
    &&& regex_valid(LIVE_ETA_PATTERN@)
    &&& regex_valid(LIVE_DELAY_PATTERN@)
    &&& regex_valid(LIVE_STA_PATTERN@)
    &&& regex_valid(LIVE_PLATFORM_PATTERN@)
}

/// Whether every pattern behind `live_patterns_valid` compiles: the condition
/// the parsers' contracts rest on, checked at run time.
pub fn live_patterns_ok() -> (r: bool)
    ensures
        r == live_patterns_valid(),
{
    pattern_compiles(LIVE_NUM_PATTERN)
        && pattern_compiles(LIVE_BOLD_PATTERN)
        && pattern_compiles(LIVE_ETA_PATTERN)
        && pattern_compiles(LIVE_DELAY_PATTERN)
        && pattern_compiles(LIVE_STA_PATTERN)
        && pattern_compiles(LIVE_PLATFORM_PATTERN)
}

/// A train on the live board of a station.
#[derive(Debug, Clone)]
pub struct LiveTrain {
    pub train_no: String,
    pub train_name: String,
    pub scheduled_time: String,
    pub expected_time: String,
    /// The train is late here.
    pub delay_arr: bool,
    pub platform_no: String,
}

/// A live-board train as plain values.
pub struct LiveTrainV {
    pub train_no: Seq<char>,
    pub train_name: Seq<char>,
    pub scheduled_time: Seq<char>,
    pub expected_time: Seq<char>,
    pub delay_arr: bool,
    pub platform_no: Seq<char>,
}

impl View for LiveTrain {
    type V = LiveTrainV;

    open spec fn view(&self) -> LiveTrainV {
        LiveTrainV {
            train_no: self.train_no@,
            train_name: self.train_name@,
            scheduled_time: self.scheduled_time@,
            expected_time: self.expected_time@,
            delay_arr: self.delay_arr,
            platform_no: self.platform_no@,
        }
    }
}

/// Live-board trains as plain values.
pub open spec fn live_views(v: Seq<LiveTrain>) -> Seq<LiveTrainV> {
    v.map_values(|t: LiveTrain| t@)
}

/// One live-board row, read from its cells (serial, train, arrival,
/// departure, platform). The times and the delay come from the arrival cell,
/// and from the departure cell for a train that starts here; without a delay
/// badge a train is late when its expected and scheduled times differ.
pub open spec fn live_row_of(seg: Seq<char>) -> Option<LiveTrainV> {
    let tds = split_on(seg, CELL_MARKER@).drop_first();
    if tds.len() < 5 {
        None
    } else {
        match match1_of(LIVE_NUM_PATTERN@, tds[1]) {
            None => None,
            Some(number) => {
                let eta = or_else(match1_of(LIVE_ETA_PATTERN@, tds[2]), match1_of(LIVE_ETA_PATTERN@, tds[3]));
                let sta = or_else(match1_of(LIVE_STA_PATTERN@, tds[2]), match1_of(LIVE_STA_PATTERN@, tds[3]));
                let delay = or_else(match1_of(LIVE_DELAY_PATTERN@, tds[2]), match1_of(LIVE_DELAY_PATTERN@, tds[3]));
                Some(
                    LiveTrainV {
                        train_no: number,
                        train_name: nth_group(regex_groups_of(LIVE_BOLD_PATTERN@, tds[1], 1), 1),
                        scheduled_time: or_empty(sta),
                        expected_time: or_empty(eta),
                        delay_arr: match delay {
                            Some(t) => lower_seq(t) != lower_seq(ON_TIME@),
                            None => eta != sta,
                        },
                        platform_no: or_empty(match1_of(LIVE_PLATFORM_PATTERN@, tds[4])),
                    },
                )
            },
        }
    }
}

/// The delay badge a live-board row shows, read from its arrival cell and
/// else its departure cell.
pub open spec fn live_badge_of(seg: Seq<char>) -> Option<Seq<char>> {
    let tds = split_on(seg, CELL_MARKER@).drop_first();
    or_else(match1_of(LIVE_DELAY_PATTERN@, tds[2]), match1_of(LIVE_DELAY_PATTERN@, tds[3]))
}

/// Without a delay badge, a live-board train is late exactly when its
/// expected time differs from its scheduled time (wherever either was
/// found); with a badge, exactly when the badge does not read "on time".
pub proof fn lemma_live_late_rule(seg: Seq<char>)
    ensures
        live_row_of(seg) matches Some(t) ==> (live_badge_of(seg) is None && (t.expected_time.len() > 0
            || t.scheduled_time.len() > 0) ==> (t.delay_arr <==> t.expected_time != t.scheduled_time)),
        live_row_of(seg) matches Some(t) ==> (live_badge_of(seg) matches Some(b) ==> (t.delay_arr <==> lower_seq(b)
            != lower_seq(ON_TIME@))),
{
}

/// The trains of a live-station page: each row with a status link that
/// reads as a train; none where not one does.
pub open spec fn live_station_of(html: Seq<char>) -> Option<Seq<LiveTrainV>> {
    let r = rows_where(split_on(html, ROW_MARKER@), STATUS_LINK@, |s: Seq<char>| live_row_of(s));
    if r.len() == 0 {
        None
    } else {
        Some(r)
    }
}

/// One live-board row.
fn live_row(seg: &str) -> (r: Option<LiveTrain>)
    ensures
        live_patterns_valid() ==> match r {
            Some(t) => live_row_of(seg@) == Some(t@),
            None => live_row_of(seg@) is None,
        },
{
    let marker = chars_of(CELL_MARKER);
    proof {
        reveal_strlit("<td");
    }
    let parts = split_str(chars_of(seg).as_slice(), marker.as_slice());
    let ghost tds = string_views(parts@).drop_first();
    if parts.len() < 6 {
        return None;
    }
    proof {
        assert(tds[1] == parts@[2]@);
        assert(tds[2] == parts@[3]@);
        assert(tds[3] == parts@[4]@);
        assert(tds[4] == parts@[5]@);
    }
    let info = parts[2].as_str();
    let arrival = parts[3].as_str();
    let departure = parts[4].as_str();
    let number = match match_one(LIVE_NUM_PATTERN, info) {
        Some(n) => n,
        None => return None,
    };
    let bolds = groups_of(LIVE_BOLD_PATTERN, info, 1);
    let name = nth_trimmed(&bolds, 1);
    let eta = match match_one(LIVE_ETA_PATTERN, arrival) {
        Some(x) => Some(x),
        None => match_one(LIVE_ETA_PATTERN, departure),
    };
    let sta = match match_one(LIVE_STA_PATTERN, arrival) {
        Some(x) => Some(x),
        None => match_one(LIVE_STA_PATTERN, departure),
    };
    let delay = match match_one(LIVE_DELAY_PATTERN, arrival) {
        Some(x) => Some(x),
        None => match_one(LIVE_DELAY_PATTERN, departure),
    };
    let delayed = match &delay {
        Some(t) => !same_ignoring_case(t.as_str(), ON_TIME),
        None => !opt_eq(&eta, &sta),
    };
    let platform = text_or_empty(match_one(LIVE_PLATFORM_PATTERN, parts[5].as_str()));
    Some(
        LiveTrain {
            train_no: number,
            train_name: name,
            scheduled_time: text_or_empty(sta),
            expected_time: text_or_empty(eta),
            delay_arr: delayed,
            platform_no: platform,
        },
    )
}

/// The trains of a live-station page, or `None` where no row reads as a
/// train (the challenged shell).
pub fn parse_live_station(html: &str) -> (r: Option<Vec<LiveTrain>>)
    ensures
        live_patterns_valid() ==> match r {
            Some(v) => live_station_of(html@) == Some(live_views(v@)),
            None => live_station_of(html@) is None,
        },
{
    let marker = chars_of(ROW_MARKER);
    let link = chars_of(STATUS_LINK);
    proof {
        reveal_strlit("<tr");
    }
    let segs = split_str(chars_of(html).as_slice(), marker.as_slice());
    let ghost sv = string_views(segs@);
    let ghost f = |s: Seq<char>| live_row_of(s);
    let mut rows: Vec<LiveTrain> = Vec::new();
    let mut i: usize = 0;
    proof {
        assert(sv.take(0) =~= Seq::<Seq<char>>::empty());
        assert(live_views(rows@) =~= Seq::<LiveTrainV>::empty());
    }
    while i < segs.len()
        invariant
            0 <= i <= segs@.len(),
            sv == string_views(segs@),
            link@ == STATUS_LINK@,
            f == (|s: Seq<char>| live_row_of(s)),
            live_patterns_valid() ==> live_views(rows@) == rows_where(sv.take(i as int), STATUS_LINK@, f),
        decreases segs@.len() - i,
    {
        proof {
            assert(sv.take(i + 1).drop_last() =~= sv.take(i as int));
            assert(sv.take(i + 1).last() == segs@[i as int]@);
        }
        let seg = segs[i].as_str();
        if contains_chars(chars_of(seg).as_slice(), link.as_slice()) {
            if let Some(t) = live_row(seg) {
                let ghost old_rows = live_views(rows@);
                let ghost tv = t@;
                rows.push(t);
                proof {
                    assert(live_views(rows@) =~= old_rows.push(tv));
                }
            }
        }
        i = i + 1;
    }
    proof {
        assert(sv.take(segs@.len() as int) =~= sv);
    }
    if rows.len() == 0 {
        None
    } else {
        Some(rows)
    }
}

// ------------------------------------------------------------ trains between

/// Number and name of a train row.
pub const TBS_HEAD_PATTERN: &'static str = r"<span><b>(\d{4,5})</b>\s*&nbsp;&nbsp;\s*([^<]+)</span>";

/// The run-days line (`Daily | Superfast`, `Mon,Sat | Superfast`).
pub const TBS_RUNS_PATTERN: &'static str = r"<span>\s*([^<]+?)\s*</span>";

/// A stop of the row: its time, then its name and code.
pub const TBS_TIME_PATTERN: &'static str = r"<b>(\d{2}:\d{2})</b>\s*<br>\s*[^<]+?<br>\s*(?:<b>)?([A-Z0-9]{2,6})";

/// What a train running every day has in place of its days.
pub const DAILY: &'static str = "daily";

/// Every pattern of the trains-between page compiles.
pub open spec fn between_patterns_valid() -> bool {
    &&& regex_valid(TBS_HEAD_PATTERN@)
    &&& regex_valid(TBS_RUNS_PATTERN@)
    &&& regex_valid(TBS_TIME_PATTERN@)
}

/// Whether every pattern behind `between_patterns_valid` compiles: the condition
/// the parsers' contracts rest on, checked at run time.
pub fn between_patterns_ok() -> (r: bool)
    ensures
        r == between_patterns_valid(),
{
    pattern_compiles(TBS_HEAD_PATTERN)
        && pattern_compiles(TBS_RUNS_PATTERN)
        && pattern_compiles(TBS_TIME_PATTERN)
}

/// The day names, Monday first.
pub open spec fn day_names() -> Seq<Seq<char>> {
    seq!["Mon"@, "Tue"@, "Wed"@, "Thu"@, "Fri"@, "Sat"@, "Sun"@]
}

/// A text with each comma made a space.
pub open spec fn commas_to_spaces(s: Seq<char>) -> Seq<char> {
    s.map_values(|c: char| if c == ',' { ' ' } else { c })
}

/// Whether one of the tokens is `day`, ignoring case.
pub open spec fn runs_on(tokens: Seq<Seq<char>>, day: Seq<char>) -> bool {
    exists|k: int| 0 <= k < tokens.len() && lower_seq(#[trigger] tokens[k]) == lower_seq(day)
}

/// The days a row's train runs, Monday first: the run-days line up to its
/// first `|`, trimmed; `Daily` in any case is every day, else the days named
/// among its comma- or space-separated tokens, in any case.
pub open spec fn runs_of(seg: Seq<char>) -> Seq<bool> {
    let left = trim_seq(before_first(or_empty(match1_of(TBS_RUNS_PATTERN@, seg)), '|'));
    if lower_seq(left) == lower_seq(DAILY@) {
        Seq::new(7, |i: int| true)
    } else {
        Seq::new(7, |i: int| runs_on(words(commas_to_spaces(left)), day_names()[i]))
    }
}

/// The days a row's train runs: every day where its run-days line reads
/// `Daily` in any case; otherwise Monday through Sunday, each marked exactly
/// when one of the line's comma- or space-separated words is that day's
/// name, in any case.
pub proof fn lemma_runs_name_days(seg: Seq<char>)
    ensures
        runs_of(seg).len() == 7,
        ({
            let left = trim_seq(before_first(or_empty(match1_of(TBS_RUNS_PATTERN@, seg)), '|'));
            let toks = words(commas_to_spaces(left));
            let d = runs_of(seg);
            &&& lower_seq(left) == lower_seq(DAILY@) ==> forall|i: int| 0 <= i < 7 ==> #[trigger] d[i]
            &&& lower_seq(left) != lower_seq(DAILY@) ==> {
                &&& d[0] == runs_on(toks, "Mon"@)
                &&& d[1] == runs_on(toks, "Tue"@)
                &&& d[2] == runs_on(toks, "Wed"@)
                &&& d[3] == runs_on(toks, "Thu"@)
                &&& d[4] == runs_on(toks, "Fri"@)
                &&& d[5] == runs_on(toks, "Sat"@)
                &&& d[6] == runs_on(toks, "Sun"@)
            }
        }),
{
}

/// Whether one of the tokens is `day`, ignoring case.
fn any_token(tokens: &Vec<String>, day: &str) -> (r: bool)
    ensures
        r == runs_on(texts(tokens@), day@),
{
    let mut i: usize = 0;
    while i < tokens.len()
        invariant
            0 <= i <= tokens@.len(),
            forall|k: int| 0 <= k < i ==> lower_seq(texts(tokens@)[k]) != lower_seq(day@),
        decreases tokens@.len() - i,
    {
        if same_ignoring_case(tokens[i].as_str(), day) {
            proof {
                assert(texts(tokens@)[i as int] == tokens@[i as int]@);
            }
            return true;
        }
        i = i + 1;
    }
    false
}

/// The days a row's train runs, Monday first.
fn runs(seg: &str) -> (r: Vec<bool>)
    ensures
        between_patterns_valid() ==> r@ == runs_of(seg@),
{
    let run_text = text_or_empty(match_one(TBS_RUNS_PATTERN, seg));
    let rv = chars_of(run_text.as_str());
    let head = match find_char(rv.as_slice(), '|') {
        Some(k) => string_of_range(rv.as_slice(), 0, k),
        None => string_of(rv.as_slice()),
    };
    let left = trim(head.as_str());
    if same_ignoring_case(left, DAILY) {
        let all = vec![true, true, true, true, true, true, true];
        proof {
            assert(all@ =~= Seq::new(7, |i: int| true));
        }
        return all;
    }
    let lv = chars_of(left);
    let mut spaced: Vec<char> = Vec::new();
    let mut i: usize = 0;
    while i < lv.len()
        invariant
            0 <= i <= lv@.len(),
            spaced@ =~= commas_to_spaces(lv@.take(i as int)),
        decreases lv@.len() - i,
    {
        let c = lv[i];
        spaced.push(if c == ',' { ' ' } else { c });
        i = i + 1;
    }
    proof {
        assert(lv@.take(lv@.len() as int) =~= lv@);
    }
    let tokens = split_words(string_of(spaced.as_slice()).as_str());
    let names: [&str; 7] = ["Mon", "Tue", "Wed", "Thu", "Fri", "Sat", "Sun"];
    let mut out: Vec<bool> = Vec::new();
    let mut d: usize = 0;
    while d < 7
        invariant
            0 <= d <= 7,
            texts(tokens@) == words(commas_to_spaces(lv@)),
            forall|k: int| 0 <= k < 7 ==> (#[trigger] names@[k])@ == day_names()[k],
            out@.len() == d,
            forall|k: int| 0 <= k < d ==> out@[k] == runs_on(words(commas_to_spaces(lv@)), day_names()[k]),
        decreases 7 - d,
    {
        let on = any_token(&tokens, names[d]);
        out.push(on);
        d = d + 1;
    }
    proof {
        assert(out@ =~= Seq::new(7, |i: int| runs_on(words(commas_to_spaces(lv@)), day_names()[i])));
    }
    out
}

/// A train between two stations.
#[derive(Debug, Clone)]
pub struct BetweenTrain {
    pub train_no: String,
    pub train_name: String,
    pub dep_time: String,
    pub arr_time: String,
    /// Whether it runs on each day, Monday first.
    pub run_days: Vec<bool>,
}

/// A train between two stations as plain values.
pub struct BetweenTrainV {
    pub train_no: Seq<char>,
    pub train_name: Seq<char>,
    pub dep_time: Seq<char>,
    pub arr_time: Seq<char>,
    pub run_days: Seq<bool>,
}

impl View for BetweenTrain {
    type V = BetweenTrainV;

    open spec fn view(&self) -> BetweenTrainV {
        BetweenTrainV {
            train_no: self.train_no@,
            train_name: self.train_name@,
            dep_time: self.dep_time@,
            arr_time: self.arr_time@,
            run_days: self.run_days@,
        }
    }
}

/// Trains between two stations as plain values.
pub open spec fn between_views(v: Seq<BetweenTrain>) -> Seq<BetweenTrainV> {
    v.map_values(|t: BetweenTrain| t@)
}

/// One row of the trains-between page: its number and name (required), its
/// run days, and the times of its stops (at least one): departure at the
/// first, arrival at the last where there are two or more.
pub open spec fn between_row_of(seg: Seq<char>) -> Option<BetweenTrainV> {
    match (regex_group_of(TBS_HEAD_PATTERN@, seg, 1), regex_group_of(TBS_HEAD_PATTERN@, seg, 2)) {
        (Some(n), Some(nm)) => {
            let times = somes(regex_groups_of(TBS_TIME_PATTERN@, seg, 1));
            if times.len() == 0 {
                None
            } else {
                Some(
                    BetweenTrainV {
                        train_no: n,
                        train_name: trim_seq(nm),
                        dep_time: times[0],
                        arr_time: if times.len() >= 2 {
                            times.last()
                        } else {
                            Seq::empty()
                        },
                        run_days: runs_of(seg),
                    },
                )
            }
        },
        _ => None,
    }
}

/// The trains of a trains-between page; none where no row reads as one.
pub open spec fn trains_between_of(html: Seq<char>) -> Option<Seq<BetweenTrainV>> {
    let r = rows_where(split_on(html, ROW_MARKER@), STATUS_LINK@, |s: Seq<char>| between_row_of(s));
    if r.len() == 0 {
        None
    } else {
        Some(r)
    }
}

/// One row of the trains-between page.
fn between_row(seg: &str) -> (r: Option<BetweenTrain>)
    ensures
        between_patterns_valid() ==> match r {
            Some(t) => between_row_of(seg@) == Some(t@),
            None => between_row_of(seg@) is None,
        },
{
    let number = match crate::ntes::group_of(TBS_HEAD_PATTERN, seg, 1) {
        Some(n) => n,
        None => return None,
    };
    let name = match crate::ntes::group_of(TBS_HEAD_PATTERN, seg, 2) {
        Some(n) => n,
        None => return None,
    };
    let run_days = runs(seg);
    let times = present(groups_of(TBS_TIME_PATTERN, seg, 1));
    if times.len() == 0 {
        return None;
    }
    let dep_time = times[0].clone();
    let arr_time = if times.len() >= 2 {
        times[times.len() - 1].clone()
    } else {
        String::new()
    };
    proof {
        let tv = string_views(times@);
        assert(tv[0] == times@[0]@);
        if times@.len() >= 2 {
            assert(tv.last() == times@[times@.len() - 1]@);
        }
    }
    Some(BetweenTrain { train_no: number, train_name: trim(name.as_str()).to_owned(), dep_time, arr_time, run_days })
}

/// The trains of a trains-between page, or `None` where no row reads as a
/// train.
pub fn parse_trains_between(html: &str) -> (r: Option<Vec<BetweenTrain>>)
    ensures
        between_patterns_valid() ==> match r {
            Some(v) => trains_between_of(html@) == Some(between_views(v@)),
            None => trains_between_of(html@) is None,
        },
{
    let marker = chars_of(ROW_MARKER);
    let link = chars_of(STATUS_LINK);
    proof {
        reveal_strlit("<tr");
    }
    let segs = split_str(chars_of(html).as_slice(), marker.as_slice());
    let ghost sv = string_views(segs@);
    let ghost f = |s: Seq<char>| between_row_of(s);
    let mut rows: Vec<BetweenTrain> = Vec::new();
    let mut i: usize = 0;
    proof {
        assert(sv.take(0) =~= Seq::<Seq<char>>::empty());
        assert(between_views(rows@) =~= Seq::<BetweenTrainV>::empty());
    }
    while i < segs.len()
        invariant
            0 <= i <= segs@.len(),
            sv == string_views(segs@),
            link@ == STATUS_LINK@,
            f == (|s: Seq<char>| between_row_of(s)),
            between_patterns_valid() ==> between_views(rows@) == rows_where(sv.take(i as int), STATUS_LINK@, f),
        decreases segs@.len() - i,
    {
        proof {
            assert(sv.take(i + 1).drop_last() =~= sv.take(i as int));
            assert(sv.take(i + 1).last() == segs@[i as int]@);
        }
        let seg = segs[i].as_str();
        if contains_chars(chars_of(seg).as_slice(), link.as_slice()) {
            if let Some(t) = between_row(seg) {
                let ghost old_rows = between_views(rows@);
                let ghost tv = t@;
                rows.push(t);
                proof {
                    assert(between_views(rows@) =~= old_rows.push(tv));
                }
            }
        }
        i = i + 1;
    }
    proof {
        assert(sv.take(segs@.len() as int) =~= sv);
    }
    if rows.len() == 0 {
        None
    } else {
        Some(rows)
    }
}

// --------------------------------------------------------- station timetable

/// The summary line: how many trains, the station's code and name.
pub const STT_SUMMARY_PATTERN: &'static str = r"<b>\s*(\d+)\s+Trains scheduled at ([A-Z0-9]{2,6}) - ([^<]+?)\s*</b>";

/// Number and name of a timetable row.
pub const STT_HEAD_PATTERN: &'static str = r"<span\s*>\s*<b>(\d{4,5})</b>\s*&nbsp;&nbsp;\s*([^<]+?)</span>";

/// The plain lines of a row: the route, then `type | classes`.
pub const STT_ROUTE_PATTERN: &'static str = r"<br><span\s*>\s*([^<]+?)\s*</span>";

/// The arrival and departure times of a row.
pub const STT_TIME_PATTERN: &'static str = r"(?:Arr\.|Dep\.)[^<]*<b>([^<]+?)</b>";

/// The days a row's train calls.
pub const STT_DAYS_PATTERN: &'static str = r#"<div style="text-align: center; width: 50%;">([^<]+)</div>"#;

/// What every row of the timetable carries.
pub const STT_ROW_LINK: &'static str = "showTrainServiceSchedule";

/// Every pattern of the station-timetable page compiles.
pub open spec fn timetable_patterns_valid() -> bool {
    &&& regex_valid(STT_SUMMARY_PATTERN@)
    &&& regex_valid(STT_HEAD_PATTERN@)
    &&& regex_valid(STT_ROUTE_PATTERN@)
    &&& regex_valid(STT_TIME_PATTERN@)
    &&& regex_valid(STT_DAYS_PATTERN@)
}

/// Whether every pattern behind `timetable_patterns_valid` compiles: the condition
/// the parsers' contracts rest on, checked at run time.
pub fn timetable_patterns_ok() -> (r: bool)
    ensures
        r == timetable_patterns_valid(),
{
    pattern_compiles(STT_SUMMARY_PATTERN)
        && pattern_compiles(STT_HEAD_PATTERN)
        && pattern_compiles(STT_ROUTE_PATTERN)
        && pattern_compiles(STT_TIME_PATTERN)
        && pattern_compiles(STT_DAYS_PATTERN)
}

/// Each text trimmed.
pub open spec fn trimmed_all(v: Seq<Seq<char>>) -> Seq<Seq<char>> {
    v.map_values(|t: Seq<char>| trim_seq(t))
}

/// Each text trimmed.
fn trim_each(v: Vec<String>) -> (r: Vec<String>)
    ensures
        string_views(r@) == trimmed_all(string_views(v@)),
{
    let mut out: Vec<String> = Vec::new();
    let mut i: usize = 0;
    while i < v.len()
        invariant
            0 <= i <= v@.len(),
            out@.len() == i,
            forall|k: int| 0 <= k < i ==> (#[trigger] out@[k])@ == trim_seq(v@[k]@),
        decreases v@.len() - i,
    {
        out.push(trim(v[i].as_str()).to_owned());
        i = i + 1;
    }
    proof {
        assert(string_views(out@) =~= trimmed_all(string_views(v@)));
    }
    out
}

/// The two trimmed sides of the first `|`; the whole text and nothing where
/// there is none (`split_once('|')`).
pub open spec fn bar_sides(s: Seq<char>) -> (Seq<char>, Seq<char>) {
    match crate::text::first_index_of(s, '|') {
        Some(i) => (trim_seq(s.subrange(0, i)), trim_seq(s.subrange(i + 1, s.len() as int))),
        None => (s, Seq::empty()),
    }
}

/// The two trimmed sides of the first `|` of a text.
fn split_bar(s: &str) -> (r: (String, String))
    ensures
        (r.0@, r.1@) == bar_sides(s@),
{
    let v = chars_of(s);
    match find_char(v.as_slice(), '|') {
        Some(k) => {
            let a = string_of_range(v.as_slice(), 0, k);
            let b = string_of_range(v.as_slice(), k + 1, v.len());
            (trim(a.as_str()).to_owned(), trim(b.as_str()).to_owned())
        },
        None => (s.to_owned(), String::new()),
    }
}

/// A train in a station's timetable.
#[derive(Debug, Clone)]
pub struct TimetableTrain {
    pub train_no: String,
    pub train_name: String,
    pub route: String,
    pub train_type: String,
    pub classes: String,
    pub arrival: String,
    pub departure: String,
    pub days: String,
}

/// A timetable train as plain values.
pub struct TimetableTrainV {
    pub train_no: Seq<char>,
    pub train_name: Seq<char>,
    pub route: Seq<char>,
    pub train_type: Seq<char>,
    pub classes: Seq<char>,
    pub arrival: Seq<char>,
    pub departure: Seq<char>,
    pub days: Seq<char>,
}

impl View for TimetableTrain {
    type V = TimetableTrainV;

    open spec fn view(&self) -> TimetableTrainV {
        TimetableTrainV {
            train_no: self.train_no@,
            train_name: self.train_name@,
            route: self.route@,
            train_type: self.train_type@,
            classes: self.classes@,
            arrival: self.arrival@,
            departure: self.departure@,
            days: self.days@,
        }
    }
}

/// Timetable trains as plain values.
pub open spec fn timetable_views(v: Seq<TimetableTrain>) -> Seq<TimetableTrainV> {
    v.map_values(|t: TimetableTrain| t@)
}

/// A station's timetable: the station, the date asked for, the number of
/// trains the page says it has, and the rows read.
#[derive(Debug, Clone)]
pub struct StationTimetable {
    pub station: String,
    pub station_name: String,
    pub date: String,
    pub total: usize,
    pub list: Vec<TimetableTrain>,
}

/// A station's timetable as plain values.
pub struct StationTimetableV {
    pub station: Seq<char>,
    pub station_name: Seq<char>,
    pub date: Seq<char>,
    pub total: usize,
    pub list: Seq<TimetableTrainV>,
}

impl View for StationTimetable {
    type V = StationTimetableV;

    open spec fn view(&self) -> StationTimetableV {
        StationTimetableV {
            station: self.station@,
            station_name: self.station_name@,
            date: self.date@,
            total: self.total,
            list: timetable_views(self.list@),
        }
    }
}

/// One timetable row: number and name (required), the route line, the
/// `type | classes` line, the arrival and the departure (the first and the
/// last of at least two times), and the days.
pub open spec fn timetable_row_of(seg: Seq<char>) -> Option<TimetableTrainV> {
    match (regex_group_of(STT_HEAD_PATTERN@, seg, 1), regex_group_of(STT_HEAD_PATTERN@, seg, 2)) {
        (Some(n), Some(nm)) => {
            let spans = trimmed_all(somes(regex_groups_of(STT_ROUTE_PATTERN@, seg, 1)));
            let times = trimmed_all(somes(regex_groups_of(STT_TIME_PATTERN@, seg, 1)));
            let kind = if spans.len() >= 2 {
                bar_sides(spans[1])
            } else {
                (Seq::empty(), Seq::empty())
            };
            if times.len() < 2 {
                None
            } else {
                Some(
                    TimetableTrainV {
                        train_no: n,
                        train_name: trim_seq(nm),
                        route: if spans.len() >= 1 {
                            spans[0]
                        } else {
                            Seq::empty()
                        },
                        train_type: kind.0,
                        classes: kind.1,
                        arrival: times[0],
                        departure: times.last(),
                        days: or_empty(match1_of(STT_DAYS_PATTERN@, seg)),
                    },
                )
            }
        },
        _ => None,
    }
}

/// A station's timetable page for `date`: the summary (required, with a
/// count that fits `usize`) and the rows that read as trains (at least one).
pub open spec fn station_timetable_of(html: Seq<char>, date: Seq<char>) -> Option<StationTimetableV> {
    match (
        regex_group_of(STT_SUMMARY_PATTERN@, html, 1),
        regex_group_of(STT_SUMMARY_PATTERN@, html, 2),
        regex_group_of(STT_SUMMARY_PATTERN@, html, 3),
    ) {
        (Some(t), Some(code), Some(name)) => match crate::text::parsed_unsigned(trim_seq(t), usize::MAX as nat) {
            Some(total) => {
                let list = rows_where(split_on(html, ROW_MARKER@), STT_ROW_LINK@, |s: Seq<char>| timetable_row_of(s));
                if list.len() == 0 {
                    None
                } else {
                    Some(StationTimetableV { station: code, station_name: trim_seq(name), date, total: total as usize, list })
                }
            },
            None => None,
        },
        _ => None,
    }
}

/// One timetable row.
fn timetable_row(seg: &str) -> (r: Option<TimetableTrain>)
    ensures
        timetable_patterns_valid() ==> match r {
            Some(t) => timetable_row_of(seg@) == Some(t@),
            None => timetable_row_of(seg@) is None,
        },
{
    let number = match crate::ntes::group_of(STT_HEAD_PATTERN, seg, 1) {
        Some(n) => n,
        None => return None,
    };
    let name = match crate::ntes::group_of(STT_HEAD_PATTERN, seg, 2) {
        Some(n) => n,
        None => return None,
    };
    let spans = trim_each(present(groups_of(STT_ROUTE_PATTERN, seg, 1)));
    let times = trim_each(present(groups_of(STT_TIME_PATTERN, seg, 1)));
    let route = if spans.len() >= 1 {
        spans[0].clone()
    } else {
        String::new()
    };
    let (train_type, classes) = if spans.len() >= 2 {
        split_bar(spans[1].as_str())
    } else {
        (String::new(), String::new())
    };
    if times.len() < 2 {
        return None;
    }
    let arrival = times[0].clone();
    let departure = times[times.len() - 1].clone();
    let days = text_or_empty(match_one(STT_DAYS_PATTERN, seg));
    proof {
        let sv = string_views(spans@);
        let tv = string_views(times@);
        assert(tv[0] == times@[0]@);
        assert(tv.last() == times@[times@.len() - 1]@);
        if spans@.len() >= 1 {
            assert(sv[0] == spans@[0]@);
        }
        if spans@.len() >= 2 {
            assert(sv[1] == spans@[1]@);
        }
    }
    Some(
        TimetableTrain {
            train_no: number,
            train_name: trim(name.as_str()).to_owned(),
            route,
            train_type,
            classes,
            arrival,
            departure,
            days,
        },
    )
}

/// A station's timetable page, or `None` where it has no summary or no row
/// reads as a train; `date` is the date the page was asked for.
pub fn parse_station_timetable(html: &str, date: &str) -> (r: Option<StationTimetable>)
    ensures
        timetable_patterns_valid() ==> match r {
            Some(t) => station_timetable_of(html@, date@) == Some(t@),
            None => station_timetable_of(html@, date@) is None,
        },
{
    let count = match crate::ntes::group_of(STT_SUMMARY_PATTERN, html, 1) {
        Some(t) => t,
        None => return None,
    };
    let station = match crate::ntes::group_of(STT_SUMMARY_PATTERN, html, 2) {
        Some(t) => t,
        None => return None,
    };
    let station_name = match crate::ntes::group_of(STT_SUMMARY_PATTERN, html, 3) {
        Some(t) => t,
        None => return None,
    };
    let total = match crate::text::parse_unsigned(trim(count.as_str()), usize::MAX as u64) {
        Some(n) => n as usize,
        None => return None,
    };
    let marker = chars_of(ROW_MARKER);
    let link = chars_of(STT_ROW_LINK);
    proof {
        reveal_strlit("<tr");
    }
    let segs = split_str(chars_of(html).as_slice(), marker.as_slice());
    let ghost sv = string_views(segs@);
    let ghost f = |s: Seq<char>| timetable_row_of(s);
    let mut rows: Vec<TimetableTrain> = Vec::new();
    let mut i: usize = 0;
    proof {
        assert(sv.take(0) =~= Seq::<Seq<char>>::empty());
        assert(timetable_views(rows@) =~= Seq::<TimetableTrainV>::empty());
    }
    while i < segs.len()
        invariant
            0 <= i <= segs@.len(),
            sv == string_views(segs@),
            link@ == STT_ROW_LINK@,
            f == (|s: Seq<char>| timetable_row_of(s)),
            timetable_patterns_valid() ==> timetable_views(rows@) == rows_where(sv.take(i as int), STT_ROW_LINK@, f),
        decreases segs@.len() - i,
    {
        proof {
            assert(sv.take(i + 1).drop_last() =~= sv.take(i as int));
            assert(sv.take(i + 1).last() == segs@[i as int]@);
        }
        let seg = segs[i].as_str();
        if contains_chars(chars_of(seg).as_slice(), link.as_slice()) {
            if let Some(t) = timetable_row(seg) {
                let ghost old_rows = timetable_views(rows@);
                let ghost tv = t@;
                rows.push(t);
                proof {
                    assert(timetable_views(rows@) =~= old_rows.push(tv));
                }
            }
        }
        i = i + 1;
    }
    proof {
        assert(sv.take(segs@.len() as int) =~= sv);
    }
    if rows.len() == 0 {
        return None;
    }
    Some(
        StationTimetable {
            station,
            station_name: trim(station_name.as_str()).to_owned(),
            date: date.to_owned(),
            total,
            list: rows,
        },
    )
}

// ------------------------------------------------------------- average delay

/// Any HTML tag.
pub const TAG_PATTERN: &'static str = r"<[^>]+>";

/// The non-breaking space entity.
pub const NBSP: &'static str = "&nbsp;";

/// The header cell: train number and name.
pub const AD_HEADER_PATTERN: &'static str = r"<td[^>]*w3-blue[^>]*>[^<]*<span\s*>\s*(\d{4,5})\s+([^<]+?)\s*</span>";

/// The days of run.
pub const AD_DAYS_PATTERN: &'static str = r"Days of Run:\s*&nbsp;</span>\s*([^<]+?)\s*<";

/// The train's type.
pub const AD_TYPE_PATTERN: &'static str = r"Type:\s*&nbsp;</span>\s*<span>([^<]+?)</span>";

/// A delay in a cell.
pub const AD_DELAY_PATTERN: &'static str = r#"<font[^>]*color:\s*(?:green|red)[^>]*>\s*([^<]+?)\s*</font>"#;

/// What the station rows carry.
pub const AD_ROW_STYLE: &'static str = "font-size:small large";

/// What the heading row carries besides.
pub const AD_HEADING_STYLE: &'static str = "font-weight: bold";

/// Every pattern of the average-delay page compiles.
pub open spec fn delay_patterns_valid() -> bool {
    &&& regex_valid(TAG_PATTERN@)
    &&& regex_valid(AD_HEADER_PATTERN@)
    &&& regex_valid(AD_DAYS_PATTERN@)
    &&& regex_valid(AD_TYPE_PATTERN@)
    &&& regex_valid(AD_DELAY_PATTERN@)
}

/// Whether every pattern behind `delay_patterns_valid` compiles: the condition
/// the parsers' contracts rest on, checked at run time.
pub fn delay_patterns_ok() -> (r: bool)
    ensures
        r == delay_patterns_valid(),
{
    pattern_compiles(TAG_PATTERN)
        && pattern_compiles(AD_HEADER_PATTERN)
        && pattern_compiles(AD_DAYS_PATTERN)
        && pattern_compiles(AD_TYPE_PATTERN)
        && pattern_compiles(AD_DELAY_PATTERN)
}

/// A text without its `<` and `>` characters.
pub open spec fn drop_angles(s: Seq<char>) -> Seq<char>
    decreases s.len(),
{
    if s.len() == 0 {
        Seq::empty()
    } else if s.last() == '<' || s.last() == '>' {
        drop_angles(s.drop_last())
    } else {
        drop_angles(s.drop_last()).push(s.last())
    }
}

/// A piece of HTML as plain text: each tag made a space, each `&nbsp;` a
/// space, stray `<` and `>` dropped, and the words joined by single spaces.
pub open spec fn strip_tags_of(seg: Seq<char>) -> Seq<char> {
    let spaced = join_with(split_on(regex_replaced_of(TAG_PATTERN@, seg, " "@), NBSP@), " "@);
    join_with(words(drop_angles(spaced)), " "@)
}

/// The plain text of a cell: what follows the end of its opening tag.
pub open spec fn td_text_of(seg: Seq<char>) -> Seq<char> {
    strip_tags_of(after_first(seg, '>'))
}

/// A piece of HTML as plain text.
pub(crate) fn strip_tags(seg: &str) -> (r: String)
    ensures
        regex_valid(TAG_PATTERN@) ==> r@ == strip_tags_of(seg@),
{
    let replaced = replace_matches(TAG_PATTERN, seg, " ");
    let nb = chars_of(NBSP);
    proof {
        reveal_strlit("&nbsp;");
    }
    let parts = split_str(chars_of(replaced.as_str()).as_slice(), nb.as_slice());
    let mut spaced: Vec<char> = Vec::new();
    push_joined(&mut spaced, parts.as_slice(), " ");
    proof {
        assert(strings_view(parts@) =~= string_views(parts@));
        assert(spaced@ =~= join_with(split_on(replaced@, NBSP@), " "@));
    }
    let mut kept: Vec<char> = Vec::new();
    let mut i: usize = 0;
    while i < spaced.len()
        invariant
            0 <= i <= spaced@.len(),
            kept@ == drop_angles(spaced@.take(i as int)),
        decreases spaced@.len() - i,
    {
        let c = spaced[i];
        proof {
            assert(spaced@.take(i + 1).drop_last() =~= spaced@.take(i as int));
            assert(spaced@.take(i + 1).last() == c);
        }
        if c != '<' && c != '>' {
            kept.push(c);
        }
        i = i + 1;
    }
    proof {
        assert(spaced@.take(spaced@.len() as int) =~= spaced@);
    }
    let ws = split_words(string_of(kept.as_slice()).as_str());
    let mut out: Vec<char> = Vec::new();
    push_joined(&mut out, ws.as_slice(), " ");
    proof {
        assert(strings_view(ws@) =~= texts(ws@));
        assert(out@ =~= join_with(words(kept@), " "@));
    }
    string_of(out.as_slice())
}

/// The plain text of a cell.
fn td_text(seg: &str) -> (r: String)
    ensures
        regex_valid(TAG_PATTERN@) ==> r@ == td_text_of(seg@),
{
    let v = chars_of(seg);
    let n = v.len();
    match find_char(v.as_slice(), '>') {
        Some(k) => {
            assert(k < n);
            let rest = string_of_range(v.as_slice(), k + 1, n);
            strip_tags(rest.as_str())
        },
        None => strip_tags(seg),
    }
}

/// A station row of a train's average delays.
#[derive(Debug, Clone)]
pub struct DelayRow {
    pub sr: String,
    pub name: String,
    pub code: String,
    pub arrival_delay: String,
    pub departure_delay: String,
}

/// A delay row as plain values.
pub struct DelayRowV {
    pub sr: Seq<char>,
    pub name: Seq<char>,
    pub code: Seq<char>,
    pub arrival_delay: Seq<char>,
    pub departure_delay: Seq<char>,
}

impl View for DelayRow {
    type V = DelayRowV;

    open spec fn view(&self) -> DelayRowV {
        DelayRowV {
            sr: self.sr@,
            name: self.name@,
            code: self.code@,
            arrival_delay: self.arrival_delay@,
            departure_delay: self.departure_delay@,
        }
    }
}

/// Delay rows as plain values.
pub open spec fn delay_views(v: Seq<DelayRow>) -> Seq<DelayRowV> {
    v.map_values(|t: DelayRow| t@)
}

/// A train's average delays at its stations.
#[derive(Debug, Clone)]
pub struct AverageDelay {
    pub train_no: String,
    pub train_name: String,
    pub days_of_run: String,
    pub train_type: String,
    pub list: Vec<DelayRow>,
}

/// A train's average delays as plain values.
pub struct AverageDelayV {
    pub train_no: Seq<char>,
    pub train_name: Seq<char>,
    pub days_of_run: Seq<char>,
    pub train_type: Seq<char>,
    pub list: Seq<DelayRowV>,
}

impl View for AverageDelay {
    type V = AverageDelayV;

    open spec fn view(&self) -> AverageDelayV {
        AverageDelayV {
            train_no: self.train_no@,
            train_name: self.train_name@,
            days_of_run: self.days_of_run@,
            train_type: self.train_type@,
            list: delay_views(self.list@),
        }
    }
}

/// One station row: five cells, the first a serial number of ASCII digits.
pub open spec fn delay_row_of(seg: Seq<char>) -> Option<DelayRowV> {
    let cells = split_on(seg, CELL_MARKER@).drop_first();
    if cells.len() < 5 {
        None
    } else {
        let sr = td_text_of(cells[0]);
        if sr.len() == 0 || !all_digits(sr) {
            None
        } else {
            Some(
                DelayRowV {
                    sr,
                    name: td_text_of(cells[1]),
                    code: td_text_of(cells[2]),
                    arrival_delay: or_empty(match1_of(AD_DELAY_PATTERN@, cells[3])),
                    departure_delay: or_empty(match1_of(AD_DELAY_PATTERN@, cells[4])),
                },
            )
        }
    }
}

/// The station rows read out of the pieces with the row style and without
/// the heading style.
pub open spec fn delay_rows(segs: Seq<Seq<char>>) -> Seq<DelayRowV>
    decreases segs.len(),
{
    if segs.len() == 0 {
        Seq::empty()
    } else {
        let r = delay_rows(segs.drop_last());
        let s = segs.last();
        if has_infix(s, AD_ROW_STYLE@) && !has_infix(s, AD_HEADING_STYLE@) {
            match delay_row_of(s) {
                Some(x) => r.push(x),
                None => r,
            }
        } else {
            r
        }
    }
}

/// The average-delay page: the header (required), days of run, type, and
/// the station rows (at least one).
pub open spec fn average_delay_of(html: Seq<char>) -> Option<AverageDelayV> {
    match (regex_group_of(AD_HEADER_PATTERN@, html, 1), regex_group_of(AD_HEADER_PATTERN@, html, 2)) {
        (Some(n), Some(nm)) => {
            let list = delay_rows(split_on(html, ROW_MARKER@));
            if list.len() == 0 {
                None
            } else {
                Some(
                    AverageDelayV {
                        train_no: n,
                        train_name: trim_seq(nm),
                        days_of_run: or_empty(match1_of(AD_DAYS_PATTERN@, html)),
                        train_type: or_empty(match1_of(AD_TYPE_PATTERN@, html)),
                        list,
                    },
                )
            }
        },
        _ => None,
    }
}

/// One station row of the average-delay page.
fn delay_row(seg: &str) -> (r: Option<DelayRow>)
    ensures
        delay_patterns_valid() ==> match r {
            Some(t) => delay_row_of(seg@) == Some(t@),
            None => delay_row_of(seg@) is None,
        },
{
    let marker = chars_of(CELL_MARKER);
    proof {
        reveal_strlit("<td");
    }
    let parts = split_str(chars_of(seg).as_slice(), marker.as_slice());
    let ghost cells = string_views(parts@).drop_first();
    if parts.len() < 6 {
        return None;
    }
    proof {
        assert(cells[0] == parts@[1]@);
        assert(cells[1] == parts@[2]@);
        assert(cells[2] == parts@[3]@);
        assert(cells[3] == parts@[4]@);
        assert(cells[4] == parts@[5]@);
    }
    let sr = td_text(parts[1].as_str());
    let sv = chars_of(sr.as_str());
    if sv.len() == 0 || !chars_all_digits(sv.as_slice()) {
        return None;
    }
    Some(
        DelayRow {
            sr,
            name: td_text(parts[2].as_str()),
            code: td_text(parts[3].as_str()),
            arrival_delay: text_or_empty(match_one(AD_DELAY_PATTERN, parts[4].as_str())),
            departure_delay: text_or_empty(match_one(AD_DELAY_PATTERN, parts[5].as_str())),
        },
    )
}

/// A train's average-delay page, or `None` where it has no header or no
/// station row.
pub fn parse_average_delay(html: &str) -> (r: Option<AverageDelay>)
    ensures
        delay_patterns_valid() ==> match r {
            Some(t) => average_delay_of(html@) == Some(t@),
            None => average_delay_of(html@) is None,
        },
{
    let train_no = match crate::ntes::group_of(AD_HEADER_PATTERN, html, 1) {
        Some(t) => t,
        None => return None,
    };
    let train_name = match crate::ntes::group_of(AD_HEADER_PATTERN, html, 2) {
        Some(t) => t,
        None => return None,
    };
    let days_of_run = text_or_empty(match_one(AD_DAYS_PATTERN, html));
    let train_type = text_or_empty(match_one(AD_TYPE_PATTERN, html));
    let marker = chars_of(ROW_MARKER);
    let style = chars_of(AD_ROW_STYLE);
    let heading = chars_of(AD_HEADING_STYLE);
    proof {
        reveal_strlit("<tr");
    }
    let segs = split_str(chars_of(html).as_slice(), marker.as_slice());
    let ghost sv = string_views(segs@);
    let mut rows: Vec<DelayRow> = Vec::new();
    let mut i: usize = 0;
    proof {
        assert(sv.take(0) =~= Seq::<Seq<char>>::empty());
        assert(delay_views(rows@) =~= Seq::<DelayRowV>::empty());
    }
    while i < segs.len()
        invariant
            0 <= i <= segs@.len(),
            sv == string_views(segs@),
            style@ == AD_ROW_STYLE@,
            heading@ == AD_HEADING_STYLE@,
            delay_patterns_valid() ==> delay_views(rows@) == delay_rows(sv.take(i as int)),
        decreases segs@.len() - i,
    {
        proof {
            assert(sv.take(i + 1).drop_last() =~= sv.take(i as int));
            assert(sv.take(i + 1).last() == segs@[i as int]@);
        }
        let seg = segs[i].as_str();
        let cv = chars_of(seg);
        if contains_chars(cv.as_slice(), style.as_slice()) && !contains_chars(cv.as_slice(), heading.as_slice()) {
            if let Some(t) = delay_row(seg) {
                let ghost old_rows = delay_views(rows@);
                let ghost tv = t@;
                rows.push(t);
                proof {
                    assert(delay_views(rows@) =~= old_rows.push(tv));
                }
            }
        }
        i = i + 1;
    }
    proof {
        assert(sv.take(segs@.len() as int) =~= sv);
    }
    if rows.len() == 0 {
        return None;
    }
    Some(
        AverageDelay {
            train_no,
            train_name: trim(train_name.as_str()).to_owned(),
            days_of_run,
            train_type,
            list: rows,
        },
    )
}

// ------------------------------------------------------------ parcel specials

/// The train number in the row's button.
pub const PARCEL_NO_PATTERN: &'static str = r#"onTrainInputByFindP\('(\d{4,5})'"#;

/// The train's name after the button.
pub const PARCEL_NAME_PATTERN: &'static str = r"</button>\s*&nbsp;<b>\s*([^<]+?)\s*</b>";

/// The route line.
pub const PARCEL_ROUTE_PATTERN: &'static str = r"<br/>\s*([^<]+?)\s*(?:<br|<div)";

/// The validity: from and to.
pub const PARCEL_VALIDITY_PATTERN: &'static str = r"Validity : <b>([^<]+)</b> To <b>([^<]+)</b>";

/// The days of run.
pub const PARCEL_DAYS_PATTERN: &'static str = r"Days of Run : <b>([^<]+)</b>";

/// A leg end: station code and time.
pub const PARCEL_LEG_PATTERN: &'static str = r"<b>([A-Z0-9]{2,6}) - (\d{1,2}:\d{2})</b>";

/// The travel time.
pub const PARCEL_TRAVEL_PATTERN: &'static str = r"Travel Time:\s*&nbsp;<b>(\d{1,2}:\d{2})\s*Hrs\.</b>";

/// What every parcel row carries.
pub const PARCEL_ROW_LINK: &'static str = "onTrainInputByFindP";

/// Every pattern of the parcel page compiles.
pub open spec fn parcel_patterns_valid() -> bool {
    &&& regex_valid(PARCEL_NO_PATTERN@)
    &&& regex_valid(PARCEL_NAME_PATTERN@)
    &&& regex_valid(PARCEL_ROUTE_PATTERN@)
    &&& regex_valid(PARCEL_VALIDITY_PATTERN@)
    &&& regex_valid(PARCEL_DAYS_PATTERN@)
    &&& regex_valid(PARCEL_LEG_PATTERN@)
    &&& regex_valid(PARCEL_TRAVEL_PATTERN@)
}

/// Whether every pattern behind `parcel_patterns_valid` compiles: the condition
/// the parsers' contracts rest on, checked at run time.
pub fn parcel_patterns_ok() -> (r: bool)
    ensures
        r == parcel_patterns_valid(),
{
    pattern_compiles(PARCEL_NO_PATTERN)
        && pattern_compiles(PARCEL_NAME_PATTERN)
        && pattern_compiles(PARCEL_ROUTE_PATTERN)
        && pattern_compiles(PARCEL_VALIDITY_PATTERN)
        && pattern_compiles(PARCEL_DAYS_PATTERN)
        && pattern_compiles(PARCEL_LEG_PATTERN)
        && pattern_compiles(PARCEL_TRAVEL_PATTERN)
}

/// A parcel special train.
#[derive(Debug, Clone)]
pub struct ParcelTrain {
    pub train_no: String,
    pub train_name: String,
    pub route: String,
    pub validity_from: String,
    pub validity_to: String,
    pub days_of_run: String,
    pub src_code: String,
    pub src_time: String,
    pub dst_code: String,
    pub dst_time: String,
    pub travel_time: String,
}

/// A parcel special as plain values.
pub struct ParcelTrainV {
    pub train_no: Seq<char>,
    pub train_name: Seq<char>,
    pub route: Seq<char>,
    pub validity_from: Seq<char>,
    pub validity_to: Seq<char>,
    pub days_of_run: Seq<char>,
    pub src_code: Seq<char>,
    pub src_time: Seq<char>,
    pub dst_code: Seq<char>,
    pub dst_time: Seq<char>,
    pub travel_time: Seq<char>,
}

impl View for ParcelTrain {
    type V = ParcelTrainV;

    open spec fn view(&self) -> ParcelTrainV {
        ParcelTrainV {
            train_no: self.train_no@,
            train_name: self.train_name@,
            route: self.route@,
            validity_from: self.validity_from@,
            validity_to: self.validity_to@,
            days_of_run: self.days_of_run@,
            src_code: self.src_code@,
            src_time: self.src_time@,
            dst_code: self.dst_code@,
            dst_time: self.dst_time@,
            travel_time: self.travel_time@,
        }
    }
}

/// Parcel specials as plain values.
pub open spec fn parcel_views(v: Seq<ParcelTrain>) -> Seq<ParcelTrainV> {
    v.map_values(|t: ParcelTrain| t@)
}

/// One parcel row: its number and validity (required), name, route, days,
/// the first two leg ends (code and time) and the travel time.
pub open spec fn parcel_row_of(seg: Seq<char>) -> Option<ParcelTrainV> {
    match (
        match1_of(PARCEL_NO_PATTERN@, seg),
        regex_group_of(PARCEL_VALIDITY_PATTERN@, seg, 1),
        regex_group_of(PARCEL_VALIDITY_PATTERN@, seg, 2),
    ) {
        (Some(n), Some(from), Some(to)) => {
            let codes = regex_groups_of(PARCEL_LEG_PATTERN@, seg, 1);
            let times = regex_groups_of(PARCEL_LEG_PATTERN@, seg, 2);
            Some(
                ParcelTrainV {
                    train_no: n,
                    train_name: or_empty(match1_of(PARCEL_NAME_PATTERN@, seg)),
                    route: or_empty(match1_of(PARCEL_ROUTE_PATTERN@, seg)),
                    validity_from: trim_seq(from),
                    validity_to: trim_seq(to),
                    days_of_run: or_empty(match1_of(PARCEL_DAYS_PATTERN@, seg)),
                    src_code: nth_group(codes, 0),
                    src_time: nth_group(times, 0),
                    dst_code: nth_group(codes, 1),
                    dst_time: nth_group(times, 1),
                    travel_time: or_empty(match1_of(PARCEL_TRAVEL_PATTERN@, seg)),
                },
            )
        },
        _ => None,
    }
}

/// The parcel specials of the page; none where no row reads as one.
pub open spec fn parcel_of(html: Seq<char>) -> Option<Seq<ParcelTrainV>> {
    let r = rows_where(split_on(html, ROW_MARKER@), PARCEL_ROW_LINK@, |s: Seq<char>| parcel_row_of(s));
    if r.len() == 0 {
        None
    } else {
        Some(r)
    }
}

/// One parcel row.
fn parcel_row(seg: &str) -> (r: Option<ParcelTrain>)
    ensures
        parcel_patterns_valid() ==> match r {
            Some(t) => parcel_row_of(seg@) == Some(t@),
            None => parcel_row_of(seg@) is None,
        },
{
    let number = match match_one(PARCEL_NO_PATTERN, seg) {
        Some(n) => n,
        None => return None,
    };
    let from = match group_of(PARCEL_VALIDITY_PATTERN, seg, 1) {
        Some(t) => t,
        None => return None,
    };
    let to = match group_of(PARCEL_VALIDITY_PATTERN, seg, 2) {
        Some(t) => t,
        None => return None,
    };
    let codes = groups_of(PARCEL_LEG_PATTERN, seg, 1);
    let times = groups_of(PARCEL_LEG_PATTERN, seg, 2);
    Some(
        ParcelTrain {
            train_no: number,
            train_name: text_or_empty(match_one(PARCEL_NAME_PATTERN, seg)),
            route: text_or_empty(match_one(PARCEL_ROUTE_PATTERN, seg)),
            validity_from: trim(from.as_str()).to_owned(),
            validity_to: trim(to.as_str()).to_owned(),
            days_of_run: text_or_empty(match_one(PARCEL_DAYS_PATTERN, seg)),
            src_code: nth_trimmed(&codes, 0),
            src_time: nth_trimmed(&times, 0),
            dst_code: nth_trimmed(&codes, 1),
            dst_time: nth_trimmed(&times, 1),
            travel_time: text_or_empty(match_one(PARCEL_TRAVEL_PATTERN, seg)),
        },
    )
}

/// The parcel specials of the page, or `None` where no row reads as one.
pub fn parse_parcel(html: &str) -> (r: Option<Vec<ParcelTrain>>)
    ensures
        parcel_patterns_valid() ==> match r {
            Some(v) => parcel_of(html@) == Some(parcel_views(v@)),
            None => parcel_of(html@) is None,
        },
{
    let marker = chars_of(ROW_MARKER);
    let link = chars_of(PARCEL_ROW_LINK);
    proof {
        reveal_strlit("<tr");
    }
    let segs = split_str(chars_of(html).as_slice(), marker.as_slice());
    let ghost sv = string_views(segs@);
    let ghost f = |s: Seq<char>| parcel_row_of(s);
    let mut rows: Vec<ParcelTrain> = Vec::new();
    let mut i: usize = 0;
    proof {
        assert(sv.take(0) =~= Seq::<Seq<char>>::empty());
        assert(parcel_views(rows@) =~= Seq::<ParcelTrainV>::empty());
    }
    while i < segs.len()
        invariant
            0 <= i <= segs@.len(),
            sv == string_views(segs@),
            link@ == PARCEL_ROW_LINK@,
            f == (|s: Seq<char>| parcel_row_of(s)),
            parcel_patterns_valid() ==> parcel_views(rows@) == rows_where(sv.take(i as int), PARCEL_ROW_LINK@, f),
        decreases segs@.len() - i,
    {
        proof {
            assert(sv.take(i + 1).drop_last() =~= sv.take(i as int));
            assert(sv.take(i + 1).last() == segs@[i as int]@);
        }
        let seg = segs[i].as_str();
        if contains_chars(chars_of(seg).as_slice(), link.as_slice()) {
            if let Some(t) = parcel_row(seg) {
                let ghost old_rows = parcel_views(rows@);
                let ghost tv = t@;
                rows.push(t);
                proof {
                    assert(parcel_views(rows@) =~= old_rows.push(tv));
                }
            }
        }
        i = i + 1;
    }
    proof {
        assert(sv.take(segs@.len() as int) =~= sv);
    }
    if rows.len() == 0 {
        None
    } else {
        Some(rows)
    }
}

// ------------------------------------------------------------ heritage trains

/// The summary: how many trains and which selection.
pub const HT_SUMMARY_PATTERN: &'static str = r#"<font class="bluehead"><b>(\d+)\s+([^<]+)</b></font>"#;

/// The head of a train row: number and name. Rows nest tables of their own,
/// so a row runs from one head to the next.
pub const HT_HEAD_PATTERN: &'static str = r#"<span style="padding-left: 10px;"><b>(\d{4,5})</b>\s*&nbsp;&nbsp;\s*([^<]+)</span>"#;

/// The `runs | type` line.
pub const HT_RUNS_PATTERN: &'static str = r#"<span style="padding-left: 10px;">([^<]+)</span>"#;

/// An end station: time, name and code.
pub const HT_STN_PATTERN: &'static str = r"<b>(\d{2}:\d{2})</b>\s*<br>\s*([^<]+?)\s*<br>\s*<b>([A-Z0-9]{2,6})</b>";

/// The journey's duration.
pub const HT_DUR_PATTERN: &'static str = r"--(\d{1,2}:\d{2})\s*Hrs\.--";

/// Every pattern of the heritage page compiles.
pub open spec fn heritage_patterns_valid() -> bool {
    &&& regex_valid(HT_SUMMARY_PATTERN@)
    &&& regex_valid(HT_HEAD_PATTERN@)
    &&& regex_valid(HT_RUNS_PATTERN@)
    &&& regex_valid(HT_STN_PATTERN@)
    &&& regex_valid(HT_DUR_PATTERN@)
}

/// Whether every pattern behind `heritage_patterns_valid` compiles: the condition
/// the parsers' contracts rest on, checked at run time.
pub fn heritage_patterns_ok() -> (r: bool)
    ensures
        r == heritage_patterns_valid(),
{
    pattern_compiles(HT_SUMMARY_PATTERN)
        && pattern_compiles(HT_HEAD_PATTERN)
        && pattern_compiles(HT_RUNS_PATTERN)
        && pattern_compiles(HT_STN_PATTERN)
        && pattern_compiles(HT_DUR_PATTERN)
}

/// A heritage train.
#[derive(Debug, Clone)]
pub struct HeritageTrain {
    pub train_no: String,
    pub train_name: String,
    pub runs: String,
    pub train_type: String,
    pub src_time: String,
    pub src_station: String,
    pub src_code: String,
    pub duration: String,
    pub dst_time: String,
    pub dst_station: String,
    pub dst_code: String,
}

/// A heritage train as plain values.
pub struct HeritageTrainV {
    pub train_no: Seq<char>,
    pub train_name: Seq<char>,
    pub runs: Seq<char>,
    pub train_type: Seq<char>,
    pub src_time: Seq<char>,
    pub src_station: Seq<char>,
    pub src_code: Seq<char>,
    pub duration: Seq<char>,
    pub dst_time: Seq<char>,
    pub dst_station: Seq<char>,
    pub dst_code: Seq<char>,
}

impl View for HeritageTrain {
    type V = HeritageTrainV;

    open spec fn view(&self) -> HeritageTrainV {
        HeritageTrainV {
            train_no: self.train_no@,
            train_name: self.train_name@,
            runs: self.runs@,
            train_type: self.train_type@,
            src_time: self.src_time@,
            src_station: self.src_station@,
            src_code: self.src_code@,
            duration: self.duration@,
            dst_time: self.dst_time@,
            dst_station: self.dst_station@,
            dst_code: self.dst_code@,
        }
    }
}

/// Heritage trains as plain values.
pub open spec fn heritage_views(v: Seq<HeritageTrain>) -> Seq<HeritageTrainV> {
    v.map_values(|t: HeritageTrain| t@)
}

/// The heritage page: the selection named in its summary, the count it
/// states, and its trains.
#[derive(Debug, Clone)]
pub struct Heritage {
    pub selection: String,
    pub total: usize,
    pub list: Vec<HeritageTrain>,
}

/// The heritage page as plain values.
pub struct HeritageV {
    pub selection: Seq<char>,
    pub total: usize,
    pub list: Seq<HeritageTrainV>,
}

impl View for Heritage {
    type V = HeritageV;

    open spec fn view(&self) -> HeritageV {
        HeritageV { selection: self.selection@, total: self.total, list: heritage_views(self.list@) }
    }
}

/// The `runs | type` line split at its first `|`, both sides trimmed; empty
/// where the line is missing or has no `|`.
pub open spec fn runs_and_type(seg: Seq<char>) -> (Seq<char>, Seq<char>) {
    match match1_of(HT_RUNS_PATTERN@, seg) {
        Some(s) => if crate::text::first_index_of(s, '|') is Some {
            bar_sides(s)
        } else {
            (Seq::empty(), Seq::empty())
        },
        None => (Seq::empty(), Seq::empty()),
    }
}

/// One heritage row: number and name (required), runs and type, the first
/// two end stations (at least one), and the duration.
pub open spec fn heritage_row_of(seg: Seq<char>) -> Option<HeritageTrainV> {
    match (regex_group_of(HT_HEAD_PATTERN@, seg, 1), regex_group_of(HT_HEAD_PATTERN@, seg, 2)) {
        (Some(n), Some(nm)) => {
            let times = regex_groups_of(HT_STN_PATTERN@, seg, 1);
            let names = regex_groups_of(HT_STN_PATTERN@, seg, 2);
            let codes = regex_groups_of(HT_STN_PATTERN@, seg, 3);
            if times.len() == 0 {
                None
            } else {
                Some(
                    HeritageTrainV {
                        train_no: n,
                        train_name: trim_seq(nm),
                        runs: runs_and_type(seg).0,
                        train_type: runs_and_type(seg).1,
                        src_time: nth_group(times, 0),
                        src_station: nth_group(names, 0),
                        src_code: nth_group(codes, 0),
                        duration: or_empty(match1_of(HT_DUR_PATTERN@, seg)),
                        dst_time: nth_group(times, 1),
                        dst_station: nth_group(names, 1),
                        dst_code: nth_group(codes, 1),
                    },
                )
            }
        },
        _ => None,
    }
}

/// The row that starts at the `i`-th head: the head itself and the text up
/// to the next head (or the end of the page).
pub open spec fn heritage_segment(heads: Seq<Option<Seq<char>>>, pieces: Seq<Seq<char>>, i: int) -> Seq<char> {
    or_empty(heads[i]) + (if i + 1 < pieces.len() {
        pieces[i + 1]
    } else {
        Seq::empty()
    })
}

/// The rows read out of the first `n` segments, in order.
pub open spec fn heritage_rows(heads: Seq<Option<Seq<char>>>, pieces: Seq<Seq<char>>, n: int) -> Seq<HeritageTrainV>
    decreases n,
{
    if n <= 0 {
        Seq::empty()
    } else {
        let r = heritage_rows(heads, pieces, n - 1);
        match heritage_row_of(heritage_segment(heads, pieces, n - 1)) {
            Some(x) => r.push(x),
            None => r,
        }
    }
}

/// The heritage page: the summary (required, with a count that fits
/// `usize`) and the trains read (at least one).
pub open spec fn heritage_of(html: Seq<char>) -> Option<HeritageV> {
    match (regex_group_of(HT_SUMMARY_PATTERN@, html, 1), regex_group_of(HT_SUMMARY_PATTERN@, html, 2)) {
        (Some(t), Some(sel)) => match crate::text::parsed_unsigned(trim_seq(t), usize::MAX as nat) {
            Some(total) => {
                let heads = regex_groups_of(HT_HEAD_PATTERN@, html, 0);
                let list = heritage_rows(heads, regex_split_of(HT_HEAD_PATTERN@, html), heads.len() as int);
                if list.len() == 0 {
                    None
                } else {
                    Some(HeritageV { selection: trim_seq(sel), total: total as usize, list })
                }
            },
            None => None,
        },
        _ => None,
    }
}

/// One heritage row.
fn heritage_row(seg: &str) -> (r: Option<HeritageTrain>)
    ensures
        heritage_patterns_valid() ==> match r {
            Some(t) => heritage_row_of(seg@) == Some(t@),
            None => heritage_row_of(seg@) is None,
        },
{
    let number = match group_of(HT_HEAD_PATTERN, seg, 1) {
        Some(n) => n,
        None => return None,
    };
    let name = match group_of(HT_HEAD_PATTERN, seg, 2) {
        Some(n) => n,
        None => return None,
    };
    let (runs, train_type) = match match_one(HT_RUNS_PATTERN, seg) {
        Some(s) => {
            if find_char(chars_of(s.as_str()).as_slice(), '|').is_some() {
                split_bar(s.as_str())
            } else {
                (String::new(), String::new())
            }
        },
        None => (String::new(), String::new()),
    };
    let times = groups_of(HT_STN_PATTERN, seg, 1);
    let names = groups_of(HT_STN_PATTERN, seg, 2);
    let codes = groups_of(HT_STN_PATTERN, seg, 3);
    if times.len() == 0 {
        return None;
    }
    Some(
        HeritageTrain {
            train_no: number,
            train_name: trim(name.as_str()).to_owned(),
            runs,
            train_type,
            src_time: nth_trimmed(&times, 0),
            src_station: nth_trimmed(&names, 0),
            src_code: nth_trimmed(&codes, 0),
            duration: text_or_empty(match_one(HT_DUR_PATTERN, seg)),
            dst_time: nth_trimmed(&times, 1),
            dst_station: nth_trimmed(&names, 1),
            dst_code: nth_trimmed(&codes, 1),
        },
    )
}

/// The heritage page, or `None` where it has no summary or no row reads as
/// a train.
pub fn parse_heritage(html: &str) -> (r: Option<Heritage>)
    ensures
        heritage_patterns_valid() ==> match r {
            Some(t) => heritage_of(html@) == Some(t@),
            None => heritage_of(html@) is None,
        },
{
    let count = match group_of(HT_SUMMARY_PATTERN, html, 1) {
        Some(t) => t,
        None => return None,
    };
    let selection = match group_of(HT_SUMMARY_PATTERN, html, 2) {
        Some(t) => t,
        None => return None,
    };
    let total = match crate::text::parse_unsigned(trim(count.as_str()), usize::MAX as u64) {
        Some(n) => n as usize,
        None => return None,
    };
    let heads = groups_of(HT_HEAD_PATTERN, html, 0);
    let pieces = split_by(HT_HEAD_PATTERN, html);
    let ghost hv = opt_views(heads@);
    let ghost pv = string_views(pieces@);
    let mut rows: Vec<HeritageTrain> = Vec::new();
    let mut i: usize = 0;
    proof {
        assert(heritage_views(rows@) =~= Seq::<HeritageTrainV>::empty());
    }
    while i < heads.len()
        invariant
            0 <= i <= heads@.len(),
            hv == opt_views(heads@),
            pv == string_views(pieces@),
            heritage_patterns_valid() ==> heritage_views(rows@) == heritage_rows(hv, pv, i as int),
        decreases heads@.len() - i,
    {
        let mut seg: Vec<char> = Vec::new();
        match &heads[i] {
            Some(h) => crate::text::push_str(&mut seg, h.as_str()),
            None => {},
        }
        if i + 1 < pieces.len() {
            crate::text::push_str(&mut seg, pieces[i + 1].as_str());
        }
        proof {
            assert(seg@ =~= heritage_segment(hv, pv, i as int));
        }
        let s = string_of(seg.as_slice());
        if let Some(t) = heritage_row(s.as_str()) {
            let ghost old_rows = heritage_views(rows@);
            let ghost tv = t@;
            rows.push(t);
            proof {
                assert(heritage_views(rows@) =~= old_rows.push(tv));
            }
        }
        i = i + 1;
    }
    if rows.len() == 0 {
        return None;
    }
    Some(Heritage { selection: trim(selection.as_str()).to_owned(), total, list: rows })
}

} // verus!
