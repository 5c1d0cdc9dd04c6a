//! The spot-train popup: one tab per run of the train (by start date), each
//! with its position banner and its station-by-station timeline. The active
//! run gives the train's present state; every run is kept as an instance
//! with its own stops and position.
use vstd::prelude::*;
use crate::ntes::boards::{drop_angles, strip_tags, strip_tags_of, TAG_PATTERN};
use crate::data::words;
use crate::ntes::maps::{nth_match, nth_or_empty};
use crate::ntes::{pattern_compiles, 
    badge_minutes, badge_of, group_of, groups_of, hhmm, is_real_time, match1_of, match_one, opt_view, opt_views, or_empty,
    real_time, regex_group_of, regex_groups_of, regex_replaced_of, regex_split_of, regex_splitn_of, regex_valid, split_by,
    splitn_by,
    BADGE_COLON_PATTERN, BADGE_HOURS_PATTERN, BADGE_MINUTES_PATTERN, TIME_PATTERN,
};
use crate::text::{
    ascii_upper, before_first, chars_of, contains_chars, find_char, find_from, has_infix, is_alnum, is_digit,
    lemma_occurrence_from, lower_chars, lower_seq, occurrence_from, push_str, split_on, split_str, str_eq, string_of,
    string_of_range, string_views, trim, trim_seq, upper_char, is_ws, join_with,
};

verus! {

/// Number and name of the train.
pub const TS_HEADER_PATTERN: &'static str = r"<h3>\s*(\d{4,5})\s+([^<]+?)\s*</h3>";

/// The tab of one run: its class (`active` or none) and its id.
pub const TS_PANE_PATTERN: &'static str = r#"<div class="tab-pane ?(\w*)" id="(train[\w-]+)""#;

/// The start date in a tab id (`train14-aug-2026`).
pub const TS_DATE_PATTERN: &'static str = r"train(\d+)-(\w+)-(\d{4})";

/// The status heading of a run.
pub const TS_H6_PATTERN: &'static str = r"<h6[^>]*>([\s\S]*?)</h6>";

/// The opening of the current-position banner.
pub const TS_CURRPOS_PATTERN: &'static str = r#"id="currPos[^"]*">"#;

/// The card that opens each block of the timeline.
pub const TS_BLOCK_PATTERN: &'static str = r#"class=" w3-card-2(?: w3-sand)?"#;

/// The station's name in a block.
pub const TS_NAME_PATTERN: &'static str = r#"<span><font size="1"><b>([^<]+)</b><br>"#;

/// The station's code and its platform.
pub const TS_CODE_PATTERN: &'static str = r#"<b>([A-Z][A-Z0-9]{1,5})\s*(?:<span class="w3-round w3-orange"[^>]*>\s*PF\s*([\w*]+)\s*</span>\s*)?</b>"#;

/// The actual time of a column and its delay badge.
pub const TS_ACTUAL_PATTERN: &'static str = r#"color="(green|red)"\s*>[\s\S]*?<b>([^<]+)</b>[\s\S]*?w3-round w3-(green|red)"[^>]*>([^<]+)</span>"#;

/// The scheduled time of a column.
pub const TS_SCH_PATTERN: &'static str = r#"<b><font size="1"[^>]*>([^<]+)</font></b>"#;

/// Where the arrival column starts.
pub const TS_LEFT_COL_PATTERN: &'static str = r#"style="float:left;width:100px;text-align:right;">"#;

/// Where the arrival column ends.
pub const TS_TRACK_PATTERN: &'static str = r#"<div class="w3-bar-block"#;

/// Where the departure column starts.
pub const TS_DEP_COL_PATTERN: &'static str = r#"style="float:right;text-align:right;">"#;

/// Where the departure column ends.
pub const TS_DEP_END_PATTERN: &'static str = r"</div>";

/// The class of the active tab.
pub const ACTIVE: &'static str = "active";

/// The banner of a run that has not started.
pub const YET_TO_START: &'static str = "yet to start";

/// The banner after the train left a station.
pub const DEPARTED_FROM: &'static str = "Departed from";

/// The banner when the train is at a station.
pub const ARRIVED_AT: &'static str = "Arrived at";

/// What marks the position banner's blocks.
pub const CURRPOS_MARK: &'static str = "currPos";

/// What marks the position banner's card.
pub const SAND_MARK: &'static str = "w3-sand";

/// Where the status comes from.
pub const DATA_SOURCE: &'static str = "NTES";

/// Every pattern of the popup compiles.
pub open spec fn status_patterns_valid() -> bool {
    &&& regex_valid(TS_HEADER_PATTERN@)
    &&& regex_valid(TS_PANE_PATTERN@)
    &&& regex_valid(TS_DATE_PATTERN@)
    &&& regex_valid(TS_H6_PATTERN@)
    &&& regex_valid(TS_CURRPOS_PATTERN@)
    &&& regex_valid(TS_BLOCK_PATTERN@)
    &&& regex_valid(TS_NAME_PATTERN@)
    &&& regex_valid(TS_CODE_PATTERN@)
    &&& regex_valid(TS_ACTUAL_PATTERN@)
    &&& regex_valid(TS_SCH_PATTERN@)
    &&& regex_valid(TS_LEFT_COL_PATTERN@)
    &&& regex_valid(TS_TRACK_PATTERN@)
    &&& regex_valid(TS_DEP_COL_PATTERN@)
    &&& regex_valid(TS_DEP_END_PATTERN@)
    &&& regex_valid(TAG_PATTERN@)
    &&& regex_valid(TIME_PATTERN@)
    &&& regex_valid(BADGE_COLON_PATTERN@)
    &&& regex_valid(BADGE_HOURS_PATTERN@)
    &&& regex_valid(BADGE_MINUTES_PATTERN@)
}

/// Whether every pattern behind `status_patterns_valid` compiles: the condition
/// the parsers' contracts rest on, checked at run time.
pub fn status_patterns_ok() -> (r: bool)
    ensures
        r == status_patterns_valid(),
{
    pattern_compiles(TS_HEADER_PATTERN)
        && pattern_compiles(TS_PANE_PATTERN)
        && pattern_compiles(TS_DATE_PATTERN)
        && pattern_compiles(TS_H6_PATTERN)
        && pattern_compiles(TS_CURRPOS_PATTERN)
        && pattern_compiles(TS_BLOCK_PATTERN)
        && pattern_compiles(TS_NAME_PATTERN)
        && pattern_compiles(TS_CODE_PATTERN)
        && pattern_compiles(TS_ACTUAL_PATTERN)
        && pattern_compiles(TS_SCH_PATTERN)
        && pattern_compiles(TS_LEFT_COL_PATTERN)
        && pattern_compiles(TS_TRACK_PATTERN)
        && pattern_compiles(TS_DEP_COL_PATTERN)
        && pattern_compiles(TS_DEP_END_PATTERN)
        && pattern_compiles(TAG_PATTERN)
        && pattern_compiles(TIME_PATTERN)
        && pattern_compiles(BADGE_COLON_PATTERN)
        && pattern_compiles(BADGE_HOURS_PATTERN)
        && pattern_compiles(BADGE_MINUTES_PATTERN)
}

// ------------------------------------------------------------------ one stop

/// A station of a run's timeline.
#[derive(Debug, Clone)]
pub struct TrainStop {
    pub name: String,
    pub code: String,
    pub platform: String,
    pub scheduled_arrival: String,
    pub actual_arrival: String,
    pub delay_minutes: i64,
}

/// A station of a timeline as plain values.
pub struct TrainStopV {
    pub name: Seq<char>,
    pub code: Seq<char>,
    pub platform: Seq<char>,
    pub scheduled_arrival: Seq<char>,
    pub actual_arrival: Seq<char>,
    pub delay_minutes: i64,
}

impl View for TrainStop {
    type V = TrainStopV;

    open spec fn view(&self) -> TrainStopV {
        TrainStopV {
            name: self.name@,
            code: self.code@,
            platform: self.platform@,
            scheduled_arrival: self.scheduled_arrival@,
            actual_arrival: self.actual_arrival@,
            delay_minutes: self.delay_minutes,
        }
    }
}

/// Stations of a timeline as plain values.
pub open spec fn stop_views(v: Seq<TrainStop>) -> Seq<TrainStopV> {
    v.map_values(|t: TrainStop| t@)
}

/// A text without its `*` characters.
pub open spec fn no_stars(s: Seq<char>) -> Seq<char>
    decreases s.len(),
{
    if s.len() == 0 {
        Seq::empty()
    } else if s.last() == '*' {
        no_stars(s.drop_last())
    } else {
        no_stars(s.drop_last()).push(s.last())
    }
}

/// Some character of `s` is an ASCII digit.
pub open spec fn has_digit(s: Seq<char>) -> bool {
    exists|i: int| 0 <= i < s.len() && is_digit(#[trigger] s[i])
}

/// The first `H:MM` of a text, else empty.
pub open spec fn hhmm_of(t: Seq<char>) -> Seq<char> {
    or_empty(regex_group_of(TIME_PATTERN@, t, 1))
}

/// The text between the first match of `start` and the first match of
/// `end` after it (or the end of the block); none without a `start`.
pub open spec fn column_of(block: Seq<char>, start: Seq<char>, end: Seq<char>) -> Option<Seq<char>> {
    let pieces = regex_splitn_of(start, block, 2);
    if pieces.len() >= 2 {
        Some(nth_or_empty(regex_splitn_of(end, pieces[1], 2), 0))
    } else {
        None
    }
}

/// The scheduled time of a column: the first `H:MM` of its scheduled text
/// where that text has a digit; else empty.
pub open spec fn scheduled_of(col: Option<Seq<char>>) -> Seq<char> {
    match col {
        Some(c) => match match1_of(TS_SCH_PATTERN@, c) {
            Some(t) => if has_digit(t) {
                hhmm_of(t)
            } else {
                Seq::empty()
            },
            None => Seq::empty(),
        },
        None => Seq::empty(),
    }
}

/// The actual time of a column and the minutes late that its badge says,
/// where the column reports a real (not estimated) time; else empty and 0.
pub open spec fn actual_of(col: Option<Seq<char>>) -> (Seq<char>, i64) {
    match col {
        Some(c) => if regex_group_of(TS_ACTUAL_PATTERN@, c, 0) is Some && real_time(
            or_empty(regex_group_of(TS_ACTUAL_PATTERN@, c, 2)),
        ) {
            (
                hhmm_of(or_empty(regex_group_of(TS_ACTUAL_PATTERN@, c, 2))),
                badge_of(or_empty(regex_group_of(TS_ACTUAL_PATTERN@, c, 4))),
            )
        } else {
            (Seq::empty(), 0)
        },
        None => (Seq::empty(), 0),
    }
}

/// One block of the timeline: the station's name (required, not blank once
/// plain), its code after the name (required) with the platform (stars
/// dropped), and the times of the arrival column, or of the departure
/// column where the arrival column has no scheduled time with a digit (the
/// source shows `SRC` there).
pub open spec fn stop_of(block: Seq<char>) -> Option<TrainStopV> {
    match regex_group_of(TS_NAME_PATTERN@, block, 1) {
        None => None,
        Some(ng) => {
            let name = strip_tags_of(ng);
            let after = nth_or_empty(regex_splitn_of(TS_NAME_PATTERN@, block, 2), 1);
            if name.len() == 0 {
                None
            } else {
                match regex_group_of(TS_CODE_PATTERN@, after, 1) {
                    None => None,
                    Some(code) => {
                        let left = column_of(block, TS_LEFT_COL_PATTERN@, TS_TRACK_PATTERN@);
                        let dep = column_of(block, TS_DEP_COL_PATTERN@, TS_DEP_END_PATTERN@);
                        let left_ok = match left {
                            Some(l) => match match1_of(TS_SCH_PATTERN@, l) {
                                Some(t) => has_digit(t),
                                None => false,
                            },
                            None => false,
                        };
                        let col = if left_ok {
                            left
                        } else {
                            dep
                        };
                        Some(
                            TrainStopV {
                                name,
                                code,
                                platform: match regex_group_of(TS_CODE_PATTERN@, after, 2) {
                                    Some(p) => no_stars(p),
                                    None => Seq::empty(),
                                },
                                scheduled_arrival: scheduled_of(col),
                                actual_arrival: actual_of(col).0,
                                delay_minutes: actual_of(col).1,
                            },
                        )
                    },
                }
            }
        },
    }
}

/// The stations read out of the blocks, skipping the position banner's.
pub open spec fn stops_from(blocks: Seq<Seq<char>>) -> Seq<TrainStopV>
    decreases blocks.len(),
{
    if blocks.len() == 0 {
        Seq::empty()
    } else {
        let r = stops_from(blocks.drop_last());
        let b = blocks.last();
        if has_infix(b, CURRPOS_MARK@) || has_infix(b, SAND_MARK@) {
            r
        } else {
            match stop_of(b) {
                Some(x) => r.push(x),
                None => r,
            }
        }
    }
}

/// A run's timeline: the blocks that each card opens, in order.
pub open spec fn train_stops_of(seg: Seq<char>) -> Seq<TrainStopV> {
    let pieces = regex_split_of(TS_BLOCK_PATTERN@, seg);
    if pieces.len() == 0 {
        Seq::empty()
    } else {
        stops_from(pieces.drop_first())
    }
}

/// A text without its `*` characters.
fn drop_stars(s: &str) -> (r: String)
    ensures
        r@ == no_stars(s@),
{
    let v = chars_of(s);
    let mut out: Vec<char> = Vec::new();
    let mut i: usize = 0;
    while i < v.len()
        invariant
            0 <= i <= v@.len(),
            out@ == no_stars(v@.take(i as int)),
        decreases v@.len() - i,
    {
        proof {
            assert(v@.take(i + 1).drop_last() =~= v@.take(i as int));
        }
        if v[i] != '*' {
            out.push(v[i]);
        }
        i = i + 1;
    }
    proof {
        assert(v@.take(v@.len() as int) =~= v@);
    }
    string_of(out.as_slice())
}

/// Some character is an ASCII digit.
fn any_digit(s: &str) -> (r: bool)
    ensures
        r == has_digit(s@),
{
    let v = chars_of(s);
    let mut i: usize = 0;
    while i < v.len()
        invariant
            0 <= i <= v@.len(),
            v@ == s@,
            forall|k: int| 0 <= k < i ==> !is_digit(v@[k]),
        decreases v@.len() - i,
    {
        if '0' <= v[i] && v[i] <= '9' {
            return true;
        }
        i = i + 1;
    }
    false
}

/// The piece of `pieces` at `i`, or empty.
fn piece(pieces: &Vec<String>, i: usize) -> (r: String)
    ensures
        r@ == nth_or_empty(string_views(pieces@), i as int),
{
    if i < pieces.len() {
        pieces[i].clone()
    } else {
        String::new()
    }
}

/// The text between two column markers.
fn column(block: &str, start: &str, end: &str) -> (r: Option<String>)
    ensures
        regex_valid(start@) && regex_valid(end@) ==> opt_view(r) == column_of(block@, start@, end@),
{
    let pieces = splitn_by(start, block, 2);
    if pieces.len() >= 2 {
        let rest = splitn_by(end, pieces[1].as_str(), 2);
        proof {
            assert(string_views(pieces@)[1] == pieces@[1]@);
        }
        Some(piece(&rest, 0))
    } else {
        None
    }
}

/// The scheduled time of a column.
fn scheduled(col: &Option<String>) -> (r: String)
    ensures
        status_patterns_valid() ==> r@ == scheduled_of(opt_view(*col)),
{
    match col {
        Some(c) => match match_one(TS_SCH_PATTERN, c.as_str()) {
            Some(t) => if any_digit(t.as_str()) {
                hhmm(t.as_str())
            } else {
                String::new()
            },
            None => String::new(),
        },
        None => String::new(),
    }
}

/// The actual time of a column and its delay.
fn actual(col: &Option<String>) -> (r: (String, i64))
    ensures
        status_patterns_valid() ==> (r.0@, r.1) == actual_of(opt_view(*col)),
{
    match col {
        Some(c) => {
            let whole = group_of(TS_ACTUAL_PATTERN, c.as_str(), 0);
            let time = match group_of(TS_ACTUAL_PATTERN, c.as_str(), 2) {
                Some(t) => t,
                None => String::new(),
            };
            if whole.is_some() && is_real_time(time.as_str()) {
                let badge = match group_of(TS_ACTUAL_PATTERN, c.as_str(), 4) {
                    Some(b) => b,
                    None => String::new(),
                };
                (hhmm(time.as_str()), badge_minutes(badge.as_str()))
            } else {
                (String::new(), 0)
            }
        },
        None => (String::new(), 0),
    }
}

/// No `<` or `>` in `t`.
pub open spec fn no_angles(t: Seq<char>) -> bool {
    forall|i: int| 0 <= i < t.len() ==> #[trigger] t[i] != '<' && t[i] != '>'
}

/// No whitespace in `t`.
pub open spec fn no_ws(t: Seq<char>) -> bool {
    forall|i: int| 0 <= i < t.len() ==> !is_ws(#[trigger] t[i])
}

/// Text as a stop name is written: not empty, no `<` or `>`, no whitespace
/// at either end and never two whitespace characters in a row.
pub open spec fn clean_text(t: Seq<char>) -> bool {
    &&& t.len() > 0
    &&& no_angles(t)
    &&& !is_ws(t[0])
    &&& !is_ws(t.last())
    &&& forall|i: int| 0 <= i < t.len() - 1 ==> !(is_ws(#[trigger] t[i]) && is_ws(t[i + 1]))
}

/// Every stop read from a block has a clean name and a platform without
/// `*`.
pub proof fn lemma_stop_shape(block: Seq<char>)
    ensures
        stop_of(block) matches Some(s) ==> clean_text(s.name) && (forall|i: int|
            0 <= i < s.platform.len() ==> #[trigger] s.platform[i] != '*'),
{
    if let Some(s) = stop_of(block) {
        let ng = regex_group_of(TS_NAME_PATTERN@, block, 1).unwrap();
        let spaced = join_with(split_on(regex_replaced_of(TAG_PATTERN@, ng, " "@), crate::ntes::boards::NBSP@), " "@);
        let d = drop_angles(spaced);
        lemma_drop_angles(spaced);
        lemma_words_shape(d);
        lemma_join_clean(words(d));
        let after = nth_or_empty(regex_splitn_of(TS_NAME_PATTERN@, block, 2), 1);
        if let Some(p) = regex_group_of(TS_CODE_PATTERN@, after, 2) {
            lemma_no_stars(p);
        }
    }
}

/// `drop_angles` leaves no `<` or `>`.
proof fn lemma_drop_angles(s: Seq<char>)
    ensures
        no_angles(drop_angles(s)),
    decreases s.len(),
{
    if s.len() > 0 {
        lemma_drop_angles(s.drop_last());
    }
}

/// `no_stars` leaves no `*`.
proof fn lemma_no_stars(s: Seq<char>)
    ensures
        forall|i: int| 0 <= i < no_stars(s).len() ==> #[trigger] no_stars(s)[i] != '*',
    decreases s.len(),
{
    if s.len() > 0 {
        let t = s.drop_last();
        lemma_no_stars(t);
        if s.last() != '*' {
            let r = no_stars(s);
            assert(r == no_stars(t).push(s.last()));
            assert forall|i: int| 0 <= i < r.len() implies #[trigger] r[i] != '*' by {
                if i < r.len() - 1 {
                    assert(r[i] == no_stars(t)[i]);
                }
            }
        }
    }
}

/// The words of `s` are non-empty, hold no whitespace, and hold no angle
/// bracket where `s` holds none; text ending in a non-space has a word.
proof fn lemma_words_shape(s: Seq<char>)
    ensures
        forall|k: int| 0 <= k < words(s).len() ==> (#[trigger] words(s)[k]).len() > 0 && no_ws(words(s)[k]),
        no_angles(s) ==> forall|k: int| 0 <= k < words(s).len() ==> no_angles(#[trigger] words(s)[k]),
        s.len() > 0 && !is_ws(s.last()) ==> words(s).len() > 0,
    decreases s.len(),
{
    if s.len() > 0 {
        let t = s.drop_last();
        lemma_words_shape(t);
        if no_angles(s) {
            assert(no_angles(t)) by {
                assert forall|i: int| 0 <= i < t.len() implies #[trigger] t[i] != '<' && t[i] != '>' by {
                    assert(t[i] == s[i]);
                }
            }
        }
        if is_ws(s.last()) {
        } else if s.len() >= 2 && !is_ws(s[s.len() - 2]) {
            let w = words(t);
            assert(t.last() == s[s.len() - 2]);
            assert(w.len() > 0);
            let nw = w.last().push(s.last());
            assert(words(s) == w.update(w.len() - 1, nw));
            assert(no_ws(nw)) by {
                assert(w[w.len() - 1] == w.last());
                assert forall|i: int| 0 <= i < nw.len() implies !is_ws(#[trigger] nw[i]) by {
                    if i < nw.len() - 1 {
                        assert(nw[i] == w.last()[i]);
                    }
                }
            }
            if no_angles(s) {
                assert(no_angles(nw)) by {
                    assert(w[w.len() - 1] == w.last());
                    assert forall|i: int| 0 <= i < nw.len() implies #[trigger] nw[i] != '<' && nw[i] != '>' by {
                        if i < nw.len() - 1 {
                            assert(nw[i] == w.last()[i]);
                        } else {
                            assert(nw[i] == s[s.len() - 1]);
                        }
                    }
                }
            }
            assert forall|k: int| 0 <= k < words(s).len() implies (#[trigger] words(s)[k]).len() > 0 && no_ws(words(s)[k]) by {
                if k < w.len() - 1 {
                    assert(words(s)[k] == w[k]);
                }
            }
            if no_angles(s) {
                assert forall|k: int| 0 <= k < words(s).len() implies no_angles(#[trigger] words(s)[k]) by {
                    if k < w.len() - 1 {
                        assert(words(s)[k] == w[k]);
                    }
                }
            }
        } else {
            let w = words(t);
            let nw = seq![s.last()];
            assert(words(s) == w.push(nw));
            assert(no_ws(nw));
            if no_angles(s) {
                assert(nw[0] == s[s.len() - 1]);
                assert(no_angles(nw));
            }
            assert forall|k: int| 0 <= k < words(s).len() implies (#[trigger] words(s)[k]).len() > 0 && no_ws(words(s)[k]) by {
                if k < w.len() {
                    assert(words(s)[k] == w[k]);
                }
            }
            if no_angles(s) {
                assert forall|k: int| 0 <= k < words(s).len() implies no_angles(#[trigger] words(s)[k]) by {
                    if k < w.len() {
                        assert(words(s)[k] == w[k]);
                    }
                }
            }
        }
    }
}

/// Non-empty words without whitespace or angle brackets, joined by single
/// spaces, give clean text.
proof fn lemma_join_clean(parts: Seq<Seq<char>>)
    requires
        parts.len() > 0,
        forall|k: int| 0 <= k < parts.len() ==> (#[trigger] parts[k]).len() > 0 && no_ws(parts[k]) && no_angles(parts[k]),
    ensures
        clean_text(join_with(parts, " "@)),
    decreases parts.len(),
{
    reveal_strlit(" ");
    if parts.len() == 1 {
        let p = parts[0];
        assert(join_with(parts, " "@) == p);
        assert(!is_ws(p[0]));
        assert(!is_ws(p[p.len() - 1]));
    } else {
        let init = parts.drop_last();
        assert forall|k: int| 0 <= k < init.len() implies (#[trigger] init[k]).len() > 0 && no_ws(init[k]) && no_angles(init[k]) by {
            assert(init[k] == parts[k]);
        }
        lemma_join_clean(init);
        let j = join_with(init, " "@);
        let l = parts.last();
        assert(parts[parts.len() - 1] == l);
        let r = j + " "@ + l;
        assert(join_with(parts, " "@) == r);
        assert(" "@ =~= seq![' ']);
        assert(is_ws(' '));
        assert(no_angles(r)) by {
            assert forall|i: int| 0 <= i < r.len() implies #[trigger] r[i] != '<' && r[i] != '>' by {
                if i < j.len() {
                    assert(r[i] == j[i]);
                } else if i == j.len() {
                    assert(r[i] == ' ');
                } else {
                    assert(r[i] == l[i - j.len() - 1]);
                }
            }
        }
        assert(r[0] == j[0]);
        assert(r[r.len() - 1] == l[l.len() - 1]);
        assert(!is_ws(l[l.len() - 1]));
        assert forall|i: int| 0 <= i < r.len() - 1 implies !(is_ws(#[trigger] r[i]) && is_ws(r[i + 1])) by {
            if i < j.len() - 1 {
                assert(r[i] == j[i]);
                assert(r[i + 1] == j[i + 1]);
            } else if i == j.len() - 1 {
                assert(r[i] == j[j.len() - 1]);
            } else if i == j.len() {
                assert(r[i + 1] == l[0]);
                assert(!is_ws(l[0]));
            } else {
                assert(r[i] == l[i - j.len() - 1]);
                assert(!is_ws(l[i - j.len() - 1]));
            }
        }
    }
}

/// One block of the timeline.
fn train_stop(block: &str) -> (r: Option<TrainStop>)
    ensures
        status_patterns_valid() ==> match r {
            Some(t) => stop_of(block@) == Some(t@),
            None => stop_of(block@) is None,
        },
{
    let ng = match group_of(TS_NAME_PATTERN, block, 1) {
        Some(g) => g,
        None => return None,
    };
    let name = strip_tags(ng.as_str());
    if name.as_str().is_empty() {
        return None;
    }
    let after = piece(&splitn_by(TS_NAME_PATTERN, block, 2), 1);
    let code = match group_of(TS_CODE_PATTERN, after.as_str(), 1) {
        Some(c) => c,
        None => return None,
    };
    let platform = match group_of(TS_CODE_PATTERN, after.as_str(), 2) {
        Some(p) => drop_stars(p.as_str()),
        None => String::new(),
    };
    let left = column(block, TS_LEFT_COL_PATTERN, TS_TRACK_PATTERN);
    let dep = column(block, TS_DEP_COL_PATTERN, TS_DEP_END_PATTERN);
    let ghost lv = column_of(block@, TS_LEFT_COL_PATTERN@, TS_TRACK_PATTERN@);
    let ghost dv = column_of(block@, TS_DEP_COL_PATTERN@, TS_DEP_END_PATTERN@);
    let left_ok = match &left {
        Some(l) => match match_one(TS_SCH_PATTERN, l.as_str()) {
            Some(t) => any_digit(t.as_str()),
            None => false,
        },
        None => false,
    };
    let col = if left_ok {
        left
    } else {
        dep
    };
    let sched = scheduled(&col);
    let (act, delay) = actual(&col);
    Some(
        TrainStop {
            name,
            code,
            platform,
            scheduled_arrival: sched,
            actual_arrival: act,
            delay_minutes: delay,
        },
    )
}

/// A run's timeline.
fn train_stops(seg: &str) -> (r: Vec<TrainStop>)
    ensures
        status_patterns_valid() ==> stop_views(r@) == train_stops_of(seg@),
{
    let pieces = split_by(TS_BLOCK_PATTERN, seg);
    let ghost bv = string_views(pieces@).drop_first();
    let cur = chars_of(CURRPOS_MARK);
    let sand = chars_of(SAND_MARK);
    let mut stops: Vec<TrainStop> = Vec::new();
    if pieces.len() == 0 {
        proof {
            assert(stop_views(stops@) =~= Seq::<TrainStopV>::empty());
        }
        return stops;
    }
    let mut i: usize = 1;
    proof {
        assert(bv.take(0) =~= Seq::<Seq<char>>::empty());
        assert(stop_views(stops@) =~= Seq::<TrainStopV>::empty());
    }
    while i < pieces.len()
        invariant
            1 <= i <= pieces@.len(),
            bv == string_views(pieces@).drop_first(),
            cur@ == CURRPOS_MARK@,
            sand@ == SAND_MARK@,
            status_patterns_valid() ==> stop_views(stops@) == stops_from(bv.take(i - 1)),
        decreases pieces@.len() - i,
    {
        proof {
            assert(bv.take(i as int).drop_last() =~= bv.take(i - 1));
            assert(bv.take(i as int).last() == pieces@[i as int]@);
        }
        let block = pieces[i].as_str();
        let cv = chars_of(block);
        if !contains_chars(cv.as_slice(), cur.as_slice()) && !contains_chars(cv.as_slice(), sand.as_slice()) {
            if let Some(t) = train_stop(block) {
                let ghost old_stops = stop_views(stops@);
                let ghost tv = t@;
                stops.push(t);
                proof {
                    assert(stop_views(stops@) =~= old_stops.push(tv));
                }
            }
        }
        i = i + 1;
    }
    proof {
        assert(bv.take(pieces@.len() - 1) =~= bv);
    }
    stops
}

// ------------------------------------------------------------------ the runs

/// A text with its first character ASCII upper-cased.
pub open spec fn capitalized(s: Seq<char>) -> Seq<char> {
    if s.len() == 0 {
        s
    } else {
        seq![ascii_upper(s[0])] + s.drop_first()
    }
}

/// The start date of a run from its tab id: `train14-aug-2026` reads as
/// `14-Aug-2026`; an id of another shape is kept as it is.
pub open spec fn pane_date_of(id: Seq<char>) -> Seq<char> {
    if regex_group_of(TS_DATE_PATTERN@, id, 0) is Some {
        or_empty(regex_group_of(TS_DATE_PATTERN@, id, 1)) + "-"@ + capitalized(
            or_empty(regex_group_of(TS_DATE_PATTERN@, id, 2)),
        ) + "-"@ + or_empty(regex_group_of(TS_DATE_PATTERN@, id, 3))
    } else {
        id
    }
}

/// The position banner of a run: the plain text of its status heading,
/// else that of the current-position banner up to the next card; else
/// empty.
pub open spec fn pane_position_of(seg: Seq<char>) -> Seq<char> {
    let heading = if regex_group_of(TS_H6_PATTERN@, seg, 0) is Some {
        strip_tags_of(or_empty(regex_group_of(TS_H6_PATTERN@, seg, 1)))
    } else {
        Seq::empty()
    };
    if heading.len() > 0 {
        heading
    } else {
        let pieces = regex_splitn_of(TS_CURRPOS_PATTERN@, seg, 2);
        if pieces.len() >= 2 {
            strip_tags_of(nth_or_empty(regex_splitn_of(TS_BLOCK_PATTERN@, pieces[1], 2), 0))
        } else {
            Seq::empty()
        }
    }
}

/// One run's tab, as plain values: its start date, whether it is the active
/// tab, its position banner and its text.
pub struct PaneV {
    pub date: Seq<char>,
    pub active: bool,
    pub position: Seq<char>,
    pub html: Seq<char>,
}

/// The `i`-th tab: from its opening tag up to the next tab's.
pub open spec fn pane_of(heads: Seq<Option<Seq<char>>>, classes: Seq<Option<Seq<char>>>, ids: Seq<Option<Seq<char>>>, pieces: Seq<Seq<char>>, i: int) -> PaneV {
    let seg = nth_match(heads, i) + nth_or_empty(pieces, i + 1);
    PaneV {
        date: pane_date_of(nth_match(ids, i)),
        active: 0 <= i < classes.len() && classes[i] == Some(ACTIVE@),
        position: pane_position_of(seg),
        html: seg,
    }
}

/// The tabs of the popup, in order.
pub open spec fn panes_of(html: Seq<char>) -> Seq<PaneV> {
    let heads = regex_groups_of(TS_PANE_PATTERN@, html, 0);
    Seq::new(
        heads.len(),
        |i: int|
            pane_of(
                heads,
                regex_groups_of(TS_PANE_PATTERN@, html, 1),
                regex_groups_of(TS_PANE_PATTERN@, html, 2),
                regex_split_of(TS_PANE_PATTERN@, html),
                i,
            ),
    )
}

/// One run's tab.
struct Pane {
    date: String,
    active: bool,
    position: String,
    html: String,
}

impl View for Pane {
    type V = PaneV;

    closed spec fn view(&self) -> PaneV {
        PaneV { date: self.date@, active: self.active, position: self.position@, html: self.html@ }
    }
}

/// The start date of a run from its tab id.
fn pane_date(id: &str) -> (r: String)
    ensures
        status_patterns_valid() ==> r@ == pane_date_of(id@),
{
    if group_of(TS_DATE_PATTERN, id, 0).is_none() {
        return id.to_owned();
    }
    let day = match group_of(TS_DATE_PATTERN, id, 1) {
        Some(t) => t,
        None => String::new(),
    };
    let month = match group_of(TS_DATE_PATTERN, id, 2) {
        Some(t) => t,
        None => String::new(),
    };
    let year = match group_of(TS_DATE_PATTERN, id, 3) {
        Some(t) => t,
        None => String::new(),
    };
    let mut out: Vec<char> = Vec::new();
    push_str(&mut out, day.as_str());
    out.push('-');
    let mv = chars_of(month.as_str());
    if mv.len() > 0 {
        out.push(upper_char(mv[0]));
        let mut k: usize = 1;
        let ghost base = out@;
        while k < mv.len()
            invariant
                1 <= k <= mv@.len(),
                out@ == base + mv@.subrange(1, k as int),
            decreases mv@.len() - k,
        {
            out.push(mv[k]);
            k = k + 1;
        }
        proof {
            assert(mv@.subrange(1, mv@.len() as int) =~= mv@.drop_first());
        }
    }
    out.push('-');
    push_str(&mut out, year.as_str());
    proof {
        reveal_strlit("-");
        assert(out@ =~= day@ + "-"@ + capitalized(month@) + "-"@ + year@);
    }
    string_of(out.as_slice())
}

/// The position banner of a run.
fn pane_position(seg: &str) -> (r: String)
    ensures
        status_patterns_valid() ==> r@ == pane_position_of(seg@),
{
    let heading = if group_of(TS_H6_PATTERN, seg, 0).is_some() {
        let inner = match group_of(TS_H6_PATTERN, seg, 1) {
            Some(t) => t,
            None => String::new(),
        };
        strip_tags(inner.as_str())
    } else {
        String::new()
    };
    if !heading.as_str().is_empty() {
        return heading;
    }
    let pieces = splitn_by(TS_CURRPOS_PATTERN, seg, 2);
    if pieces.len() >= 2 {
        proof {
            assert(string_views(pieces@)[1] == pieces@[1]@);
        }
        let upto = piece(&splitn_by(TS_BLOCK_PATTERN, pieces[1].as_str(), 2), 0);
        strip_tags(upto.as_str())
    } else {
        String::new()
    }
}

/// The tabs of the popup.
fn panes(html: &str) -> (r: Vec<Pane>)
    ensures
        status_patterns_valid() ==> r@.map_values(|p: Pane| p@) == panes_of(html@),
{
    let heads = groups_of(TS_PANE_PATTERN, html, 0);
    let classes = groups_of(TS_PANE_PATTERN, html, 1);
    let ids = groups_of(TS_PANE_PATTERN, html, 2);
    let pieces = split_by(TS_PANE_PATTERN, html);
    let ghost hv = opt_views(heads@);
    let ghost cv = opt_views(classes@);
    let ghost iv = opt_views(ids@);
    let ghost pv = string_views(pieces@);
    let active_word = chars_of(ACTIVE);
    let mut out: Vec<Pane> = Vec::new();
    let mut i: usize = 0;
    while i < heads.len()
        invariant
            0 <= i <= heads@.len(),
            hv == opt_views(heads@),
            cv == opt_views(classes@),
            iv == opt_views(ids@),
            pv == string_views(pieces@),
            active_word@ == ACTIVE@,
            out@.len() == i,
            status_patterns_valid() ==> forall|k: int| 0 <= k < i ==> (#[trigger] out@[k])@ == pane_of(hv, cv, iv, pv, k),
        decreases heads@.len() - i,
    {
        let mut seg: Vec<char> = Vec::new();
        match &heads[i] {
            Some(h) => push_str(&mut seg, h.as_str()),
            None => {},
        }
        if i + 1 < pieces.len() {
            push_str(&mut seg, pieces[i + 1].as_str());
        }
        proof {
            assert(seg@ =~= nth_match(hv, i as int) + nth_or_empty(pv, i + 1));
        }
        let text = string_of(seg.as_slice());
        let id = if i < ids.len() {
            match &ids[i] {
                Some(t) => t.clone(),
                None => String::new(),
            }
        } else {
            String::new()
        };
        let active = if i < classes.len() {
            match &classes[i] {
                Some(c) => str_eq(c.as_str(), ACTIVE),
                None => false,
            }
        } else {
            false
        };
        let p = Pane { date: pane_date(id.as_str()), active, position: pane_position(text.as_str()), html: text };
        proof {
            if status_patterns_valid() {
                assert(p@ == pane_of(hv, cv, iv, pv, i as int));
            }
        }
        out.push(p);
        i = i + 1;
    }
    proof {
        if status_patterns_valid() {
            assert(out@.map_values(|p: Pane| p@) =~= panes_of(html@));
        }
    }
    out
}

// ------------------------------------------------------------- the position

/// Every character of `s` is an ASCII letter or digit.
pub open spec fn all_alnum(s: Seq<char>) -> bool {
    forall|i: int| 0 <= i < s.len() ==> is_alnum(#[trigger] s[i])
}

/// The station code in a banner such as `Departed from GHAZIABAD(GZB) at
/// 15:58`: after the first `prefix`, the text inside the first `(` up to
/// `)`, trimmed; it counts only as two to six ASCII letters or digits.
pub open spec fn pos_code_of(position: Seq<char>, prefix: Seq<char>) -> Option<Seq<char>> {
    match occurrence_from(position, prefix, 0) {
        None => None,
        Some(k) => {
            let parts = split_on(position.skip(k + prefix.len()), "("@);
            if parts.len() < 2 {
                None
            } else {
                let code = trim_seq(before_first(parts[1], ')'));
                if 2 <= code.len() <= 6 && all_alnum(code) {
                    Some(code)
                } else {
                    None
                }
            }
        },
    }
}

/// The first stop with `code`.
pub open spec fn first_code(stops: Seq<TrainStopV>, code: Seq<char>) -> Option<int>
    decreases stops.len(),
{
    if stops.len() == 0 {
        None
    } else {
        match first_code(stops.drop_last(), code) {
            Some(i) => Some(i),
            None => if stops.last().code == code {
                Some(stops.len() - 1)
            } else {
                None
            },
        }
    }
}

/// The last stop with an actual arrival.
pub open spec fn last_actual(stops: Seq<TrainStopV>) -> Option<int>
    decreases stops.len(),
{
    if stops.len() == 0 {
        None
    } else if stops.last().actual_arrival.len() > 0 {
        Some(stops.len() - 1)
    } else {
        last_actual(stops.drop_last())
    }
}

/// The stop that a banner names after `prefix`.
pub open spec fn named_stop(position: Seq<char>, prefix: Seq<char>, stops: Seq<TrainStopV>) -> Option<int> {
    match pos_code_of(position, prefix) {
        Some(c) => first_code(stops, c),
        None => None,
    }
}

/// Where a run is: `(at the source, at the destination, the last departed
/// stop)`. A run yet to start is at its source; else the stop the banner
/// says it departed from, or arrived at (at the destination when that is
/// the last stop); else the last stop with an actual arrival (at the
/// destination when that is the last stop); else at its source.
pub open spec fn current_position_of(position: Seq<char>, stops: Seq<TrainStopV>) -> (bool, bool, int) {
    if has_infix(lower_seq(position), YET_TO_START@) {
        (true, false, 0)
    } else {
        match named_stop(position, DEPARTED_FROM@, stops) {
            Some(i) => (false, false, i),
            None => match named_stop(position, ARRIVED_AT@, stops) {
                Some(i) => (false, i == stops.len() - 1, i),
                None => match last_actual(stops) {
                    Some(i) => (false, i == stops.len() - 1, i),
                    None => (true, false, 0),
                },
            },
        }
    }
}

/// A run is at its destination only when its current stop is the last stop
/// of the run, and then it is not at its source. A banner that names no
/// departure but an arrival at the last stop puts the run there; one that
/// says the train is yet to start puts it at its source, and one that names
/// a departure puts it at that stop, on its way.
pub proof fn lemma_at_destination_is_last(position: Seq<char>, stops: Seq<TrainStopV>)
    ensures
        current_position_of(position, stops).1 ==> current_position_of(position, stops).2 == stops.len() - 1,
        current_position_of(position, stops).1 ==> !current_position_of(position, stops).0,
        !has_infix(lower_seq(position), YET_TO_START@) && named_stop(position, DEPARTED_FROM@, stops) is None
            && named_stop(position, ARRIVED_AT@, stops) == Some(stops.len() - 1) ==> current_position_of(
            position,
            stops,
        ).1,
        has_infix(lower_seq(position), YET_TO_START@) ==> current_position_of(position, stops) == (true, false, 0int),
        !has_infix(lower_seq(position), YET_TO_START@) ==> (named_stop(position, DEPARTED_FROM@, stops) matches Some(
            i,
        ) ==> current_position_of(position, stops) == (false, false, i)),
{
}

/// A running status that puts the train at its destination names the last
/// stop as the next one.
pub proof fn lemma_status_at_destination(html: Seq<char>)
    ensures
        train_status_of(html) matches Some(t) ==> (t.at_dstn ==> t.next_station_code == t.stops.last().code
            && t.next_station_name == t.stops.last().name),
{
    if let Some(t) = train_status_of(html) {
        let panes = panes_of(html);
        let active = match first_active(panes) {
            Some(i) => panes[i],
            None => panes[0],
        };
        let stops = train_stops_of(active.html);
        lemma_at_destination_is_last(active.position, stops);
    }
}

/// The next stop: the source for a run at its source, else the one after
/// the last departed, at most the last stop.
pub open spec fn next_index_of(at_src: bool, current: int, n: int) -> int {
    let last = if n > 0 {
        n - 1
    } else {
        0
    };
    if at_src {
        0
    } else if current + 1 <= last {
        current + 1
    } else {
        last
    }
}

/// Every character is an ASCII letter or digit.
fn chars_all_alnum(v: &[char]) -> (r: bool)
    ensures
        r == all_alnum(v@),
{
    let mut i: usize = 0;
    while i < v.len()
        invariant
            0 <= i <= v@.len(),
            forall|k: int| 0 <= k < i ==> is_alnum(v@[k]),
        decreases v@.len() - i,
    {
        let c = v[i];
        if !(('0' <= c && c <= '9') || ('a' <= c && c <= 'z') || ('A' <= c && c <= 'Z')) {
            return false;
        }
        i = i + 1;
    }
    true
}

/// The station code a banner names after `prefix`.
fn pos_code(position: &str, prefix: &str) -> (r: Option<String>)
    requires
        prefix@.len() > 0,
    ensures
        opt_view(r) == pos_code_of(position@, prefix@),
{
    let pv = chars_of(position);
    let pre = chars_of(prefix);
    let k = match find_from(pv.as_slice(), pre.as_slice(), 0) {
        Some(k) => k,
        None => return None,
    };
    proof {
        lemma_occurrence_from(pv@, pre@, 0);
    }
    let n = pv.len();
    let m = pre.len();
    assert(k + m <= n);
    let rest = crate::text::chars_range(pv.as_slice(), k + m, n);
    proof {
        assert(rest@ =~= pv@.skip(k + m));
    }
    let open = chars_of("(");
    proof {
        reveal_strlit("(");
    }
    let parts = split_str(rest.as_slice(), open.as_slice());
    if parts.len() < 2 {
        return None;
    }
    proof {
        assert(string_views(parts@)[1] == parts@[1]@);
    }
    let pc = chars_of(parts[1].as_str());
    let len = pc.len();
    let end = match find_char(pc.as_slice(), ')') {
        Some(j) => j,
        None => len,
    };
    let inner = string_of_range(pc.as_slice(), 0, end);
    proof {
        assert(pc@.subrange(0, len as int) =~= pc@);
    }
    let code = trim(inner.as_str());
    let cv = chars_of(code);
    if cv.len() >= 2 && cv.len() <= 6 && chars_all_alnum(cv.as_slice()) {
        Some(code.to_owned())
    } else {
        None
    }
}

/// The first stop with `code`.
fn code_index(stops: &Vec<TrainStop>, code: &str) -> (r: Option<usize>)
    ensures
        match r {
            Some(i) => first_code(stop_views(stops@), code@) == Some(i as int),
            None => first_code(stop_views(stops@), code@) is None,
        },
{
    let ghost sv = stop_views(stops@);
    let mut i: usize = 0;
    proof {
        assert(sv.take(0) =~= Seq::<TrainStopV>::empty());
    }
    while i < stops.len()
        invariant
            0 <= i <= stops@.len(),
            sv == stop_views(stops@),
            first_code(sv.take(i as int), code@) is None,
        decreases stops@.len() - i,
    {
        proof {
            assert(sv.take(i + 1).drop_last() =~= sv.take(i as int));
            assert(sv.take(i + 1).last() == stops@[i as int]@);
        }
        if str_eq(stops[i].code.as_str(), code) {
            proof {
                lemma_first_code_prefix(sv, code@, i + 1);
            }
            return Some(i);
        }
        i = i + 1;
    }
    proof {
        assert(sv.take(stops@.len() as int) =~= sv);
    }
    None
}

/// A stop found among the first `n` is the stop found among all.
proof fn lemma_first_code_prefix(s: Seq<TrainStopV>, code: Seq<char>, n: int)
    requires
        0 <= n <= s.len(),
        first_code(s.take(n), code) is Some,
    ensures
        first_code(s, code) == first_code(s.take(n), code),
    decreases s.len() - n,
{
    if n < s.len() {
        assert(s.take(n + 1).drop_last() =~= s.take(n));
        lemma_first_code_prefix(s, code, n + 1);
    } else {
        assert(s.take(n) =~= s);
    }
}

/// The last stop with an actual arrival.
fn last_actual_index(stops: &Vec<TrainStop>) -> (r: Option<usize>)
    ensures
        match r {
            Some(i) => last_actual(stop_views(stops@)) == Some(i as int),
            None => last_actual(stop_views(stops@)) is None,
        },
{
    let ghost sv = stop_views(stops@);
    let mut n: usize = stops.len();
    proof {
        assert(sv.take(n as int) =~= sv);
    }
    while n > 0
        invariant
            0 <= n <= stops@.len(),
            sv == stop_views(stops@),
            last_actual(sv) == last_actual(sv.take(n as int)),
        decreases n,
    {
        proof {
            assert(sv.take(n as int).last() == stops@[n - 1]@);
            assert(sv.take(n as int).drop_last() =~= sv.take(n - 1));
        }
        if !stops[n - 1].actual_arrival.as_str().is_empty() {
            return Some(n - 1);
        }
        n = n - 1;
    }
    None
}

/// Where a run is.
fn current_position(position: &str, stops: &Vec<TrainStop>) -> (r: (bool, bool, usize))
    ensures
        (r.0, r.1, r.2 as int) == current_position_of(position@, stop_views(stops@)),
{
    let lower = lower_chars(chars_of(position).as_slice());
    let yet = chars_of(YET_TO_START);
    if contains_chars(lower.as_slice(), yet.as_slice()) {
        return (true, false, 0);
    }
    proof {
        reveal_strlit("Departed from");
        reveal_strlit("Arrived at");
    }
    let n = stops.len();
    match pos_code(position, DEPARTED_FROM) {
        Some(c) => match code_index(stops, c.as_str()) {
            Some(i) => return (false, false, i),
            None => {},
        },
        None => {},
    }
    match pos_code(position, ARRIVED_AT) {
        Some(c) => match code_index(stops, c.as_str()) {
            Some(i) => {
                proof {
                    lemma_found_in_range(stop_views(stops@), c@);
                }
                return (false, i + 1 == n, i);
            },
            None => {},
        },
        None => {},
    }
    match last_actual_index(stops) {
        Some(i) => {
            proof {
                lemma_last_actual_in_range(stop_views(stops@));
            }
            (false, i + 1 == n, i)
        },
        None => (true, false, 0),
    }
}

/// A found stop is one of the stops.
proof fn lemma_found_in_range(s: Seq<TrainStopV>, code: Seq<char>)
    ensures
        first_code(s, code) matches Some(i) ==> 0 <= i < s.len(),
    decreases s.len(),
{
    if s.len() > 0 {
        lemma_found_in_range(s.drop_last(), code);
    }
}

/// The last stop with an actual arrival is one of the stops.
proof fn lemma_last_actual_in_range(s: Seq<TrainStopV>)
    ensures
        last_actual(s) matches Some(i) ==> 0 <= i < s.len(),
    decreases s.len(),
{
    if s.len() > 0 {
        lemma_last_actual_in_range(s.drop_last());
    }
}

// ------------------------------------------------------------- the status

/// One run of the train: its start date, position, where it is and its
/// timeline.
#[derive(Debug, Clone)]
pub struct TrainInstance {
    pub start_date: String,
    pub position: String,
    pub at_src: bool,
    pub at_dstn: bool,
    pub next_station_code: String,
    pub next_station_name: String,
    pub platform_number: String,
    pub stops: Vec<TrainStop>,
}

/// A run as plain values.
pub struct TrainInstanceV {
    pub start_date: Seq<char>,
    pub position: Seq<char>,
    pub at_src: bool,
    pub at_dstn: bool,
    pub next_station_code: Seq<char>,
    pub next_station_name: Seq<char>,
    pub platform_number: Seq<char>,
    pub stops: Seq<TrainStopV>,
}

impl View for TrainInstance {
    type V = TrainInstanceV;

    open spec fn view(&self) -> TrainInstanceV {
        TrainInstanceV {
            start_date: self.start_date@,
            position: self.position@,
            at_src: self.at_src,
            at_dstn: self.at_dstn,
            next_station_code: self.next_station_code@,
            next_station_name: self.next_station_name@,
            platform_number: self.platform_number@,
            stops: stop_views(self.stops@),
        }
    }
}

/// Runs as plain values.
pub open spec fn instance_views(v: Seq<TrainInstance>) -> Seq<TrainInstanceV> {
    v.map_values(|t: TrainInstance| t@)
}

/// The running status of a train.
#[derive(Debug, Clone)]
pub struct TrainStatus {
    pub train_number: String,
    pub train_name: String,
    pub source_stn_name: String,
    pub dest_stn_name: String,
    pub next_station_code: String,
    pub next_station_name: String,
    pub platform_number: String,
    pub at_src: bool,
    pub at_dstn: bool,
    pub train_start_date: String,
    pub data_source: String,
    pub instances: Vec<TrainInstance>,
    pub stops: Vec<TrainStop>,
}

/// The running status as plain values.
pub struct TrainStatusV {
    pub train_number: Seq<char>,
    pub train_name: Seq<char>,
    pub source_stn_name: Seq<char>,
    pub dest_stn_name: Seq<char>,
    pub next_station_code: Seq<char>,
    pub next_station_name: Seq<char>,
    pub platform_number: Seq<char>,
    pub at_src: bool,
    pub at_dstn: bool,
    pub train_start_date: Seq<char>,
    pub data_source: Seq<char>,
    pub instances: Seq<TrainInstanceV>,
    pub stops: Seq<TrainStopV>,
}

impl View for TrainStatus {
    type V = TrainStatusV;

    open spec fn view(&self) -> TrainStatusV {
        TrainStatusV {
            train_number: self.train_number@,
            train_name: self.train_name@,
            source_stn_name: self.source_stn_name@,
            dest_stn_name: self.dest_stn_name@,
            next_station_code: self.next_station_code@,
            next_station_name: self.next_station_name@,
            platform_number: self.platform_number@,
            at_src: self.at_src,
            at_dstn: self.at_dstn,
            train_start_date: self.train_start_date@,
            data_source: self.data_source@,
            instances: instance_views(self.instances@),
            stops: stop_views(self.stops@),
        }
    }
}

/// One run of the train, read from its tab.
pub open spec fn instance_of(p: PaneV) -> TrainInstanceV {
    let stops = train_stops_of(p.html);
    let pos = current_position_of(p.position, stops);
    let n = next_index_of(pos.0, pos.2, stops.len() as int);
    let has = 0 <= n < stops.len();
    TrainInstanceV {
        start_date: p.date,
        position: p.position,
        at_src: pos.0,
        at_dstn: pos.1,
        next_station_code: if has {
            stops[n].code
        } else {
            Seq::empty()
        },
        next_station_name: if has {
            stops[n].name
        } else {
            Seq::empty()
        },
        platform_number: if has {
            stops[n].platform
        } else {
            Seq::empty()
        },
        stops,
    }
}

/// The first active tab.
pub open spec fn first_active(panes: Seq<PaneV>) -> Option<int>
    decreases panes.len(),
{
    if panes.len() == 0 {
        None
    } else {
        match first_active(panes.drop_last()) {
            Some(i) => Some(i),
            None => if panes.last().active {
                Some(panes.len() - 1)
            } else {
                None
            },
        }
    }
}

/// The popup has the train's header.
pub open spec fn has_header(html: Seq<char>) -> bool {
    regex_group_of(TS_HEADER_PATTERN@, html, 1) is Some && regex_group_of(TS_HEADER_PATTERN@, html, 2) is Some
}

/// The popup, read: the header and at least one run tab (required); the
/// active run (the first active tab, else the first tab) gives the stops (at
/// least one), where the train is and its next stop; every tab is kept as an
/// instance.
pub open spec fn train_status_of(html: Seq<char>) -> Option<TrainStatusV> {
    match (regex_group_of(TS_HEADER_PATTERN@, html, 1), regex_group_of(TS_HEADER_PATTERN@, html, 2)) {
        (Some(num), Some(nm)) => {
            let panes = panes_of(html);
            if panes.len() == 0 {
                None
            } else {
                let active = match first_active(panes) {
                    Some(i) => panes[i],
                    None => panes[0],
                };
                let stops = train_stops_of(active.html);
                if stops.len() == 0 {
                    None
                } else {
                    let pos = current_position_of(active.position, stops);
                    let n = next_index_of(pos.0, pos.2, stops.len() as int);
                    Some(
                        TrainStatusV {
                            train_number: trim_seq(num),
                            train_name: strip_tags_of(nm),
                            source_stn_name: stops[0].name,
                            dest_stn_name: stops.last().name,
                            next_station_code: stops[n].code,
                            next_station_name: stops[n].name,
                            platform_number: stops[n].platform,
                            at_src: pos.0,
                            at_dstn: pos.1,
                            train_start_date: active.date,
                            data_source: DATA_SOURCE@,
                            instances: panes.map_values(|p: PaneV| instance_of(p)),
                            stops,
                        },
                    )
                }
            }
        },
        _ => None,
    }
}

/// The next stop's index.
fn next_index(at_src: bool, current: usize, n: usize) -> (r: usize)
    ensures
        r as int == next_index_of(at_src, current as int, n as int),
{
    let last = if n > 0 {
        n - 1
    } else {
        0
    };
    if at_src {
        0
    } else if current < last {
        current + 1
    } else {
        last
    }
}

/// A position in the run is a stop of it.
proof fn lemma_position_in_range(position: Seq<char>, stops: Seq<TrainStopV>)
    ensures
        stops.len() > 0 ==> 0 <= current_position_of(position, stops).2 < stops.len(),
{
    lemma_found_in_range(stops, pos_code_of(position, DEPARTED_FROM@).unwrap());
    lemma_found_in_range(stops, pos_code_of(position, ARRIVED_AT@).unwrap());
    lemma_last_actual_in_range(stops);
}

/// One run of the train.
fn instance(p: &Pane) -> (r: TrainInstance)
    ensures
        status_patterns_valid() ==> r@ == instance_of(p@),
{
    let stops = train_stops(p.html.as_str());
    let (at_src, at_dstn, current) = current_position(p.position.as_str(), &stops);
    let n = next_index(at_src, current, stops.len());
    let (code, name, platform) = if n < stops.len() {
        (stops[n].code.clone(), stops[n].name.clone(), stops[n].platform.clone())
    } else {
        (String::new(), String::new(), String::new())
    };
    let r = TrainInstance {
        start_date: p.date.clone(),
        position: p.position.clone(),
        at_src,
        at_dstn,
        next_station_code: code,
        next_station_name: name,
        platform_number: platform,
        stops,
    };
    proof {
        if n < stops@.len() {
            assert(stop_views(stops@)[n as int] == stops@[n as int]@);
        }
    }
    r
}

/// The running status of a train from its spot popup, or `None` where the
/// popup has no header (an unknown train), no run tab, or an active run
/// without a stop.
pub fn parse_train_status(html: &str) -> (r: Option<TrainStatus>)
    ensures
        status_patterns_valid() ==> match r {
            Some(t) => train_status_of(html@) == Some(t@),
            None => train_status_of(html@) is None,
        },
{
    let num = match group_of(TS_HEADER_PATTERN, html, 1) {
        Some(t) => t,
        None => return None,
    };
    let nm = match group_of(TS_HEADER_PATTERN, html, 2) {
        Some(t) => t,
        None => return None,
    };
    let panes = panes(html);
    let ghost pv = panes@.map_values(|p: Pane| p@);
    proof {
        assert(pv.len() == panes@.len());
    }
    if panes.len() == 0 {
        return None;
    }
    let count = panes.len();
    let mut a: usize = count;
    let mut k: usize = 0;
    proof {
        assert(pv.take(0) =~= Seq::<PaneV>::empty());
    }
    while k < count
        invariant
            0 <= k <= count,
            count == panes@.len(),
            pv == panes@.map_values(|p: Pane| p@),
            a == count ==> first_active(pv.take(k as int)) is None,
            a < count ==> first_active(pv) == Some(a as int),
            a <= count,
        decreases count - k,
    {
        proof {
            assert(pv.take(k + 1).drop_last() =~= pv.take(k as int));
            assert(pv.take(k + 1).last() == panes@[k as int]@);
        }
        if a == count && panes[k].active {
            proof {
                lemma_first_active_prefix(pv, k + 1);
            }
            a = k;
        }
        k = k + 1;
    }
    if a == count {
        proof {
            assert(pv.take(count as int) =~= pv);
        }
        a = 0;
    }
    proof {
        assert(pv[a as int] == panes@[a as int]@);
    }
    let active = &panes[a];
    let stops = train_stops(active.html.as_str());
    if stops.len() == 0 {
        return None;
    }
    let (at_src, at_dstn, current) = current_position(active.position.as_str(), &stops);
    proof {
        lemma_position_in_range(active.position@, stop_views(stops@));
    }
    let n = next_index(at_src, current, stops.len());
    let mut instances: Vec<TrainInstance> = Vec::new();
    let mut i: usize = 0;
    while i < panes.len()
        invariant
            0 <= i <= panes@.len(),
            pv == panes@.map_values(|p: Pane| p@),
            instances@.len() == i,
            status_patterns_valid() ==> forall|k: int| 0 <= k < i ==> (#[trigger] instances@[k])@ == instance_of(pv[k]),
        decreases panes@.len() - i,
    {
        instances.push(instance(&panes[i]));
        i = i + 1;
    }
    let last = stops.len() - 1;
    let r = TrainStatus {
        train_number: trim(num.as_str()).to_owned(),
        train_name: strip_tags(nm.as_str()),
        source_stn_name: stops[0].name.clone(),
        dest_stn_name: stops[last].name.clone(),
        next_station_code: stops[n].code.clone(),
        next_station_name: stops[n].name.clone(),
        platform_number: stops[n].platform.clone(),
        at_src,
        at_dstn,
        train_start_date: active.date.clone(),
        data_source: DATA_SOURCE.to_owned(),
        instances,
        stops,
    };
    proof {
        if status_patterns_valid() {
            let sv = stop_views(r.stops@);
            assert(sv[0] == r.stops@[0]@);
            assert(sv.last() == r.stops@[last as int]@);
            assert(sv[n as int] == r.stops@[n as int]@);
            assert(instance_views(r.instances@) =~= pv.map_values(|p: PaneV| instance_of(p)));
        }
    }
    Some(r)
}

/// An active tab found among the first `n` is the first active tab of all.
proof fn lemma_first_active_prefix(s: Seq<PaneV>, n: int)
    requires
        0 <= n <= s.len(),
        first_active(s.take(n)) is Some,
    ensures
        first_active(s) == first_active(s.take(n)),
    decreases s.len() - n,
{
    if n < s.len() {
        assert(s.take(n + 1).drop_last() =~= s.take(n));
        lemma_first_active_prefix(s, n + 1);
    } else {
        assert(s.take(n) =~= s);
    }
}

/// The running status of a train from its spot popup: `None` where the
/// popup has no header, where it has a header but not one run tab (a popup
/// the status cannot be read from), and where the active run has no stop.
pub fn train_status(html: &str) -> (r: Option<TrainStatus>)
    ensures
        status_patterns_valid() ==> match r {
            Some(t) => has_header(html@) && panes_of(html@).len() > 0 && train_status_of(html@) == Some(t@),
            None => !has_header(html@) || panes_of(html@).len() == 0 || train_status_of(html@) is None,
        },
{
    let heads = groups_of(TS_PANE_PATTERN, html, 0);
    if heads.len() == 0 {
        return None;
    }
    parse_train_status(html)
}

} // verus!
