//! Reading IRCTC's no-login answers, which have no published schema: every
//! field is looked up under each name it is known to arrive by, and falls
//! back to an empty value; a missing or empty train or coach list is the
//! source failing, never made up.
use vstd::prelude::*;
use crate::error::AppError;
use crate::json::{
    array_of, as_array, as_bool, as_i64, as_str, bool_of, deref, get, get_of, i64_of, str_of, Json,
};
use crate::railyatri::path_of;
use crate::dates::{compact_of, date_compact, date_iso, iso_of};
use crate::text::{push_str, string_of};
use crate::text::{
    lowercase_of, parse_i64, parsed_i64, str_eq, string_views, to_lowercase, to_uppercase, uppercase_of,
};

verus! {

/// The source's name in errors and metrics.
pub const SOURCE: &'static str = "IRCTC";

/// The failure where the availability answer has no train list.
pub const BAD_AVAILABILITY: &'static str = "unexpected altAvlEnq response shape";

/// The failure where the composition answer has no coach list.
pub const BAD_COMPOSITION: &'static str = "unexpected trainComposition response shape";

/// Keys as plain texts.
pub open spec fn keys_view(keys: Seq<&str>) -> Seq<Seq<char>> {
    keys.map_values(|k: &str| k@)
}

/// The value at `path` below `v`, where every step exists.
pub fn deep_get<'a>(v: &'a Json, path: &[&str]) -> (r: Option<&'a Json>)
    ensures
        deref(r) == path_of(Some(*v), keys_view(path@)),
{
    let ghost ps = keys_view(path@);
    let mut cur: &Json = v;
    let mut i: usize = 0;
    proof {
        assert(ps.skip(0) =~= ps);
    }
    while i < path.len()
        invariant
            0 <= i <= path@.len(),
            ps == keys_view(path@),
            path_of(Some(*v), ps) == path_of(Some(*cur), ps.skip(i as int)),
        decreases path@.len() - i,
    {
        proof {
            assert(ps.skip(i as int)[0] == path@[i as int]@);
            assert(ps.skip(i as int).drop_first() =~= ps.skip(i + 1));
        }
        match get(Some(cur), path[i]) {
            Some(next) => cur = next,
            None => {
                proof {
                    lemma_nothing_below(ps.skip(i + 1));
                }
                return None;
            },
        }
        i = i + 1;
    }
    Some(cur)
}

/// Nothing is found below a missing value.
proof fn lemma_nothing_below(parts: Seq<Seq<char>>)
    ensures
        path_of(None, parts) is None,
    decreases parts.len(),
{
    if parts.len() > 0 {
        lemma_nothing_below(parts.drop_first());
    }
}

/// The first of `keys` whose member is a string: that string; else empty.
pub open spec fn field_of(v: Json, keys: Seq<Seq<char>>) -> Seq<char>
    decreases keys.len(),
{
    if keys.len() == 0 {
        Seq::empty()
    } else {
        match str_of(get_of(Some(v), keys[0])) {
            Some(s) => s,
            None => field_of(v, keys.drop_first()),
        }
    }
}

/// The first of `keys` whose member is a non-empty string or a number: its
/// text; else empty. Train numbers arrive both ways.
pub open spec fn num_field_of(v: Json, keys: Seq<Seq<char>>) -> Seq<char>
    decreases keys.len(),
{
    if keys.len() == 0 {
        Seq::empty()
    } else {
        match get_of(Some(v), keys[0]) {
            Some(Json::Str(s)) => if s@.len() > 0 {
                s@
            } else {
                num_field_of(v, keys.drop_first())
            },
            Some(Json::Number(t)) => t@,
            _ => num_field_of(v, keys.drop_first()),
        }
    }
}

/// The strings among `a`, in order.
pub open spec fn strings_in(a: Seq<Json>) -> Seq<Seq<char>>
    decreases a.len(),
{
    if a.len() == 0 {
        Seq::empty()
    } else {
        match a.last() {
            Json::Str(s) => strings_in(a.drop_last()).push(s@),
            _ => strings_in(a.drop_last()),
        }
    }
}

/// The first of `keys` whose member is an array.
pub open spec fn first_array_of(v: Json, keys: Seq<Seq<char>>) -> Option<Seq<Json>>
    decreases keys.len(),
{
    if keys.len() == 0 {
        None
    } else {
        match array_of(get_of(Some(v), keys[0])) {
            Some(a) => Some(a),
            None => first_array_of(v, keys.drop_first()),
        }
    }
}

/// The strings of the first of `keys` whose member is an array; else none.
pub open spec fn list_field_of(v: Json, keys: Seq<Seq<char>>) -> Seq<Seq<char>> {
    match first_array_of(v, keys) {
        Some(a) => strings_in(a),
        None => Seq::empty(),
    }
}

/// The first of `keys` whose member is a whole number that fits `i64`, or a
/// string that reads as one.
pub open spec fn int_field_of(v: Json, keys: Seq<Seq<char>>) -> Option<i64>
    decreases keys.len(),
{
    if keys.len() == 0 {
        None
    } else {
        let here = match get_of(Some(v), keys[0]) {
            Some(Json::Number(t)) => i64_of(Some(Json::Number(t))),
            Some(Json::Str(s)) => parsed_i64(s@),
            _ => None,
        };
        match here {
            Some(n) => Some(n),
            None => int_field_of(v, keys.drop_first()),
        }
    }
}

/// The first string member among `keys`, else empty.
pub(crate) fn field(v: &Json, keys: &[&str]) -> (r: String)
    ensures
        r@ == field_of(*v, keys_view(keys@)),
{
    let ghost ks = keys_view(keys@);
    let mut i: usize = 0;
    proof {
        assert(ks.skip(0) =~= ks);
    }
    while i < keys.len()
        invariant
            0 <= i <= keys@.len(),
            ks == keys_view(keys@),
            field_of(*v, ks) == field_of(*v, ks.skip(i as int)),
        decreases keys@.len() - i,
    {
        proof {
            assert(ks.skip(i as int)[0] == keys@[i as int]@);
            assert(ks.skip(i as int).drop_first() =~= ks.skip(i + 1));
        }
        match as_str(get(Some(v), keys[i])) {
            Some(s) => return s.to_owned(),
            None => {},
        }
        i = i + 1;
    }
    String::new()
}

/// The string member `key`, else empty.
pub(crate) fn field_one(v: &Json, key: &str) -> (r: String)
    ensures
        r@ == field_of(*v, seq![key@]),
{
    let ghost ks = seq![key@];
    proof {
        assert(ks.len() == 1);
        assert(ks[0] == key@);
        assert(ks.drop_first() =~= Seq::<Seq<char>>::empty());
        assert(field_of(*v, ks.drop_first()) == Seq::<char>::empty());
    }
    match as_str(get(Some(v), key)) {
        Some(s) => s.to_owned(),
        None => String::new(),
    }
}

/// The first non-empty string or number member among `keys`, else empty.
fn num_field(v: &Json, keys: &[&str]) -> (r: String)
    ensures
        r@ == num_field_of(*v, keys_view(keys@)),
{
    let ghost ks = keys_view(keys@);
    let mut i: usize = 0;
    proof {
        assert(ks.skip(0) =~= ks);
    }
    while i < keys.len()
        invariant
            0 <= i <= keys@.len(),
            ks == keys_view(keys@),
            num_field_of(*v, ks) == num_field_of(*v, ks.skip(i as int)),
        decreases keys@.len() - i,
    {
        proof {
            assert(ks.skip(i as int)[0] == keys@[i as int]@);
            assert(ks.skip(i as int).drop_first() =~= ks.skip(i + 1));
        }
        match get(Some(v), keys[i]) {
            Some(Json::Str(s)) => {
                if !s.as_str().is_empty() {
                    return s.clone();
                }
            },
            Some(Json::Number(t)) => return t.clone(),
            _ => {},
        }
        i = i + 1;
    }
    String::new()
}

/// The first array member among `keys`.
fn first_array<'a>(v: &'a Json, keys: &[&str]) -> (r: Option<&'a Vec<Json>>)
    ensures
        match r {
            Some(a) => first_array_of(*v, keys_view(keys@)) == Some(a@),
            None => first_array_of(*v, keys_view(keys@)) is None,
        },
{
    let ghost ks = keys_view(keys@);
    let mut i: usize = 0;
    proof {
        assert(ks.skip(0) =~= ks);
    }
    while i < keys.len()
        invariant
            0 <= i <= keys@.len(),
            ks == keys_view(keys@),
            first_array_of(*v, ks) == first_array_of(*v, ks.skip(i as int)),
        decreases keys@.len() - i,
    {
        proof {
            assert(ks.skip(i as int)[0] == keys@[i as int]@);
            assert(ks.skip(i as int).drop_first() =~= ks.skip(i + 1));
        }
        match as_array(get(Some(v), keys[i])) {
            Some(a) => return Some(a),
            None => {},
        }
        i = i + 1;
    }
    None
}

/// The strings of an array, in order.
pub(crate) fn strings(a: &Vec<Json>) -> (r: Vec<String>)
    ensures
        string_views(r@) == strings_in(a@),
{
    let mut out: Vec<String> = Vec::new();
    let mut i: usize = 0;
    proof {
        assert(a@.take(0) =~= Seq::<Json>::empty());
        assert(string_views(out@) =~= Seq::<Seq<char>>::empty());
    }
    while i < a.len()
        invariant
            0 <= i <= a@.len(),
            string_views(out@) == strings_in(a@.take(i as int)),
        decreases a@.len() - i,
    {
        proof {
            assert(a@.take(i + 1).drop_last() =~= a@.take(i as int));
            assert(a@.take(i + 1).last() == a@[i as int]);
        }
        match &a[i] {
            Json::Str(s) => {
                let ghost ov = string_views(out@);
                out.push(s.clone());
                proof {
                    assert(string_views(out@) =~= ov.push(s@));
                }
            },
            _ => {},
        }
        i = i + 1;
    }
    proof {
        assert(a@.take(a@.len() as int) =~= a@);
    }
    out
}

/// The strings of the first array member among `keys`.
fn list_field(v: &Json, keys: &[&str]) -> (r: Vec<String>)
    ensures
        string_views(r@) == list_field_of(*v, keys_view(keys@)),
{
    match first_array(v, keys) {
        Some(a) => strings(a),
        None => {
            let r: Vec<String> = Vec::new();
            proof {
                assert(string_views(r@) =~= Seq::<Seq<char>>::empty());
            }
            r
        },
    }
}

/// The first whole-number member among `keys`.
fn int_field(v: &Json, keys: &[&str]) -> (r: Option<i64>)
    ensures
        r == int_field_of(*v, keys_view(keys@)),
{
    let ghost ks = keys_view(keys@);
    let mut i: usize = 0;
    proof {
        assert(ks.skip(0) =~= ks);
    }
    while i < keys.len()
        invariant
            0 <= i <= keys@.len(),
            ks == keys_view(keys@),
            int_field_of(*v, ks) == int_field_of(*v, ks.skip(i as int)),
        decreases keys@.len() - i,
    {
        proof {
            assert(ks.skip(i as int)[0] == keys@[i as int]@);
            assert(ks.skip(i as int).drop_first() =~= ks.skip(i + 1));
        }
        let m = get(Some(v), keys[i]);
        let here = match m {
            Some(Json::Number(_)) => as_i64(m),
            Some(Json::Str(s)) => parse_i64(s.as_str()),
            _ => None,
        };
        if here.is_some() {
            return here;
        }
        i = i + 1;
    }
    None
}

// ------------------------------------------------------------------ run days

/// The day names, Monday first, as IRCTC writes them in full.
pub open spec fn full_days() -> Seq<Seq<char>> {
    seq!["MON"@, "TUE"@, "WED"@, "THU"@, "FRI"@, "SAT"@, "SUN"@]
}

/// The day names, Monday first, as IRCTC writes them short.
pub open spec fn short_days() -> Seq<Seq<char>> {
    seq!["MO"@, "TU"@, "WE"@, "TH"@, "FR"@, "SA"@, "SU"@]
}

/// The day names of the run-day flags, Monday first.
pub open spec fn flag_days() -> Seq<Seq<char>> {
    seq!["Mon"@, "Tue"@, "Wed"@, "Thu"@, "Fri"@, "Sat"@, "Sun"@]
}

/// The day (Monday first) an upper-cased name stands for: its place among
/// the full names, else among the short ones.
pub open spec fn day_index_of(u: Seq<char>) -> Option<int> {
    if exists|i: int| 0 <= i < 7 && full_days()[i] == u {
        Some(choose|i: int| 0 <= i < 7 && full_days()[i] == u)
    } else if exists|i: int| 0 <= i < 7 && short_days()[i] == u {
        Some(choose|i: int| 0 <= i < 7 && short_days()[i] == u)
    } else {
        None
    }
}

/// An upper-cased run-day entry names day `i` exactly when it is that day's
/// full name (`MON` .. `SUN`) or its short name (`MO` .. `SU`).
pub proof fn lemma_day_index_names(u: Seq<char>, i: int)
    requires
        0 <= i < 7,
    ensures
        day_index_of(u) == Some(i) <==> (u == full_days()[i] || u == short_days()[i]),
{
    reveal_strlit("MON");
    reveal_strlit("TUE");
    reveal_strlit("WED");
    reveal_strlit("THU");
    reveal_strlit("FRI");
    reveal_strlit("SAT");
    reveal_strlit("SUN");
    reveal_strlit("MO");
    reveal_strlit("TU");
    reveal_strlit("WE");
    reveal_strlit("TH");
    reveal_strlit("FR");
    reveal_strlit("SA");
    reveal_strlit("SU");
    let f = full_days();
    let sh = short_days();
    assert forall|a: int, b: int| 0 <= a < 7 && 0 <= b < 7 && f[a] == f[b] implies a == b by {
        assert(f[a][0] == f[b][0] && f[a][1] == f[b][1]);
    }
    assert forall|a: int, b: int| 0 <= a < 7 && 0 <= b < 7 && sh[a] == sh[b] implies a == b by {
        assert(sh[a][0] == sh[b][0] && sh[a][1] == sh[b][1]);
    }
    assert forall|a: int, b: int| 0 <= a < 7 && 0 <= b < 7 implies f[a] != sh[b] by {
        assert(f[a].len() != sh[b].len());
    }
}

/// The run days an entry's `runDays` list gives: Monday through Sunday,
/// each marked exactly when some entry, upper-cased, is that day's full or
/// short name; none without such a list.
pub proof fn lemma_listed_days_name_days(entry: Json, i: int)
    requires
        0 <= i < 7,
    ensures
        listed_days(entry).len() == 7,
        array_of(get_of(Some(entry), "runDays"@)) matches Some(days) ==> (listed_days(entry)[i] <==> exists|k: int|
            0 <= k < days.len() && (day_entry_of(#[trigger] days[k]) == full_days()[i] || day_entry_of(days[k])
                == short_days()[i])),
        array_of(get_of(Some(entry), "runDays"@)) is None ==> !listed_days(entry)[i],
{
    if let Some(days) = array_of(get_of(Some(entry), "runDays"@)) {
        assert(listed_days(entry)[i] == listed(days, i));
        if listed(days, i) {
            let k = choose|k: int| 0 <= k < days.len() && day_index_of(day_entry_of(#[trigger] days[k])) == Some(i);
            lemma_day_index_names(day_entry_of(days[k]), i);
        }
        if exists|k: int| 0 <= k < days.len() && (day_entry_of(#[trigger] days[k]) == full_days()[i]
            || day_entry_of(days[k]) == short_days()[i]) {
            let k = choose|k: int| 0 <= k < days.len() && (day_entry_of(#[trigger] days[k]) == full_days()[i]
                || day_entry_of(days[k]) == short_days()[i]);
            lemma_day_index_names(day_entry_of(days[k]), i);
        }
    }
}

/// The upper-cased text of a run-day entry (empty for a non-string).
pub open spec fn day_entry_of(d: Json) -> Seq<char> {
    uppercase_of(
        match d {
            Json::Str(s) => s@,
            _ => Seq::empty(),
        },
    )
}

/// Whether some entry of `days` names day `i`.
pub open spec fn listed(days: Seq<Json>, i: int) -> bool {
    exists|k: int| 0 <= k < days.len() && day_index_of(day_entry_of(#[trigger] days[k])) == Some(i)
}

/// The days the `runDays` list names, Monday first (none without a list).
pub open spec fn listed_days(entry: Json) -> Seq<bool> {
    match array_of(get_of(Some(entry), "runDays"@)) {
        Some(days) => Seq::new(7, |i: int| listed(days, i)),
        None => Seq::new(7, |i: int| false),
    }
}

/// Some day is marked.
pub open spec fn any_day(s: Seq<bool>) -> bool {
    exists|i: int| 0 <= i < s.len() && #[trigger] s[i]
}

/// The days whose `runOn<Day>` or `runsOn<Day>` flag is `true`.
pub open spec fn flagged_days(entry: Json) -> Seq<bool> {
    Seq::new(
        7,
        |i: int|
            bool_of(get_of(Some(entry), "runOn"@ + flag_days()[i])) == Some(true) || bool_of(
                get_of(Some(entry), "runsOn"@ + flag_days()[i]),
            ) == Some(true),
    )
}

/// The days a train runs, Monday first: the days its `runDays` list names
/// (full or short names, any case) where it names any; else the
/// `runOn<Day>` or `runsOn<Day>` flags that are `true`.
pub open spec fn day_bools_of(entry: Json) -> Seq<bool> {
    if any_day(listed_days(entry)) {
        listed_days(entry)
    } else {
        flagged_days(entry)
    }
}

/// The day an upper-cased name stands for.
fn day_index(u: &str) -> (r: Option<usize>)
    ensures
        match r {
            Some(i) => day_index_of(u@) == Some(i as int) && i < 7,
            None => day_index_of(u@) is None,
        },
{
    let full: [&str; 7] = ["MON", "TUE", "WED", "THU", "FRI", "SAT", "SUN"];
    let short: [&str; 7] = ["MO", "TU", "WE", "TH", "FR", "SA", "SU"];
    let mut i: usize = 0;
    while i < 7
        invariant
            0 <= i <= 7,
            forall|k: int| 0 <= k < 7 ==> (#[trigger] full@[k])@ == full_days()[k],
            forall|k: int| 0 <= k < i ==> full_days()[k] != u@,
        decreases 7 - i,
    {
        if str_eq(full[i], u) {
            proof {
                assert(full_days()[i as int] == u@);
                let c = choose|j: int| 0 <= j < 7 && full_days()[j] == u@;
                assert(full_days().len() == 7);
                lemma_days_distinct();
                assert(c == i);
            }
            return Some(i);
        }
        i = i + 1;
    }
    let mut j: usize = 0;
    while j < 7
        invariant
            0 <= j <= 7,
            forall|k: int| 0 <= k < 7 ==> (#[trigger] short@[k])@ == short_days()[k],
            forall|k: int| 0 <= k < 7 ==> full_days()[k] != u@,
            forall|k: int| 0 <= k < j ==> short_days()[k] != u@,
        decreases 7 - j,
    {
        if str_eq(short[j], u) {
            proof {
                assert(short_days()[j as int] == u@);
                let c = choose|k: int| 0 <= k < 7 && short_days()[k] == u@;
                lemma_days_distinct();
                assert(c == j);
            }
            return Some(j);
        }
        j = j + 1;
    }
    None
}

/// The day names differ from one another.
proof fn lemma_days_distinct()
    ensures
        forall|a: int, b: int| 0 <= a < 7 && 0 <= b < 7 && full_days()[a] == full_days()[b] ==> a == b,
        forall|a: int, b: int| 0 <= a < 7 && 0 <= b < 7 && short_days()[a] == short_days()[b] ==> a == b,
{
    reveal_strlit("MON");
    reveal_strlit("TUE");
    reveal_strlit("WED");
    reveal_strlit("THU");
    reveal_strlit("FRI");
    reveal_strlit("SAT");
    reveal_strlit("SUN");
    reveal_strlit("MO");
    reveal_strlit("TU");
    reveal_strlit("WE");
    reveal_strlit("TH");
    reveal_strlit("FR");
    reveal_strlit("SA");
    reveal_strlit("SU");
    assert forall|a: int, b: int| 0 <= a < 7 && 0 <= b < 7 && full_days()[a] == full_days()[b] implies a == b by {
        if a != b {
            assert(full_days()[a][0] != full_days()[b][0] || full_days()[a][1] != full_days()[b][1]);
        }
    }
    assert forall|a: int, b: int| 0 <= a < 7 && 0 <= b < 7 && short_days()[a] == short_days()[b] implies a == b by {
        if a != b {
            assert(short_days()[a][0] != short_days()[b][0] || short_days()[a][1] != short_days()[b][1]);
        }
    }
}

/// Whether a flag member is `true`.
fn flag(entry: &Json, prefix: &str, day: &str) -> (r: bool)
    ensures
        r == (bool_of(get_of(Some(*entry), prefix@ + day@)) == Some(true)),
{
    let mut key: Vec<char> = Vec::new();
    crate::text::push_str(&mut key, prefix);
    crate::text::push_str(&mut key, day);
    let k = crate::text::string_of(key.as_slice());
    match as_bool(get(Some(entry), k.as_str())) {
        Some(b) => b,
        None => false,
    }
}

/// The days a train runs, Monday first.
fn day_bools(entry: &Json) -> (r: Vec<bool>)
    ensures
        r@ == day_bools_of(*entry),
{
    let mut out: Vec<bool> = vec![false, false, false, false, false, false, false];
    let ghost list_view: Seq<bool> = Seq::new(7, |i: int| false);
    match as_array(get(Some(entry), "runDays")) {
        Some(days) => {
            let mut k: usize = 0;
            while k < days.len()
                invariant
                    0 <= k <= days@.len(),
                    out@.len() == 7,
                    forall|i: int| 0 <= i < 7 ==> out@[i] == (exists|q: int| 0 <= q < k && day_index_of(day_entry_of(#[trigger] days@[q])) == Some(i)),
                decreases days@.len() - k,
            {
                let text = match &days[k] {
                    Json::Str(s) => s.clone(),
                    _ => String::new(),
                };
                let u = to_uppercase(text.as_str());
                proof {
                    assert(u@ == day_entry_of(days@[k as int]));
                }
                let ghost before = out@;
                match day_index(u.as_str()) {
                    Some(i) => {
                        out.set(i, true);
                    },
                    None => {},
                }
                proof {
                    assert forall|i: int| 0 <= i < 7 implies out@[i] == (exists|q: int| 0 <= q < k + 1 && day_index_of(day_entry_of(#[trigger] days@[q])) == Some(i)) by {
                        if day_index_of(day_entry_of(days@[k as int])) == Some(i) {
                            assert(out@[i]);
                        } else {
                            assert(out@[i] == before[i]);
                            if exists|q: int| 0 <= q < k + 1 && day_index_of(day_entry_of(#[trigger] days@[q])) == Some(i) {
                                let q = choose|q: int| 0 <= q < k + 1 && day_index_of(day_entry_of(#[trigger] days@[q])) == Some(i);
                                assert(q < k);
                            }
                        }
                    }
                }
                k = k + 1;
            }
            proof {
                assert(out@ =~= Seq::new(7, |i: int| listed(days@, i)));
            }
            let mut any = false;
            let mut i: usize = 0;
            while i < 7
                invariant
                    0 <= i <= 7,
                    out@.len() == 7,
                    any <==> exists|q: int| 0 <= q < i && out@[q],
                decreases 7 - i,
            {
                if out[i] {
                    any = true;
                }
                i = i + 1;
            }
            if any {
                proof {
                    let q = choose|q: int| 0 <= q < 7 && out@[q];
                    let fl = Seq::new(7, |i: int| listed(days@, i));
                    assert(out@ == fl);
                    assert(fl[q]);
                    assert(listed_days(*entry) == fl);
                    assert(any_day(fl));
                }
                return out;
            }
        },
        None => {},
    }
    proof {
        match array_of(get_of(Some(*entry), "runDays"@)) {
            Some(days) => {
                assert(listed_days(*entry) == out@);
            },
            None => {
                assert(listed_days(*entry) =~= out@);
            },
        }
        assert(!any_day(listed_days(*entry)));
    }
    let names: [&str; 7] = ["Mon", "Tue", "Wed", "Thu", "Fri", "Sat", "Sun"];
    let mut flags: Vec<bool> = Vec::new();
    let mut d: usize = 0;
    while d < 7
        invariant
            0 <= d <= 7,
            forall|k: int| 0 <= k < 7 ==> (#[trigger] names@[k])@ == flag_days()[k],
            flags@.len() == d,
            forall|k: int|
                0 <= k < d ==> flags@[k] == (bool_of(get_of(Some(*entry), "runOn"@ + flag_days()[k])) == Some(true)
                    || bool_of(get_of(Some(*entry), "runsOn"@ + flag_days()[k])) == Some(true)),
        decreases 7 - d,
    {
        let a = flag(entry, "runOn", names[d]);
        let b = flag(entry, "runsOn", names[d]);
        flags.push(a || b);
        d = d + 1;
    }
    proof {
        assert(flags@ =~= flagged_days(*entry));
    }
    flags
}

// ------------------------------------------------------------- availability

/// A train of the availability answer.
#[derive(Debug, Clone)]
pub struct AvailabilityTrain {
    pub number: String,
    pub name: String,
    pub from_code: String,
    pub from_name: String,
    pub to_code: String,
    pub to_name: String,
    pub departure_time: String,
    pub arrival_time: String,
    pub duration: String,
    pub distance: String,
    pub classes: Vec<String>,
    pub train_type: String,
    /// The days it runs, Monday first.
    pub runs_on: Vec<bool>,
}

/// An availability train as plain values.
pub struct AvailabilityTrainV {
    pub number: Seq<char>,
    pub name: Seq<char>,
    pub from_code: Seq<char>,
    pub from_name: Seq<char>,
    pub to_code: Seq<char>,
    pub to_name: Seq<char>,
    pub departure_time: Seq<char>,
    pub arrival_time: Seq<char>,
    pub duration: Seq<char>,
    pub distance: Seq<char>,
    pub classes: Seq<Seq<char>>,
    pub train_type: Seq<char>,
    pub runs_on: Seq<bool>,
}

impl View for AvailabilityTrain {
    type V = AvailabilityTrainV;

    open spec fn view(&self) -> AvailabilityTrainV {
        AvailabilityTrainV {
            number: self.number@,
            name: self.name@,
            from_code: self.from_code@,
            from_name: self.from_name@,
            to_code: self.to_code@,
            to_name: self.to_name@,
            departure_time: self.departure_time@,
            arrival_time: self.arrival_time@,
            duration: self.duration@,
            distance: self.distance@,
            classes: string_views(self.classes@),
            train_type: self.train_type@,
            runs_on: self.runs_on@,
        }
    }
}

/// Availability trains as plain values.
pub open spec fn availability_views(v: Seq<AvailabilityTrain>) -> Seq<AvailabilityTrainV> {
    v.map_values(|t: AvailabilityTrain| t@)
}

/// One train of the availability answer, each field under the names it is
/// known to arrive by.
pub open spec fn availability_train_of(t: Json) -> AvailabilityTrainV {
    AvailabilityTrainV {
        number: num_field_of(t, seq!["trainNumber"@, "trainNo"@]),
        name: field_of(t, seq!["trainName"@]),
        from_code: field_of(t, seq!["fromStnCode"@, "srcStnCode"@, "fromStationCode"@]),
        from_name: field_of(t, seq!["fromStnName"@, "srcStnName"@]),
        to_code: field_of(t, seq!["toStnCode"@, "destStnCode"@, "toStationCode"@]),
        to_name: field_of(t, seq!["toStnName"@, "destStnName"@]),
        departure_time: field_of(t, seq!["departureTime"@, "depTime"@]),
        arrival_time: field_of(t, seq!["arrivalTime"@, "arrTime"@]),
        duration: field_of(t, seq!["duration"@]),
        distance: field_of(t, seq!["distance"@]),
        classes: list_field_of(t, seq!["avlClasses"@, "availableClasses"@]),
        train_type: field_of(t, seq!["trainType"@]),
        runs_on: day_bools_of(t),
    }
}

/// The train list of the availability answer: the first of
/// `trainBtwnStnsList` and `trainList` that is an array, when not empty.
pub open spec fn train_list_of(data: Json) -> Option<Seq<Json>> {
    match first_array_of(data, seq!["trainBtwnStnsList"@, "trainList"@]) {
        Some(a) => if a.len() > 0 {
            Some(a)
        } else {
            None
        },
        None => None,
    }
}

/// `e` is the source failing with `reason`.
pub open spec fn source_failure(e: AppError, reason: Seq<char>) -> bool {
    e matches AppError::SourceUnavailable { source, reason: r } && source@ == SOURCE@ && r@ == reason
}

/// One train of the availability answer.
fn availability_train(t: &Json) -> (r: AvailabilityTrain)
    ensures
        r@ == availability_train_of(*t),
{
    let r = AvailabilityTrain {
        number: num_field(t, &["trainNumber", "trainNo"]),
        name: field_one(t, "trainName"),
        from_code: field(t, &["fromStnCode", "srcStnCode", "fromStationCode"]),
        from_name: field(t, &["fromStnName", "srcStnName"]),
        to_code: field(t, &["toStnCode", "destStnCode", "toStationCode"]),
        to_name: field(t, &["toStnName", "destStnName"]),
        departure_time: field(t, &["departureTime", "depTime"]),
        arrival_time: field(t, &["arrivalTime", "arrTime"]),
        duration: field_one(t, "duration"),
        distance: field_one(t, "distance"),
        classes: list_field(t, &["avlClasses", "availableClasses"]),
        train_type: field_one(t, "trainType"),
        runs_on: day_bools(t),
    };
    proof {
        assert(keys_view(seq!["trainNumber", "trainNo"]) =~= seq!["trainNumber"@, "trainNo"@]);
        assert(keys_view(seq!["fromStnCode", "srcStnCode", "fromStationCode"]) =~= seq![
            "fromStnCode"@,
            "srcStnCode"@,
            "fromStationCode"@,
        ]);
        assert(keys_view(seq!["fromStnName", "srcStnName"]) =~= seq!["fromStnName"@, "srcStnName"@]);
        assert(keys_view(seq!["toStnCode", "destStnCode", "toStationCode"]) =~= seq![
            "toStnCode"@,
            "destStnCode"@,
            "toStationCode"@,
        ]);
        assert(keys_view(seq!["toStnName", "destStnName"]) =~= seq!["toStnName"@, "destStnName"@]);
        assert(keys_view(seq!["departureTime", "depTime"]) =~= seq!["departureTime"@, "depTime"@]);
        assert(keys_view(seq!["arrivalTime", "arrTime"]) =~= seq!["arrivalTime"@, "arrTime"@]);
        assert(keys_view(seq!["avlClasses", "availableClasses"]) =~= seq!["avlClasses"@, "availableClasses"@]);
    }
    r
}

/// The trains of an availability (`altAvlEnq`) answer; the source failing
/// where it has no non-empty train list.
pub fn availability_trains(data: &Json) -> (r: Result<Vec<AvailabilityTrain>, AppError>)
    ensures
        match r {
            Ok(v) => (train_list_of(*data) matches Some(list) && availability_views(v@) == list.map_values(
                |t: Json| availability_train_of(t),
            )),
            Err(e) => train_list_of(*data) is None && source_failure(e, BAD_AVAILABILITY@),
        },
{
    let list = first_array(data, &["trainBtwnStnsList", "trainList"]);
    proof {
        assert(keys_view(seq!["trainBtwnStnsList", "trainList"]) =~= seq!["trainBtwnStnsList"@, "trainList"@]);
    }
    let list = match list {
        Some(a) => if a.len() > 0 {
            a
        } else {
            return Err(AppError::SourceUnavailable { source: SOURCE.to_owned(), reason: BAD_AVAILABILITY.to_owned() });
        },
        None => {
            return Err(AppError::SourceUnavailable { source: SOURCE.to_owned(), reason: BAD_AVAILABILITY.to_owned() });
        },
    };
    let mut out: Vec<AvailabilityTrain> = Vec::new();
    let mut i: usize = 0;
    while i < list.len()
        invariant
            0 <= i <= list@.len(),
            out@.len() == i,
            forall|k: int| 0 <= k < i ==> (#[trigger] out@[k])@ == availability_train_of(list@[k]),
        decreases list@.len() - i,
    {
        out.push(availability_train(&list[i]));
        i = i + 1;
    }
    proof {
        assert(availability_views(out@) =~= list@.map_values(|t: Json| availability_train_of(t)));
    }
    Ok(out)
}

// --------------------------------------------------------------------- chart

/// A berth of a coach.
#[derive(Debug, Clone)]
pub struct Berth {
    pub number: i64,
    pub status: String,
}

/// A coach of the train.
#[derive(Debug, Clone)]
pub struct Coach {
    pub code: String,
    pub class_code: String,
    pub berths: Vec<Berth>,
}

/// A train's composition.
#[derive(Debug, Clone)]
pub struct Chart {
    pub train_number: String,
    pub train_name: String,
    pub coaches: Vec<Coach>,
}

/// A coach as plain values: code, class and each berth's number and status.
pub struct CoachV {
    pub code: Seq<char>,
    pub class_code: Seq<char>,
    pub berths: Seq<(i64, Seq<char>)>,
}

/// A composition as plain values.
pub struct ChartV {
    pub train_number: Seq<char>,
    pub train_name: Seq<char>,
    pub coaches: Seq<CoachV>,
}

impl View for Coach {
    type V = CoachV;

    open spec fn view(&self) -> CoachV {
        CoachV {
            code: self.code@,
            class_code: self.class_code@,
            berths: self.berths@.map_values(|b: Berth| (b.number, b.status@)),
        }
    }
}

impl View for Chart {
    type V = ChartV;

    open spec fn view(&self) -> ChartV {
        ChartV {
            train_number: self.train_number@,
            train_name: self.train_name@,
            coaches: self.coaches@.map_values(|c: Coach| c@),
        }
    }
}

/// A berth's status: its status code in lower case where it has one;
/// else `vacant` or `occupied` from the flags; else `unknown`.
pub open spec fn berth_status_of(b: Json) -> Seq<char> {
    let code = field_of(b, seq!["status"@, "avail"@, "available"@, "bookingStatus"@]);
    if code.len() > 0 {
        lowercase_of(code)
    } else if bool_of(get_of(Some(b), "vacant"@)) == Some(true) {
        "vacant"@
    } else if bool_of(get_of(Some(b), "booked"@)) == Some(true) {
        "occupied"@
    } else {
        "unknown"@
    }
}

/// A berth: its number (0 where missing) and status.
pub open spec fn berth_of(b: Json) -> (i64, Seq<char>) {
    (
        match int_field_of(b, seq!["berthNo"@, "berthNumber"@]) {
            Some(n) => n,
            None => 0,
        },
        berth_status_of(b),
    )
}

/// A coach: code, class and the berths of the first of `berthList` and
/// `berths` that is an array.
pub open spec fn coach_of(c: Json) -> CoachV {
    CoachV {
        code: field_of(c, seq!["coachCode"@, "coachNo"@, "coach"@]),
        class_code: field_of(c, seq!["classCode"@, "coachClass"@, "class"@]),
        berths: match first_array_of(c, seq!["berthList"@, "berths"@]) {
            Some(a) => a.map_values(|b: Json| berth_of(b)),
            None => Seq::empty(),
        },
    }
}

/// The train's part of the answer: under `trainData`, or the answer itself.
pub open spec fn train_data_of(data: Json) -> Json {
    match get_of(Some(data), "trainData"@) {
        Some(t) => t,
        None => data,
    }
}

/// The coach list: the first of `coachList`, `coachDetails` and `coaches`
/// that is an array, when not empty.
pub open spec fn coach_list_of(data: Json) -> Option<Seq<Json>> {
    match first_array_of(train_data_of(data), seq!["coachList"@, "coachDetails"@, "coaches"@]) {
        Some(a) => if a.len() > 0 {
            Some(a)
        } else {
            None
        },
        None => None,
    }
}

/// The composition an answer describes.
pub open spec fn chart_of(data: Json, list: Seq<Json>) -> ChartV {
    ChartV {
        train_number: field_of(train_data_of(data), seq!["trainNumber"@, "trainNo"@]),
        train_name: field_of(train_data_of(data), seq!["trainName"@, "trainNameHn"@]),
        coaches: list.map_values(|c: Json| coach_of(c)),
    }
}

/// A berth's status.
fn berth_status(b: &Json) -> (r: String)
    ensures
        r@ == berth_status_of(*b),
{
    let code = field(b, &["status", "avail", "available", "bookingStatus"]);
    proof {
        assert(keys_view(seq!["status", "avail", "available", "bookingStatus"]) =~= seq![
            "status"@,
            "avail"@,
            "available"@,
            "bookingStatus"@,
        ]);
    }
    if !code.as_str().is_empty() {
        return to_lowercase(code.as_str());
    }
    if as_bool(get(Some(b), "vacant")) == Some(true) {
        return "vacant".to_owned();
    }
    if as_bool(get(Some(b), "booked")) == Some(true) {
        return "occupied".to_owned();
    }
    "unknown".to_owned()
}

/// A coach.
fn coach(c: &Json) -> (r: Coach)
    ensures
        r@ == coach_of(*c),
{
    let mut berths: Vec<Berth> = Vec::new();
    let list = first_array(c, &["berthList", "berths"]);
    proof {
        assert(keys_view(seq!["berthList", "berths"]) =~= seq!["berthList"@, "berths"@]);
        assert(keys_view(seq!["berthNo", "berthNumber"]) =~= seq!["berthNo"@, "berthNumber"@]);
    }
    match list {
        Some(a) => {
            let mut i: usize = 0;
            while i < a.len()
                invariant
                    0 <= i <= a@.len(),
                    berths@.len() == i,
                    keys_view(seq!["berthNo", "berthNumber"]) == seq!["berthNo"@, "berthNumber"@],
                    forall|k: int| 0 <= k < i ==> ((#[trigger] berths@[k]).number, berths@[k].status@) == berth_of(a@[k]),
                decreases a@.len() - i,
            {
                let b = &a[i];
                let number = match int_field(b, &["berthNo", "berthNumber"]) {
                    Some(n) => n,
                    None => 0,
                };
                berths.push(Berth { number, status: berth_status(b) });
                i = i + 1;
            }
            proof {
                assert(berths@.map_values(|b: Berth| (b.number, b.status@)) =~= a@.map_values(|b: Json| berth_of(b)));
            }
        },
        None => {
            proof {
                assert(berths@.map_values(|b: Berth| (b.number, b.status@)) =~= Seq::<(i64, Seq<char>)>::empty());
            }
        },
    }
    let r = Coach {
        code: field(c, &["coachCode", "coachNo", "coach"]),
        class_code: field(c, &["classCode", "coachClass", "class"]),
        berths,
    };
    proof {
        assert(keys_view(seq!["coachCode", "coachNo", "coach"]) =~= seq!["coachCode"@, "coachNo"@, "coach"@]);
        assert(keys_view(seq!["classCode", "coachClass", "class"]) =~= seq!["classCode"@, "coachClass"@, "class"@]);
    }
    r
}

/// A train's composition (`trainComposition`): the train and its coaches
/// with their berths; the source failing where the answer has no non-empty
/// coach list.
pub fn chart(data: &Json) -> (r: Result<Chart, AppError>)
    ensures
        match r {
            Ok(c) => (coach_list_of(*data) matches Some(list) && c@ == chart_of(*data, list)),
            Err(e) => coach_list_of(*data) is None && source_failure(e, BAD_COMPOSITION@),
        },
{
    let train_data = match get(Some(data), "trainData") {
        Some(t) => t,
        None => data,
    };
    let list = first_array(train_data, &["coachList", "coachDetails", "coaches"]);
    proof {
        assert(keys_view(seq!["coachList", "coachDetails", "coaches"]) =~= seq![
            "coachList"@,
            "coachDetails"@,
            "coaches"@,
        ]);
    }
    let list = match list {
        Some(a) => if a.len() > 0 {
            a
        } else {
            return Err(AppError::SourceUnavailable { source: SOURCE.to_owned(), reason: BAD_COMPOSITION.to_owned() });
        },
        None => {
            return Err(AppError::SourceUnavailable { source: SOURCE.to_owned(), reason: BAD_COMPOSITION.to_owned() });
        },
    };
    let mut coaches: Vec<Coach> = Vec::new();
    let mut i: usize = 0;
    while i < list.len()
        invariant
            0 <= i <= list@.len(),
            coaches@.len() == i,
            forall|k: int| 0 <= k < i ==> (#[trigger] coaches@[k])@ == coach_of(list@[k]),
        decreases list@.len() - i,
    {
        coaches.push(coach(&list[i]));
        i = i + 1;
    }
    let r = Chart {
        train_number: field(train_data, &["trainNumber", "trainNo"]),
        train_name: field(train_data, &["trainName", "trainNameHn"]),
        coaches,
    };
    proof {
        assert(keys_view(seq!["trainNumber", "trainNo"]) =~= seq!["trainNumber"@, "trainNo"@]);
        assert(keys_view(seq!["trainName", "trainNameHn"]) =~= seq!["trainName"@, "trainNameHn"@]);
        assert(r.coaches@.map_values(|c: Coach| c@) =~= list@.map_values(|c: Json| coach_of(c)));
    }
    Ok(r)
}

/// Path of the availability enquiry below the base URL.
pub const AVAILABILITY_PATH: &'static str = "/eticketing/protected/mapps1/altAvlEnq/TC";

/// Path of the coach composition enquiry below the base URL.
pub const COMPOSITION_PATH: &'static str = "/online-charts/api/trainComposition";

/// The page an availability enquiry is sent from.
pub const TRAIN_SEARCH_REFERER: &'static str = "/nget/train-search";

/// The page a composition enquiry is sent from.
pub const ONLINE_CHARTS_REFERER: &'static str = "/online-charts";

fn member(key: &str, value: Json) -> (r: (String, Json))
    ensures
        r.0@ == key@,
        r.1 == value,
{
    (key.to_string(), value)
}

fn text(s: &str) -> (r: Json)
    ensures
        r matches Json::Str(t) && t@ == s@,
{
    Json::Str(s.to_string())
}

/// `j` is the text `t`.
pub open spec fn is_text(j: Json, t: Seq<char>) -> bool {
    match j {
        Json::Str(s) => s@ == t,
        _ => false,
    }
}

/// The body of an availability enquiry from `src` to `dst` on `date` (sent
/// as `YYYYMMDD` where it reads as a date), general quota, e-ticket, any
/// class; every other flag off. Its members, in order:
pub fn availability_request(src: &str, dst: &str, date: &str) -> (r: Json)
    ensures
        match r {
            Json::Object(fs) => {
                &&& fs@.len() == 12
                &&& fs@[0].0@ == "concessionBooking"@ && fs@[0].1 == Json::Bool(false)
                &&& fs@[1].0@ == "srcStn"@ && is_text(fs@[1].1, src@)
                &&& fs@[2].0@ == "destStn"@ && is_text(fs@[2].1, dst@)
                &&& fs@[3].0@ == "jrnyClass"@ && is_text(fs@[3].1, ""@)
                &&& fs@[4].0@ == "jrnyDate"@ && is_text(fs@[4].1, compact_of(date@))
                &&& fs@[5].0@ == "quotaCode"@ && is_text(fs@[5].1, "GN"@)
                &&& fs@[6].0@ == "currentBooking"@ && is_text(fs@[6].1, "false"@)
                &&& fs@[7].0@ == "flexiFlag"@ && fs@[7].1 == Json::Bool(false)
                &&& fs@[8].0@ == "handicapFlag"@ && fs@[8].1 == Json::Bool(false)
                &&& fs@[9].0@ == "ticketType"@ && is_text(fs@[9].1, "E"@)
                &&& fs@[10].0@ == "loyaltyRedemptionBooking"@ && fs@[10].1 == Json::Bool(false)
                &&& fs@[11].0@ == "ftBooking"@ && fs@[11].1 == Json::Bool(false)
            },
            _ => false,
        },
{
    let jd = date_compact(date);
    let mut fs: Vec<(String, Json)> = Vec::new();
    fs.push(member("concessionBooking", Json::Bool(false)));
    fs.push(member("srcStn", text(src)));
    fs.push(member("destStn", text(dst)));
    fs.push(member("jrnyClass", text("")));
    fs.push(member("jrnyDate", text(jd.as_str())));
    fs.push(member("quotaCode", text("GN")));
    fs.push(member("currentBooking", text("false")));
    fs.push(member("flexiFlag", Json::Bool(false)));
    fs.push(member("handicapFlag", Json::Bool(false)));
    fs.push(member("ticketType", text("E")));
    fs.push(member("loyaltyRedemptionBooking", Json::Bool(false)));
    fs.push(member("ftBooking", Json::Bool(false)));
    Json::Object(fs)
}

/// The body of a coach composition enquiry for `train` on `date` (sent as
/// `YYYY-MM-DD` where it reads as a date) from the boarding `station`.
pub fn composition_request(train: &str, date: &str, station: &str) -> (r: Json)
    ensures
        match r {
            Json::Object(fs) => {
                &&& fs@.len() == 3
                &&& fs@[0].0@ == "trainNo"@ && is_text(fs@[0].1, train@)
                &&& fs@[1].0@ == "jDate"@ && is_text(fs@[1].1, iso_of(date@))
                &&& fs@[2].0@ == "boardingStation"@ && is_text(fs@[2].1, station@)
            },
            _ => false,
        },
{
    let jd = date_iso(date);
    let mut fs: Vec<(String, Json)> = Vec::new();
    fs.push(member("trainNo", text(train)));
    fs.push(member("jDate", text(jd.as_str())));
    fs.push(member("boardingStation", text(station)));
    Json::Object(fs)
}

/// What an answer to a signed enquiry amounts to before its body is read as
/// JSON: 401 and 403 are the geofence (the service only answers Indian
/// residential addresses); any other status outside 2xx fails the source;
/// an empty body does too. `status` is the status as written in errors.
pub fn answer_check(url: &str, code: u16, status: &str, body_empty: bool) -> (r: Result<(), AppError>)
    ensures
        code == 401 || code == 403 ==> (r matches Err(AppError::SourceUnavailable { source, reason }) && source@ == SOURCE@
            && reason@ == "POST "@ + url@ + " returned "@ + status@
                + " (IRCTC is Akamai-protected and IP-geofenced; run from an Indian residential IP)"@),
        code != 401 && code != 403 && !(200 <= code <= 299) ==> (r matches Err(AppError::SourceUnavailable { source, reason })
            && source@ == SOURCE@ && reason@ == "POST "@ + url@ + " returned "@ + status@),
        200 <= code <= 299 && body_empty ==> (r matches Err(AppError::SourceUnavailable { source, reason })
            && source@ == SOURCE@ && reason@ == "POST "@ + url@ + " returned an empty body"@),
        200 <= code <= 299 && !body_empty ==> r is Ok,
{
    let mut m: Vec<char> = Vec::new();
    push_str(&mut m, "POST ");
    push_str(&mut m, url);
    if code == 401 || code == 403 {
        push_str(&mut m, " returned ");
        push_str(&mut m, status);
        push_str(&mut m, " (IRCTC is Akamai-protected and IP-geofenced; run from an Indian residential IP)");
        return Err(AppError::source_unavailable(SOURCE, string_of(m.as_slice()).as_str()));
    }
    if !(200 <= code && code <= 299) {
        push_str(&mut m, " returned ");
        push_str(&mut m, status);
        return Err(AppError::source_unavailable(SOURCE, string_of(m.as_slice()).as_str()));
    }
    if body_empty {
        push_str(&mut m, " returned an empty body");
        return Err(AppError::source_unavailable(SOURCE, string_of(m.as_slice()).as_str()));
    }
    Ok(())
}

} // verus!
