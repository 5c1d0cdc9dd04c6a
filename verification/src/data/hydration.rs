//! Offline enrichment of the local station list with the optional fields of
//! an upstream capture, keyed by station code. The local record is the
//! authority: its code, name, state and zone are never changed.
use vstd::prelude::*;
use crate::text::{chars_eq, chars_of, strings_view, to_uppercase, trim, trim_seq, uppercase_of};

verus! {

/// One local station. Coordinates are carried as the bit patterns of IEEE-754
/// doubles (`f64::to_bits`), copied and never computed with.
#[derive(Debug)]
pub struct StationRecord {
    pub code: String,
    pub name: String,
    pub state: String,
    pub zone: String,
    pub name_hi: Option<String>,
    pub name_gu: Option<String>,
    pub district: Option<String>,
    pub address: Option<String>,
    pub train_count: Option<String>,
    pub lat: Option<u64>,
    pub lng: Option<u64>,
}

/// One row of the upstream capture; coordinates as in [`StationRecord`].
#[derive(Debug)]
pub struct HydrationRow {
    pub code: String,
    pub name_hi: Option<String>,
    pub name_gu: Option<String>,
    pub district: Option<String>,
    pub address: Option<String>,
    pub train_count: Option<String>,
    pub latitude: Option<u64>,
    pub longitude: Option<u64>,
}

/// What a merge did.
#[derive(Debug)]
pub struct HydrationReport {
    /// Distinct upstream codes merged into a local record.
    pub hydrated: usize,
    /// Distinct upstream codes seen.
    pub total: usize,
    /// Upstream codes with no local station, in first-seen order.
    pub unmatched: Vec<String>,
}

/// An optional text as a plain value.
pub open spec fn text_opt(o: Option<String>) -> Option<Seq<char>> {
    match o {
        Some(s) => Some(s@),
        None => None,
    }
}

/// A station record as plain values.
pub struct RecordV {
    pub code: Seq<char>,
    pub name: Seq<char>,
    pub state: Seq<char>,
    pub zone: Seq<char>,
    pub name_hi: Option<Seq<char>>,
    pub name_gu: Option<Seq<char>>,
    pub district: Option<Seq<char>>,
    pub address: Option<Seq<char>>,
    pub train_count: Option<Seq<char>>,
    pub lat: Option<u64>,
    pub lng: Option<u64>,
}

impl View for StationRecord {
    type V = RecordV;

    open spec fn view(&self) -> RecordV {
        RecordV {
            code: self.code@,
            name: self.name@,
            state: self.state@,
            zone: self.zone@,
            name_hi: text_opt(self.name_hi),
            name_gu: text_opt(self.name_gu),
            district: text_opt(self.district),
            address: text_opt(self.address),
            train_count: text_opt(self.train_count),
            lat: self.lat,
            lng: self.lng,
        }
    }
}

/// Station records as plain values.
pub open spec fn records_view(s: Seq<StationRecord>) -> Seq<RecordV> {
    s.map_values(|r: StationRecord| r@)
}

/// The key a station code is matched by: trimmed, then upper-cased.
pub open spec fn key_of(code: Seq<char>) -> Seq<char> {
    uppercase_of(trim_seq(code))
}

/// The distinct non-empty keys of `rows`, in first-seen order.
pub open spec fn row_keys(rows: Seq<HydrationRow>) -> Seq<Seq<char>>
    decreases rows.len(),
{
    if rows.len() == 0 {
        Seq::empty()
    } else {
        let ks = row_keys(rows.drop_last());
        let k = key_of(rows.last().code@);
        if k.len() == 0 || ks.contains(k) { ks } else { ks.push(k) }
    }
}

/// The index of the last row whose key is `k`: of rows sharing a code, the
/// last one wins.
pub open spec fn last_row_with(rows: Seq<HydrationRow>, k: Seq<char>) -> Option<int>
    decreases rows.len(),
{
    if rows.len() == 0 {
        None
    } else if key_of(rows.last().code@) == k {
        Some(rows.len() - 1)
    } else {
        last_row_with(rows.drop_last(), k)
    }
}

/// An upstream text as a record keeps it: trimmed, and absent where blank.
pub open spec fn clean_of(o: Option<String>) -> Option<Seq<char>> {
    match o {
        Some(s) => if trim_seq(s@).len() == 0 { None } else { Some(trim_seq(s@)) },
        None => None,
    }
}

/// The bits of a finite double: its exponent field is not all ones.
pub open spec fn finite_bits(b: u64) -> bool {
    (b as int / 0x10_0000_0000_0000) % 0x800 != 0x7ff
}

/// An upstream coordinate as a record keeps it: absent unless finite.
pub open spec fn coord_of(o: Option<u64>) -> Option<u64> {
    match o {
        Some(b) => if finite_bits(b) { Some(b) } else { None },
        None => None,
    }
}

/// The record `r` after the merge: where an upstream row shares its key, the
/// optional fields are those of the last such row (cleaned); the code, name,
/// state and zone stay as they were. Without such a row, `r` is unchanged.
pub open spec fn hydrate_of(r: RecordV, rows: Seq<HydrationRow>) -> RecordV {
    let k = key_of(r.code);
    if row_keys(rows).contains(k) {
        let row = rows[last_row_with(rows, k).unwrap()];
        RecordV {
            code: r.code,
            name: r.name,
            state: r.state,
            zone: r.zone,
            name_hi: clean_of(row.name_hi),
            name_gu: clean_of(row.name_gu),
            district: clean_of(row.district),
            address: clean_of(row.address),
            train_count: clean_of(row.train_count),
            lat: coord_of(row.latitude),
            lng: coord_of(row.longitude),
        }
    } else {
        r
    }
}

/// Some local record has the key `k`.
pub open spec fn matched_key(locals: Seq<RecordV>, k: Seq<char>) -> bool {
    exists|i: int| 0 <= i < locals.len() && key_of(locals[i].code) == k
}

/// How many of `keys` some local record has.
pub open spec fn matched_count(keys: Seq<Seq<char>>, locals: Seq<RecordV>) -> nat
    decreases keys.len(),
{
    if keys.len() == 0 {
        0
    } else {
        matched_count(keys.drop_last(), locals) + if matched_key(locals, keys.last()) { 1nat } else { 0nat }
    }
}

/// The upstream codes (trimmed, as the winning row writes them) of the keys
/// no local record has, in the order of `keys`.
pub open spec fn unmatched_of(keys: Seq<Seq<char>>, rows: Seq<HydrationRow>, locals: Seq<RecordV>) -> Seq<Seq<char>>
    decreases keys.len(),
{
    if keys.len() == 0 {
        Seq::empty()
    } else {
        let rest = unmatched_of(keys.drop_last(), rows, locals);
        let k = keys.last();
        if matched_key(locals, k) {
            rest
        } else {
            rest.push(trim_seq(rows[last_row_with(rows, k).unwrap()].code@))
        }
    }
}

/// The texts of some character vectors.
pub open spec fn chars_view(v: Seq<Vec<char>>) -> Seq<Seq<char>> {
    v.map_values(|c: Vec<char>| c@)
}

fn key(code: &str) -> (r: Vec<char>)
    ensures
        r@ == key_of(code@),
{
    let u = to_uppercase(trim(code));
    chars_of(u.as_str())
}

fn clean(o: &Option<String>) -> (r: Option<String>)
    ensures
        text_opt(r) == clean_of(*o),
{
    match o {
        Some(s) => {
            let t = trim(s.as_str());
            if t.is_empty() {
                None
            } else {
                Some(t.to_string())
            }
        },
        None => None,
    }
}

fn coord(o: Option<u64>) -> (r: Option<u64>)
    ensures
        r == coord_of(o),
{
    match o {
        Some(b) => if (b / 0x10_0000_0000_0000) % 0x800 != 0x7ff { Some(b) } else { None },
        None => None,
    }
}

fn clone_text(o: &Option<String>) -> (r: Option<String>)
    ensures
        text_opt(r) == text_opt(*o),
{
    match o {
        Some(s) => Some(s.clone()),
        None => None,
    }
}

/// The index of `k` among `keys`.
fn position(keys: &Vec<Vec<char>>, k: &Vec<char>) -> (r: Option<usize>)
    ensures
        match r {
            Some(p) => p < keys@.len() && keys@[p as int]@ == k@,
            None => !chars_view(keys@).contains(k@),
        },
{
    let mut p: usize = 0;
    while p < keys.len()
        invariant
            0 <= p <= keys@.len(),
            forall|q: int| 0 <= q < p ==> keys@[q]@ != k@,
        decreases keys@.len() - p,
    {
        if chars_eq(keys[p].as_slice(), k.as_slice()) {
            return Some(p);
        }
        p = p + 1;
    }
    proof {
        if chars_view(keys@).contains(k@) {
            let q = choose|q: int| 0 <= q < chars_view(keys@).len() && chars_view(keys@)[q] == k@;
            assert(keys@[q]@ == k@);
        }
    }
    None
}

proof fn lemma_row_keys_nonempty(rows: Seq<HydrationRow>, k: Seq<char>)
    requires
        row_keys(rows).contains(k),
    ensures
        k.len() > 0,
        last_row_with(rows, k) matches Some(i) && 0 <= i < rows.len() && key_of(rows[i].code@) == k,
    decreases rows.len(),
{
    let ks = row_keys(rows.drop_last());
    if ks.contains(k) {
        lemma_row_keys_nonempty(rows.drop_last(), k);
        if key_of(rows.last().code@) != k {
            assert(rows.drop_last()[last_row_with(rows.drop_last(), k).unwrap()] == rows[last_row_with(rows, k).unwrap()]);
        }
    }
}

/// Enrich `local` with the optional fields of `upstream`, keyed by station
/// code (trimmed, case-insensitive). The local code, name, state and zone
/// always stay; blank upstream texts count as absent and non-finite
/// coordinates are dropped; of upstream rows sharing a code the last wins.
/// Re-running the merge over its own output changes nothing.
pub fn merge_hydration(local: Vec<StationRecord>, upstream: &[HydrationRow]) -> (r: (Vec<StationRecord>, HydrationReport))
    ensures
        r.0@.len() == local@.len(),
        forall|i: int| 0 <= i < local@.len() ==> r.0@[i]@ == hydrate_of(local@[i]@, upstream@),
        r.1.total == row_keys(upstream@).len(),
        r.1.hydrated == matched_count(row_keys(upstream@), records_view(local@)),
        strings_view(r.1.unmatched@) == unmatched_of(row_keys(upstream@), upstream@, records_view(local@)),
{
    let mut keys: Vec<Vec<char>> = Vec::new();
    let mut winners: Vec<usize> = Vec::new();
    let mut i: usize = 0;
    while i < upstream.len()
        invariant
            0 <= i <= upstream@.len(),
            keys@.len() == winners@.len(),
            chars_view(keys@) == row_keys(upstream@.take(i as int)),
            forall|p: int| 0 <= p < keys@.len() ==> winners@[p] < i && last_row_with(upstream@.take(i as int), keys@[p]@) == Some(winners@[p] as int),
            forall|p: int| 0 <= p < keys@.len() ==> keys@[p]@.len() > 0,
            forall|a: int, b: int| 0 <= a < b < keys@.len() ==> keys@[a]@ != keys@[b]@,
        decreases upstream@.len() - i,
    {
        let k = key(upstream[i].code.as_str());
        proof {
            assert(upstream@.take(i + 1).drop_last() =~= upstream@.take(i as int));
            assert(upstream@.take(i + 1).last() == upstream@[i as int]);
        }
        if k.len() > 0 {
            match position(&keys, &k) {
                Some(p) => {
                    winners.set(p, i);
                    proof {
                        assert(chars_view(keys@)[p as int] == k@);
                        assert(chars_view(keys@).contains(k@));
                    }
                },
                None => {
                    let ghost old_keys = keys@;
                    keys.push(k);
                    winners.push(i);
                    proof {
                        assert(chars_view(keys@) =~= row_keys(upstream@.take(i as int)).push(k@));
                        assert forall|a: int| 0 <= a < keys@.len() - 1 implies keys@[a]@ != k@ by {
                            assert(keys@[a] == old_keys[a]);
                            assert(chars_view(old_keys)[a] == old_keys[a]@);
                        }
                    }
                },
            }
        }
        proof {
            let t1 = upstream@.take(i + 1);
            assert forall|q: int| 0 <= q < keys@.len() implies winners@[q] < i + 1 && last_row_with(t1, keys@[q]@) == Some(winners@[q] as int) by {
                if keys@[q]@ != k@ {
                    assert(last_row_with(t1, keys@[q]@) == last_row_with(t1.drop_last(), keys@[q]@));
                }
            }
        }
        i = i + 1;
    }
    proof {
        assert(upstream@.take(upstream@.len() as int) =~= upstream@);
    }
    let ghost locals = records_view(local@);
    let ghost rows = upstream@;
    let mut matched: Vec<bool> = Vec::new();
    let mut p: usize = 0;
    while p < keys.len()
        invariant
            0 <= p <= keys@.len(),
            matched@.len() == p,
            forall|q: int| 0 <= q < p ==> !matched@[q],
        decreases keys@.len() - p,
    {
        matched.push(false);
        p = p + 1;
    }
    let mut out: Vec<StationRecord> = Vec::new();
    let mut j: usize = 0;
    while j < local.len()
        invariant
            0 <= j <= local@.len(),
            locals == records_view(local@),
            rows == upstream@,
            keys@.len() == winners@.len(),
            matched@.len() == keys@.len(),
            chars_view(keys@) == row_keys(rows),
            forall|p: int| 0 <= p < keys@.len() ==> winners@[p] < rows.len() && last_row_with(rows, keys@[p]@) == Some(winners@[p] as int),
            forall|a: int, b: int| 0 <= a < b < keys@.len() ==> keys@[a]@ != keys@[b]@,
            out@.len() == j,
            forall|t: int| 0 <= t < j ==> out@[t]@ == hydrate_of(local@[t]@, rows),
            forall|p: int| 0 <= p < keys@.len() ==> (matched@[p] <==> exists|t: int| 0 <= t < j && key_of(locals[t].code) == keys@[p]@),
        decreases local@.len() - j,
    {
        let rec = &local[j];
        let k = key(rec.code.as_str());
        let ghost rv = rec@;
        assert(locals[j as int] == rv);
        let ghost before = matched@;
        let pos = position(&keys, &k);
        let next = match pos {
            Some(p) => {
                let row = &upstream[winners[p]];
                proof {
                    assert(chars_view(keys@)[p as int] == k@);
                    assert(row_keys(rows).contains(k@));
                }
                matched.set(p, true);
                StationRecord {
                    code: rec.code.clone(),
                    name: rec.name.clone(),
                    state: rec.state.clone(),
                    zone: rec.zone.clone(),
                    name_hi: clean(&row.name_hi),
                    name_gu: clean(&row.name_gu),
                    district: clean(&row.district),
                    address: clean(&row.address),
                    train_count: clean(&row.train_count),
                    lat: coord(row.latitude),
                    lng: coord(row.longitude),
                }
            },
            None => {
                proof {
                    assert(!row_keys(rows).contains(k@));
                    assert forall|p: int| 0 <= p < keys@.len() implies keys@[p]@ != k@ by {
                        assert(chars_view(keys@)[p] == keys@[p]@);
                    }
                }
                StationRecord {
                    code: rec.code.clone(),
                    name: rec.name.clone(),
                    state: rec.state.clone(),
                    zone: rec.zone.clone(),
                    name_hi: clone_text(&rec.name_hi),
                    name_gu: clone_text(&rec.name_gu),
                    district: clone_text(&rec.district),
                    address: clone_text(&rec.address),
                    train_count: clone_text(&rec.train_count),
                    lat: rec.lat,
                    lng: rec.lng,
                }
            },
        };
        assert(next@ == hydrate_of(rv, rows));
        out.push(next);
        proof {
            assert forall|p: int| 0 <= p < keys@.len() implies (matched@[p] <==> exists|t: int| 0 <= t < j + 1 && key_of(locals[t].code) == keys@[p]@) by {
                assert(key_of(locals[j as int].code) == k@);
                if keys@[p]@ == k@ {
                    assert(pos == Some(p as usize));
                    assert(matched@[p]);
                } else {
                    assert(matched@[p] == before[p]);
                    assert(key_of(locals[j as int].code) != keys@[p]@);
                }
            }
        }
        j = j + 1;
    }
    let mut hydrated: usize = 0;
    let mut unmatched: Vec<String> = Vec::new();
    let mut p: usize = 0;
    while p < keys.len()
        invariant
            0 <= p <= keys@.len(),
            locals == records_view(local@),
            rows == upstream@,
            keys@.len() == winners@.len(),
            matched@.len() == keys@.len(),
            chars_view(keys@) == row_keys(rows),
            forall|q: int| 0 <= q < keys@.len() ==> winners@[q] < rows.len() && last_row_with(rows, keys@[q]@) == Some(winners@[q] as int),
            forall|q: int| 0 <= q < keys@.len() ==> (matched@[q] <==> matched_key(locals, keys@[q]@)),
            hydrated == matched_count(chars_view(keys@).take(p as int), locals),
            hydrated <= p,
            strings_view(unmatched@) == unmatched_of(chars_view(keys@).take(p as int), rows, locals),
        decreases keys@.len() - p,
    {
        proof {
            assert(chars_view(keys@).take(p + 1).drop_last() =~= chars_view(keys@).take(p as int));
            assert(chars_view(keys@).take(p + 1).last() == keys@[p as int]@);
        }
        if matched[p] {
            hydrated = hydrated + 1;
        } else {
            let t = trim(upstream[winners[p]].code.as_str());
            unmatched.push(t.to_string());
            proof {
                assert(strings_view(unmatched@) =~= strings_view(unmatched@.drop_last()).push(t@));
            }
        }
        p = p + 1;
    }
    proof {
        assert(chars_view(keys@).take(keys@.len() as int) =~= chars_view(keys@));
    }
    (out, HydrationReport { hydrated, total: keys.len(), unmatched })
}

/// The merge never changes a record's code, name, state or zone.
pub proof fn lemma_local_identity_kept(r: RecordV, rows: Seq<HydrationRow>)
    ensures
        hydrate_of(r, rows).code == r.code,
        hydrate_of(r, rows).name == r.name,
        hydrate_of(r, rows).state == r.state,
        hydrate_of(r, rows).zone == r.zone,
{
}

/// The keys counted as distinct upstream codes are exactly the non-empty
/// keys of the rows, each once.
pub proof fn lemma_row_keys_exact(rows: Seq<HydrationRow>)
    ensures
        row_keys(rows).no_duplicates(),
        forall|k: Seq<char>| row_keys(rows).contains(k) <==> (k.len() > 0 && exists|i: int| 0 <= i < rows.len() && key_of(#[trigger] rows[i].code@) == k),
    decreases rows.len(),
{
    if rows.len() > 0 {
        let init = rows.drop_last();
        lemma_row_keys_exact(init);
        assert forall|k: Seq<char>| row_keys(rows).contains(k) <==> (k.len() > 0 && exists|i: int| 0 <= i < rows.len() && key_of(#[trigger] rows[i].code@) == k) by {
            let last = key_of(rows.last().code@);
            let ks = row_keys(init);
            if !(last.len() == 0 || ks.contains(last)) {
                assert(row_keys(rows) == ks.push(last));
                assert(row_keys(rows)[ks.len() as int] == last);
            }
            if k.len() > 0 && exists|i: int| 0 <= i < rows.len() && key_of(#[trigger] rows[i].code@) == k {
                let i = choose|i: int| 0 <= i < rows.len() && key_of(#[trigger] rows[i].code@) == k;
                if i < rows.len() - 1 {
                    assert(init[i] == rows[i]);
                    assert(row_keys(init).contains(k));
                    if !(last.len() == 0 || ks.contains(last)) {
                        let j = choose|j: int| 0 <= j < ks.len() && ks[j] == k;
                        assert(row_keys(rows)[j] == k);
                    }
                } else {
                    assert(k == last);
                }
            }
            if row_keys(rows).contains(k) {
                if row_keys(init).contains(k) {
                    let i = choose|i: int| 0 <= i < init.len() && key_of(#[trigger] init[i].code@) == k;
                    assert(rows[i] == init[i]);
                } else {
                    assert(k == last);
                    assert(key_of(rows[rows.len() - 1].code@) == k);
                }
            }
        }
    }
}

/// Merging a record twice is merging it once.
pub proof fn lemma_hydrate_idempotent(r: RecordV, rows: Seq<HydrationRow>)
    ensures
        hydrate_of(hydrate_of(r, rows), rows) == hydrate_of(r, rows),
{
}

proof fn lemma_matched_key_kept(locals: Seq<RecordV>, rows: Seq<HydrationRow>, k: Seq<char>)
    ensures
        matched_key(locals.map_values(|x: RecordV| hydrate_of(x, rows)), k) == matched_key(locals, k),
{
    let once = locals.map_values(|x: RecordV| hydrate_of(x, rows));
    if matched_key(locals, k) {
        let i = choose|i: int| 0 <= i < locals.len() && key_of(locals[i].code) == k;
        assert(once[i].code == locals[i].code);
    }
    if matched_key(once, k) {
        let i = choose|i: int| 0 <= i < once.len() && key_of(once[i].code) == k;
        assert(once[i].code == locals[i].code);
    }
}

/// Re-running the merge over its own output changes nothing: the records and
/// the report come out the same.
pub proof fn lemma_merge_idempotent(locals: Seq<RecordV>, rows: Seq<HydrationRow>, keys: Seq<Seq<char>>)
    ensures
        locals.map_values(|x: RecordV| hydrate_of(x, rows)).map_values(|x: RecordV| hydrate_of(x, rows))
            == locals.map_values(|x: RecordV| hydrate_of(x, rows)),
        matched_count(keys, locals.map_values(|x: RecordV| hydrate_of(x, rows))) == matched_count(keys, locals),
        unmatched_of(keys, rows, locals.map_values(|x: RecordV| hydrate_of(x, rows))) == unmatched_of(keys, rows, locals),
    decreases keys.len(),
{
    let once = locals.map_values(|x: RecordV| hydrate_of(x, rows));
    assert forall|i: int| 0 <= i < once.len() implies #[trigger] hydrate_of(once[i], rows) == once[i] by {
        lemma_hydrate_idempotent(locals[i], rows);
    }
    assert(once.map_values(|x: RecordV| hydrate_of(x, rows)) =~= once);
    if keys.len() > 0 {
        lemma_merge_idempotent(locals, rows, keys.drop_last());
        lemma_matched_key_kept(locals, rows, keys.last());
    }
}

/// Every distinct upstream code is either merged or reported unmatched.
pub proof fn lemma_report_partition(keys: Seq<Seq<char>>, rows: Seq<HydrationRow>, locals: Seq<RecordV>)
    ensures
        matched_count(keys, locals) + unmatched_of(keys, rows, locals).len() == keys.len(),
    decreases keys.len(),
{
    if keys.len() > 0 {
        lemma_report_partition(keys.drop_last(), rows, locals);
    }
}

} // verus!
