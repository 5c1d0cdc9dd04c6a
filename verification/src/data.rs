//! Searching the local train list: query words, the IntelliSense match
//! scores of trains and stations, and the ranked, capped hit list.
use vstd::prelude::*;
use vstd::utf8::encode_utf8;
use crate::text::{
    chars_of, contains_chars, has_infix, is_ws, is_ws_char, lemma_seq_lt_irreflexive, lemma_seq_lt_total,
    lemma_seq_lt_transitive, lowercase_of, seq_lt, string_lt, string_of, to_lowercase, trim, trim_seq,
};

pub mod hydration;

verus! {

/// One train of the local dataset.
#[derive(Debug)]
pub struct TrainRecord {
    pub number: String,
    pub name: String,
}

impl View for TrainRecord {
    type V = (Seq<char>, Seq<char>);

    open spec fn view(&self) -> (Seq<char>, Seq<char>) {
        (self.number@, self.name@)
    }
}

/// The words of a text: its maximal runs of non-whitespace characters, in
/// order (`str::split_whitespace`).
pub open spec fn words(s: Seq<char>) -> Seq<Seq<char>>
    decreases s.len(),
{
    if s.len() == 0 {
        Seq::empty()
    } else if is_ws(s.last()) {
        words(s.drop_last())
    } else if s.len() >= 2 && !is_ws(s[s.len() - 2]) {
        let w = words(s.drop_last());
        w.update(w.len() - 1, w.last().push(s.last()))
    } else {
        words(s.drop_last()).push(seq![s.last()])
    }
}

/// The strings of some `String`s.
pub open spec fn texts(v: Seq<String>) -> Seq<Seq<char>> {
    v.map_values(|s: String| s@)
}

/// `str::split_whitespace`, each word as a `String`.
pub fn split_words(s: &str) -> (r: Vec<String>)
    ensures
        texts(r@) == words(s@),
{
    let v = chars_of(s);
    let mut done: Vec<String> = Vec::new();
    let mut cur: Vec<char> = Vec::new();
    let mut i: usize = 0;
    proof {
        assert(v@.take(0) =~= Seq::<char>::empty());
        assert(texts(done@) =~= Seq::<Seq<char>>::empty());
    }
    while i < v.len()
        invariant
            0 <= i <= v@.len(),
            v@ == s@,
            words(v@.take(i as int)) == texts(done@) + (if cur@.len() > 0 {
                seq![cur@]
            } else {
                Seq::<Seq<char>>::empty()
            }),
            cur@.len() > 0 <==> (i > 0 && !is_ws(v@[i - 1])),
        decreases v@.len() - i,
    {
        let c = v[i];
        let ghost pre = v@.take(i as int);
        let ghost post = v@.take(i + 1);
        proof {
            assert(post.drop_last() =~= pre);
            assert(post.last() == c);
            if i > 0 {
                assert(post[post.len() - 2] == v@[i - 1]);
            }
        }
        if is_ws_char(c) {
            if cur.len() > 0 {
                let ghost dv = texts(done@);
                let w = string_of(cur.as_slice());
                done.push(w);
                proof {
                    assert(texts(done@) =~= dv.push(w@));
                    assert(texts(done@) =~= dv + seq![cur@]);
                }
                cur = Vec::new();
            }
            proof {
                assert(texts(done@) + Seq::<Seq<char>>::empty() =~= texts(done@));
            }
        } else {
            let ghost cv = cur@;
            let ghost dv = texts(done@);
            cur.push(c);
            proof {
                if cv.len() > 0 {
                    let w = words(pre);
                    assert(w =~= dv + seq![cv]);
                    assert(w.update(w.len() - 1, w.last().push(c)) =~= dv + seq![cur@]);
                } else {
                    assert(words(pre) =~= dv);
                    assert(cur@ =~= seq![c]);
                    assert(dv.push(seq![c]) =~= dv + seq![cur@]);
                }
            }
        }
        i = i + 1;
    }
    proof {
        assert(v@.take(v@.len() as int) =~= v@);
    }
    if cur.len() > 0 {
        let ghost dv = texts(done@);
        let w = string_of(cur.as_slice());
        done.push(w);
        proof {
            assert(texts(done@) =~= dv + seq![cur@]);
        }
    } else {
        proof {
            assert(texts(done@) + Seq::<Seq<char>>::empty() =~= texts(done@));
        }
    }
    done
}

/// The query words: the trimmed, lower-cased query split at whitespace.
pub open spec fn query_tokens(q: Seq<char>) -> Seq<Seq<char>> {
    let t = lowercase_of(trim_seq(q));
    if t.len() == 0 { Seq::empty() } else { words(t) }
}

/// Query words for train and station filtering.
pub fn tokenize(query: &str) -> (r: Vec<String>)
    ensures
        texts(r@) == query_tokens(query@),
{
    let q = to_lowercase(trim(query));
    if q.as_str().is_empty() {
        let r: Vec<String> = Vec::new();
        proof {
            assert(texts(r@) =~= Seq::<Seq<char>>::empty());
        }
        return r;
    }
    split_words(q.as_str())
}

/// `a` begins with `p`.
pub open spec fn starts_with(a: Seq<char>, p: Seq<char>) -> bool {
    p.len() <= a.len() && a.take(p.len() as int) == p
}

/// Whether `a` begins with `p`.
fn starts_with_chars(a: &[char], p: &[char]) -> (r: bool)
    ensures
        r == starts_with(a@, p@),
{
    if p.len() > a.len() {
        return false;
    }
    let mut i: usize = 0;
    while i < p.len()
        invariant
            0 <= i <= p@.len(),
            p@.len() <= a@.len(),
            forall|k: int| 0 <= k < i ==> a@[k] == p@[k],
        decreases p@.len() - i,
    {
        if a[i] != p[i] {
            proof {
                assert(a@.take(p@.len() as int)[i as int] != p@[i as int]);
            }
            return false;
        }
        i = i + 1;
    }
    proof {
        assert(a@.take(p@.len() as int) =~= p@);
    }
    true
}

/// The best match of one query word against a train: a number prefix 4, a
/// number substring 2; the whole name 6, a name prefix 5, a name substring
/// 3; 0 where it matches neither.
pub open spec fn train_token_score(number: Seq<char>, name: Seq<char>, tok: Seq<char>) -> int {
    let n = if has_infix(number, tok) {
        if starts_with(number, tok) { 4int } else { 2int }
    } else {
        0int
    };
    let m = if has_infix(name, tok) {
        if name == tok { 6int } else if starts_with(name, tok) { 5int } else { 3int }
    } else {
        0int
    };
    if m > n { m } else { n }
}

/// The best match of one query word against a station: the whole code 8, a
/// code prefix 6, a code substring 4; the whole name 5, a name prefix 4, a
/// name substring 2; 0 where it matches neither.
pub open spec fn station_token_score(code: Seq<char>, name: Seq<char>, tok: Seq<char>) -> int {
    let c = if has_infix(code, tok) {
        if code == tok { 8int } else if starts_with(code, tok) { 6int } else { 4int }
    } else {
        0int
    };
    let m = if has_infix(name, tok) {
        if name == tok { 5int } else if starts_with(name, tok) { 4int } else { 2int }
    } else {
        0int
    };
    if m > c { m } else { c }
}

/// A prefix of a text occurs in it.
proof fn lemma_prefix_occurs(a: Seq<char>, p: Seq<char>)
    requires
        starts_with(a, p),
    ensures
        has_infix(a, p),
{
    assert(a.subrange(0, p.len() as int) =~= a.take(p.len() as int));
    assert(crate::text::occurs_at(a, p, 0));
}

/// How one query word scores against a station that it does not match by
/// code: the whole name 5, a proper prefix of the name 4, a word found only
/// further inside the name 2, no match 0. So a prefix outranks an inner
/// match, and the whole name outranks a prefix.
pub proof fn lemma_station_name_ranks(code: Seq<char>, name: Seq<char>, tok: Seq<char>, inner: Seq<char>)
    requires
        !has_infix(code, tok),
        !has_infix(code, inner),
    ensures
        name == tok ==> station_token_score(code, name, tok) == 5,
        starts_with(name, tok) && name != tok ==> station_token_score(code, name, tok) == 4,
        has_infix(name, tok) && !starts_with(name, tok) ==> station_token_score(code, name, tok) == 2,
        !has_infix(name, tok) ==> station_token_score(code, name, tok) == 0,
        starts_with(name, tok) && has_infix(name, inner) && !starts_with(name, inner) ==> station_token_score(
            code,
            name,
            tok,
        ) > station_token_score(code, name, inner) > 0,
        starts_with(name, tok) && name != tok ==> station_score_of(code, name, seq![tok]) == Some(4i64),
{
    if starts_with(name, tok) {
        lemma_prefix_occurs(name, tok);
    }
    if name == tok {
        assert(starts_with(name, tok)) by {
            assert(name.take(tok.len() as int) =~= name);
        }
        lemma_prefix_occurs(name, tok);
    }
    let one = Seq::new(1, |i: int| station_token_score(code, name, seq![tok][i]));
    assert(one.drop_last() =~= Seq::<int>::empty());
    assert(one.last() == station_token_score(code, name, tok));
    assert(tally(one.drop_last()) == (0int, 0int));
    assert(station_score_of(code, name, seq![tok]) == score_from(one));
    if starts_with(name, tok) && name != tok {
        assert(tally(one) == (4int, 1int));
    }
}

/// How one query word scores against a station code: the whole code 8, a
/// proper prefix of it 6, a word found only further inside 4, whatever the
/// name gives.
pub proof fn lemma_station_code_ranks(code: Seq<char>, name: Seq<char>, tok: Seq<char>)
    ensures
        code == tok ==> station_token_score(code, name, tok) == 8,
        starts_with(code, tok) && code != tok ==> station_token_score(code, name, tok) == 6,
        has_infix(code, tok) && !starts_with(code, tok) ==> station_token_score(code, name, tok) >= 4,
        has_infix(code, tok) ==> station_token_score(code, name, tok) >= 4,
{
    if starts_with(code, tok) {
        lemma_prefix_occurs(code, tok);
    }
    if code == tok {
        assert(starts_with(code, tok)) by {
            assert(code.take(tok.len() as int) =~= code);
        }
        lemma_prefix_occurs(code, tok);
    }
}

/// How one query word scores against a train that it does not match by
/// number: the whole name 6, a proper prefix of the name 5, a word found
/// only further inside the name 3, no match 0; against the number, a
/// prefix 4 and a word only further inside 2, where the name matches not.
pub proof fn lemma_train_word_ranks(number: Seq<char>, name: Seq<char>, tok: Seq<char>)
    ensures
        !has_infix(number, tok) ==> (name == tok ==> train_token_score(number, name, tok) == 6),
        !has_infix(number, tok) ==> (starts_with(name, tok) && name != tok ==> train_token_score(number, name, tok)
            == 5),
        !has_infix(number, tok) ==> (has_infix(name, tok) && !starts_with(name, tok) ==> train_token_score(
            number,
            name,
            tok,
        ) == 3),
        !has_infix(name, tok) ==> (starts_with(number, tok) ==> train_token_score(number, name, tok) == 4),
        !has_infix(name, tok) ==> (has_infix(number, tok) && !starts_with(number, tok) ==> train_token_score(
            number,
            name,
            tok,
        ) == 2),
        !has_infix(name, tok) && !has_infix(number, tok) ==> train_token_score(number, name, tok) == 0,
{
    if starts_with(name, tok) {
        lemma_prefix_occurs(name, tok);
    }
    if starts_with(number, tok) {
        lemma_prefix_occurs(number, tok);
    }
    if name == tok {
        assert(starts_with(name, tok)) by {
            assert(name.take(tok.len() as int) =~= name);
        }
        lemma_prefix_occurs(name, tok);
    }
}

/// The summed word scores and the number of words that matched.
pub open spec fn tally(scores: Seq<int>) -> (int, int)
    decreases scores.len(),
{
    if scores.len() == 0 {
        (0, 0)
    } else {
        let (t, m) = tally(scores.drop_last());
        if scores.last() > 0 { (t + scores.last(), m + 1) } else { (t, m) }
    }
}

/// A match score from word scores: none where no word matched; the sum,
/// plus 100 where several words all matched.
pub open spec fn score_from(scores: Seq<int>) -> Option<i64> {
    let (t, m) = tally(scores);
    if m == 0 {
        None
    } else if m == scores.len() && scores.len() > 1 {
        Some((t + 100) as i64)
    } else {
        Some(t as i64)
    }
}

/// The score of a train for query words.
pub open spec fn train_score_of(number: Seq<char>, name: Seq<char>, toks: Seq<Seq<char>>) -> Option<i64> {
    score_from(Seq::new(toks.len(), |i: int| train_token_score(number, name, toks[i])))
}

/// The score of a station for query words.
pub open spec fn station_score_of(code: Seq<char>, name: Seq<char>, toks: Seq<Seq<char>>) -> Option<i64> {
    score_from(Seq::new(toks.len(), |i: int| station_token_score(code, name, toks[i])))
}

/// The score of a train for the query words: every word may match the
/// number or the lower-cased name; a train no word matches gets none.
pub fn train_score(number: &str, name_lc: &str, tokens: &[String]) -> (r: Option<i64>)
    requires
        tokens@.len() < 1_000_000_000_000_000,
    ensures
        r == train_score_of(number@, name_lc@, texts(tokens@)),
{
    let nv = chars_of(number);
    let mv = chars_of(name_lc);
    let ghost toks = texts(tokens@);
    let ghost all = Seq::new(toks.len(), |i: int| train_token_score(number@, name_lc@, toks[i]));
    let mut total: i64 = 0;
    let mut matched: usize = 0;
    let mut i: usize = 0;
    proof {
        assert(all.take(0) =~= Seq::<int>::empty());
    }
    while i < tokens.len()
        invariant
            0 <= i <= tokens@.len(),
            tokens@.len() < 1_000_000_000_000_000,
            nv@ == number@,
            mv@ == name_lc@,
            toks == texts(tokens@),
            all == Seq::new(toks.len(), |i: int| train_token_score(number@, name_lc@, toks[i])),
            tally(all.take(i as int)) == (total as int, matched as int),
            0 <= total <= 6 * i,
            matched <= i,
        decreases tokens@.len() - i,
    {
        let tv = chars_of(tokens[i].as_str());
        let mut best: i64 = 0;
        if contains_chars(nv.as_slice(), tv.as_slice()) {
            best = if starts_with_chars(nv.as_slice(), tv.as_slice()) { 4 } else { 2 };
        }
        if contains_chars(mv.as_slice(), tv.as_slice()) {
            let ns: i64 = if crate::text::chars_eq(mv.as_slice(), tv.as_slice()) {
                6
            } else if starts_with_chars(mv.as_slice(), tv.as_slice()) {
                5
            } else {
                3
            };
            if ns > best {
                best = ns;
            }
        }
        proof {
            assert(toks[i as int] == tv@);
            assert(best == all[i as int]);
            assert(all.take(i + 1).drop_last() =~= all.take(i as int));
            assert(all.take(i + 1).last() == all[i as int]);
        }
        if best != 0 {
            matched = matched + 1;
            total = total + best;
        }
        i = i + 1;
    }
    proof {
        assert(all.take(tokens@.len() as int) =~= all);
    }
    if matched == 0 {
        return None;
    }
    if matched == tokens.len() && tokens.len() > 1 {
        total = total + 100;
    }
    Some(total)
}

/// The score of a station for the query words: every word may match the
/// lower-cased code or name, codes weighing more.
pub fn station_score(code_lc: &str, name_lc: &str, tokens: &[String]) -> (r: Option<i64>)
    requires
        tokens@.len() < 1_000_000_000_000_000,
    ensures
        r == station_score_of(code_lc@, name_lc@, texts(tokens@)),
{
    let cv = chars_of(code_lc);
    let mv = chars_of(name_lc);
    let ghost toks = texts(tokens@);
    let ghost all = Seq::new(toks.len(), |i: int| station_token_score(code_lc@, name_lc@, toks[i]));
    let mut total: i64 = 0;
    let mut matched: usize = 0;
    let mut i: usize = 0;
    proof {
        assert(all.take(0) =~= Seq::<int>::empty());
    }
    while i < tokens.len()
        invariant
            0 <= i <= tokens@.len(),
            tokens@.len() < 1_000_000_000_000_000,
            cv@ == code_lc@,
            mv@ == name_lc@,
            toks == texts(tokens@),
            all == Seq::new(toks.len(), |i: int| station_token_score(code_lc@, name_lc@, toks[i])),
            tally(all.take(i as int)) == (total as int, matched as int),
            0 <= total <= 8 * i,
            matched <= i,
        decreases tokens@.len() - i,
    {
        let tv = chars_of(tokens[i].as_str());
        let mut best: i64 = 0;
        if contains_chars(cv.as_slice(), tv.as_slice()) {
            best = if crate::text::chars_eq(cv.as_slice(), tv.as_slice()) {
                8
            } else if starts_with_chars(cv.as_slice(), tv.as_slice()) {
                6
            } else {
                4
            };
        }
        if contains_chars(mv.as_slice(), tv.as_slice()) {
            let ns: i64 = if crate::text::chars_eq(mv.as_slice(), tv.as_slice()) {
                5
            } else if starts_with_chars(mv.as_slice(), tv.as_slice()) {
                4
            } else {
                2
            };
            if ns > best {
                best = ns;
            }
        }
        proof {
            assert(toks[i as int] == tv@);
            assert(best == all[i as int]);
            assert(all.take(i + 1).drop_last() =~= all.take(i as int));
            assert(all.take(i + 1).last() == all[i as int]);
        }
        if best != 0 {
            matched = matched + 1;
            total = total + best;
        }
        i = i + 1;
    }
    proof {
        assert(all.take(tokens@.len() as int) =~= all);
    }
    if matched == 0 {
        return None;
    }
    if matched == tokens.len() && tokens.len() > 1 {
        total = total + 100;
    }
    Some(total)
}

/// Hit `a` (score, train number, position) ranks before hit `b`: a higher
/// score, else a smaller number, else an earlier position.
pub open spec fn hit_before(a: (int, Seq<char>, int), b: (int, Seq<char>, int)) -> bool {
    a.0 > b.0 || (a.0 == b.0 && (seq_lt(a.1, b.1) || (a.1 == b.1 && a.2 < b.2)))
}

/// Distinct hits are ranked one way or the other.
proof fn lemma_hit_total(a: (int, Seq<char>, int), b: (int, Seq<char>, int))
    requires
        a.2 != b.2,
    ensures
        hit_before(a, b) || hit_before(b, a),
{
    if a.1 != b.1 {
        lemma_seq_lt_total(a.1, b.1);
    }
}

/// The ranking is transitive.
proof fn lemma_hit_transitive(a: (int, Seq<char>, int), b: (int, Seq<char>, int), c: (int, Seq<char>, int))
    requires
        hit_before(a, b),
        hit_before(b, c),
    ensures
        hit_before(a, c),
{
    if a.0 == b.0 && b.0 == c.0 {
        if seq_lt(a.1, b.1) && seq_lt(b.1, c.1) {
            lemma_seq_lt_transitive(a.1, b.1, c.1);
        }
    }
}

/// `order` lists `i`.
pub open spec fn lists(order: Seq<usize>, i: int) -> bool {
    exists|j: int| 0 <= j < order.len() && #[trigger] order[j] == i
}

/// The hit key of position `i`: its score, its tie-break text, itself.
pub open spec fn key_of(scores: Seq<Option<i64>>, keys: Seq<Seq<char>>, i: int) -> (int, Seq<char>, int) {
    (scores[i].unwrap() as int, keys[i], i)
}

/// `order` ranks the positions below `n` that have a score, each once, best
/// first: higher score, then smaller tie-break text, then earlier position.
pub open spec fn ranks(order: Seq<usize>, scores: Seq<Option<i64>>, keys: Seq<Seq<char>>, n: int) -> bool {
    &&& forall|j: int| 0 <= j < order.len() ==> #[trigger] order[j] < n && scores[order[j] as int] is Some
    &&& forall|i: int| 0 <= i < n && scores[i] is Some ==> #[trigger] lists(order, i)
    &&& forall|j1: int, j2: int|
        0 <= j1 < j2 < order.len() ==> hit_before(
            key_of(scores, keys, #[trigger] order[j1] as int),
            key_of(scores, keys, #[trigger] order[j2] as int),
        )
}

/// The trains as plain values.
pub open spec fn trains_view(t: Seq<TrainRecord>) -> Seq<(Seq<char>, Seq<char>)> {
    t.map_values(|r: TrainRecord| r@)
}

/// The train numbers.
pub open spec fn numbers_of(t: Seq<(Seq<char>, Seq<char>)>) -> Seq<Seq<char>> {
    t.map_values(|x: (Seq<char>, Seq<char>)| x.0)
}

/// The score of each train for the query words, its name lower-cased.
pub open spec fn train_scores(t: Seq<(Seq<char>, Seq<char>)>, toks: Seq<Seq<char>>) -> Seq<Option<i64>> {
    Seq::new(t.len(), |i: int| train_score_of(t[i].0, lowercase_of(t[i].1), toks))
}

/// Whether position `i` ranks before position `j`.
fn ranks_before(i: usize, j: usize, scores: &Vec<Option<i64>>, keys: &Vec<String>) -> (r: bool)
    requires
        i < scores@.len(),
        j < scores@.len(),
        scores@.len() == keys@.len(),
        scores@[i as int] is Some,
        scores@[j as int] is Some,
    ensures
        r == hit_before(key_of(scores@, texts(keys@), i as int), key_of(scores@, texts(keys@), j as int)),
{
    let si = match scores[i] {
        Some(v) => v,
        None => 0,
    };
    let sj = match scores[j] {
        Some(v) => v,
        None => 0,
    };
    proof {
        assert(texts(keys@)[i as int] == keys@[i as int]@);
        assert(texts(keys@)[j as int] == keys@[j as int]@);
    }
    si > sj || (si == sj && (string_lt(&keys[i], &keys[j]) || (crate::text::str_eq(
        keys[i].as_str(),
        keys[j].as_str(),
    ) && i < j)))
}

/// Insert position `i` into a ranking of the positions before it.
fn insert_hit(order: &mut Vec<usize>, i: usize, scores: &Vec<Option<i64>>, keys: &Vec<String>)
    requires
        i < scores@.len(),
        scores@.len() == keys@.len(),
        scores@[i as int] is Some,
        ranks(old(order)@, scores@, texts(keys@), i as int),
    ensures
        ranks(final(order)@, scores@, texts(keys@), i + 1),
{
    let ghost t = texts(keys@);
    let ghost sc = scores@;
    let ghost o = order@;
    let ghost k = key_of(sc, t, i as int);
    let mut p: usize = 0;
    while p < order.len() && !ranks_before(i, order[p], scores, keys)
        invariant
            0 <= p <= order@.len(),
            order@ == o,
            t == texts(keys@),
            sc == scores@,
            i < sc.len(),
            sc.len() == t.len(),
            sc[i as int] is Some,
            k == key_of(sc, t, i as int),
            ranks(o, sc, t, i as int),
            forall|q: int| 0 <= q < p ==> hit_before(key_of(sc, t, #[trigger] o[q] as int), k),
        decreases order@.len() - p,
    {
        proof {
            let j = o[p as int];
            assert(j != i);
            lemma_hit_total(k, key_of(sc, t, j as int));
        }
        p = p + 1;
    }
    order.insert(p, i);
    proof {
        let n = order@;
        assert forall|j: int| 0 <= j < n.len() implies #[trigger] n[j] < i + 1 && sc[n[j] as int] is Some by {
            if j < p {
                assert(n[j] == o[j]);
            } else if j > p {
                assert(n[j] == o[j - 1]);
            }
        }
        assert forall|x: int| 0 <= x < i + 1 && sc[x] is Some implies #[trigger] lists(n, x) by {
            if x == i {
                assert(n[p as int] == x);
            } else {
                assert(lists(o, x));
                let j = choose|j: int| 0 <= j < o.len() && #[trigger] o[j] == x;
                if j < p {
                    assert(n[j] == x);
                } else {
                    assert(n[j + 1] == x);
                }
            }
        }
        assert forall|j1: int, j2: int| 0 <= j1 < j2 < n.len() implies hit_before(
            key_of(sc, t, #[trigger] n[j1] as int),
            key_of(sc, t, #[trigger] n[j2] as int),
        ) by {
            if j2 < p {
                assert(n[j1] == o[j1] && n[j2] == o[j2]);
            } else if j1 > p {
                assert(n[j1] == o[j1 - 1] && n[j2] == o[j2 - 1]);
            } else if j2 == p {
                assert(n[j1] == o[j1]);
            } else if j1 == p {
                assert(n[j2] == o[j2 - 1]);
                assert(hit_before(k, key_of(sc, t, o[p as int] as int)));
                if j2 - 1 > p {
                    assert(hit_before(key_of(sc, t, o[p as int] as int), key_of(sc, t, o[j2 - 1] as int)));
                    lemma_hit_transitive(k, key_of(sc, t, o[p as int] as int), key_of(sc, t, o[j2 - 1] as int));
                }
            } else {
                assert(n[j1] == o[j1]);
                assert(n[j2] == o[j2 - 1]);
            }
        }
    }
}

/// The positions that have a score, best first: higher score, then smaller
/// tie-break text, then earlier position (a stable sort on score and text).
pub fn rank_hits(scores: &Vec<Option<i64>>, keys: &Vec<String>) -> (r: Vec<usize>)
    requires
        scores@.len() == keys@.len(),
    ensures
        ranks(r@, scores@, texts(keys@), scores@.len() as int),
{
    let mut order: Vec<usize> = Vec::new();
    let mut k: usize = 0;
    while k < scores.len()
        invariant
            0 <= k <= scores@.len(),
            scores@.len() == keys@.len(),
            ranks(order@, scores@, texts(keys@), k as int),
        decreases scores@.len() - k,
    {
        if scores[k].is_some() {
            insert_hit(&mut order, k, scores, keys);
        } else {
            proof {
                assert forall|x: int| 0 <= x < k + 1 && scores@[x] is Some implies #[trigger] lists(order@, x) by {
                }
            }
        }
        k = k + 1;
    }
    order
}

/// The trains the query words match, best first: higher score, then smaller
/// number, then dataset order.
pub fn rank_trains(trains: &[TrainRecord], tokens: &[String]) -> (r: Vec<usize>)
    requires
        tokens@.len() < 1_000_000_000_000_000,
    ensures
        ranks(
            r@,
            train_scores(trains_view(trains@), texts(tokens@)),
            numbers_of(trains_view(trains@)),
            trains@.len() as int,
        ),
{
    let ghost t = trains_view(trains@);
    let ghost toks = texts(tokens@);
    let mut scores: Vec<Option<i64>> = Vec::new();
    let mut numbers: Vec<String> = Vec::new();
    let mut i: usize = 0;
    while i < trains.len()
        invariant
            0 <= i <= trains@.len(),
            tokens@.len() < 1_000_000_000_000_000,
            t == trains_view(trains@),
            toks == texts(tokens@),
            scores@.len() == i,
            numbers@.len() == i,
            forall|x: int| 0 <= x < i ==> #[trigger] scores@[x] == train_scores(t, toks)[x],
            forall|x: int| 0 <= x < i ==> (#[trigger] numbers@[x])@ == t[x].0,
        decreases trains@.len() - i,
    {
        let lc = to_lowercase(trains[i].name.as_str());
        let sc = train_score(trains[i].number.as_str(), lc.as_str(), tokens);
        scores.push(sc);
        numbers.push(trains[i].number.clone());
        i = i + 1;
    }
    proof {
        assert(scores@ =~= train_scores(t, toks));
        assert(texts(numbers@) =~= numbers_of(t));
    }
    rank_hits(&scores, &numbers)
}

/// The best `limit` trains for a query, ranked as [`rank_trains`] does.
pub fn filter_trains(trains: &[TrainRecord], query: &str, limit: usize) -> (r: Vec<TrainRecord>)
    ensures
        query_tokens(query@).len() == 0 || query_tokens(query@).len() >= 1_000_000_000_000_000 ==> r@.len() == 0,
        0 < query_tokens(query@).len() < 1_000_000_000_000_000 ==> exists|order: Seq<usize>|
            {
                &&& ranks(
                    order,
                    train_scores(trains_view(trains@), query_tokens(query@)),
                    numbers_of(trains_view(trains@)),
                    trains@.len() as int,
                )
                &&& trains_view(r@) == Seq::new(
                    if order.len() < limit { order.len() } else { limit as nat },
                    |j: int| trains@[order[j] as int]@,
                )
            },
{
    let tokens = tokenize(query);
    if tokens.len() == 0 || tokens.len() as u64 >= 1_000_000_000_000_000u64 {
        return Vec::new();
    }
    let order = rank_trains(trains, tokens.as_slice());
    let n = if order.len() < limit { order.len() } else { limit };
    let mut out: Vec<TrainRecord> = Vec::new();
    let mut j: usize = 0;
    while j < n
        invariant
            0 <= j <= n,
            n <= order@.len(),
            forall|x: int| 0 <= x < order@.len() ==> #[trigger] order@[x] < trains@.len(),
            out@.len() == j,
            forall|x: int| 0 <= x < j ==> #[trigger] out@[x]@ == trains@[order@[x] as int]@,
        decreases n - j,
    {
        let t = &trains[order[j]];
        out.push(TrainRecord { number: t.number.clone(), name: t.name.clone() });
        j = j + 1;
    }
    proof {
        assert(trains_view(out@) =~= Seq::new(n as nat, |x: int| trains@[order@[x] as int]@));
    }
    out
}

/// A combined autocomplete hit.
#[derive(Debug, Clone, PartialEq)]
pub struct Suggestion {
    /// `"station"` or `"train"`.
    pub kind: &'static str,
    /// Station code (stations only).
    pub code: Option<String>,
    /// Train number (trains only).
    pub number: Option<String>,
    pub name: String,
    /// Hydrated fields carried by station hits only.
    pub name_hi: Option<String>,
    pub name_gu: Option<String>,
    pub district: Option<String>,
}

impl Suggestion {
    /// The autocomplete hit of a train.
    pub fn train(number: &str, name: &str) -> (r: Self)
        ensures
            r.kind@ == "train"@,
            r.code is None,
            r.number matches Some(n) && n@ == number@,
            r.name@ == name@,
            r.name_hi is None,
            r.name_gu is None,
            r.district is None,
    {
        Suggestion {
            kind: "train",
            code: None,
            number: Some(number.to_owned()),
            name: name.to_owned(),
            name_hi: None,
            name_gu: None,
            district: None,
        }
    }
}

/// A trimmed optional text, blank counting as absent.
pub open spec fn cleaned(v: Option<Seq<char>>) -> Option<Seq<char>> {
    match v {
        Some(s) => if trim_seq(s).len() == 0 { None } else { Some(trim_seq(s)) },
        None => None,
    }
}

/// Trim an optional string, treating blank as absent.
pub fn clean_opt(value: Option<&str>) -> (r: Option<String>)
    ensures
        match r {
            Some(s) => cleaned(match value { Some(v) => Some(v@), None => None }) == Some(s@),
            None => cleaned(match value { Some(v) => Some(v@), None => None }) is None,
        },
{
    match value {
        Some(v) => {
            let t = trim(v);
            if t.is_empty() {
                None
            } else {
                Some(t.to_owned())
            }
        },
        None => None,
    }
}

// ------------------------------------------------------------------ stations

/// A station as search and autocomplete read it: code and name, and the
/// localized fields that autocomplete hits carry.
#[derive(Debug, Clone)]
pub struct StationEntry {
    pub code: String,
    pub name: String,
    pub name_hi: Option<String>,
    pub name_gu: Option<String>,
    pub district: Option<String>,
}

/// An optional text as a plain value.
pub open spec fn opt_text(o: Option<String>) -> Option<Seq<char>> {
    match o {
        Some(s) => Some(s@),
        None => None,
    }
}

/// A station as plain values.
pub struct StationV {
    pub code: Seq<char>,
    pub name: Seq<char>,
    pub name_hi: Option<Seq<char>>,
    pub name_gu: Option<Seq<char>>,
    pub district: Option<Seq<char>>,
}

impl View for StationEntry {
    type V = StationV;

    open spec fn view(&self) -> StationV {
        StationV {
            code: self.code@,
            name: self.name@,
            name_hi: opt_text(self.name_hi),
            name_gu: opt_text(self.name_gu),
            district: opt_text(self.district),
        }
    }
}

/// Stations as plain values.
pub open spec fn stations_view(s: Seq<StationEntry>) -> Seq<StationV> {
    s.map_values(|r: StationEntry| r@)
}

/// The station codes.
pub open spec fn codes_of(s: Seq<StationV>) -> Seq<Seq<char>> {
    s.map_values(|x: StationV| x.code)
}

/// A copy of an optional text.
fn copy_opt(o: &Option<String>) -> (r: Option<String>)
    ensures
        opt_text(r) == opt_text(*o),
{
    match o {
        Some(s) => Some(s.clone()),
        None => None,
    }
}

/// A copy of a station.
fn copy_station(s: &StationEntry) -> (r: StationEntry)
    ensures
        r@ == s@,
{
    StationEntry {
        code: s.code.clone(),
        name: s.name.clone(),
        name_hi: copy_opt(&s.name_hi),
        name_gu: copy_opt(&s.name_gu),
        district: copy_opt(&s.district),
    }
}

/// The score of each station for the query words, code and name
/// lower-cased.
pub open spec fn station_scores(s: Seq<StationV>, toks: Seq<Seq<char>>) -> Seq<Option<i64>> {
    Seq::new(s.len(), |i: int| station_score_of(lowercase_of(s[i].code), lowercase_of(s[i].name), toks))
}

/// The best `limit` stations for a query's words: higher score, then
/// smaller code, then dataset order.
pub fn filter_stations(stations: &[StationEntry], query: &str, limit: usize) -> (r: Vec<StationEntry>)
    ensures
        query_tokens(query@).len() == 0 || query_tokens(query@).len() >= 1_000_000_000_000_000 ==> r@.len() == 0,
        0 < query_tokens(query@).len() < 1_000_000_000_000_000 ==> exists|order: Seq<usize>|
            {
                &&& ranks(
                    order,
                    station_scores(stations_view(stations@), query_tokens(query@)),
                    codes_of(stations_view(stations@)),
                    stations@.len() as int,
                )
                &&& stations_view(r@) == Seq::new(
                    if order.len() < limit { order.len() } else { limit as nat },
                    |j: int| stations@[order[j] as int]@,
                )
            },
{
    let tokens = tokenize(query);
    if tokens.len() == 0 || tokens.len() as u64 >= 1_000_000_000_000_000u64 {
        return Vec::new();
    }
    let ghost sv = stations_view(stations@);
    let ghost toks = texts(tokens@);
    let mut scores: Vec<Option<i64>> = Vec::new();
    let mut codes: Vec<String> = Vec::new();
    let mut i: usize = 0;
    while i < stations.len()
        invariant
            0 <= i <= stations@.len(),
            tokens@.len() < 1_000_000_000_000_000,
            sv == stations_view(stations@),
            toks == texts(tokens@),
            scores@.len() == i,
            codes@.len() == i,
            forall|x: int| 0 <= x < i ==> #[trigger] scores@[x] == station_scores(sv, toks)[x],
            forall|x: int| 0 <= x < i ==> (#[trigger] codes@[x])@ == sv[x].code,
        decreases stations@.len() - i,
    {
        let c = to_lowercase(stations[i].code.as_str());
        let m = to_lowercase(stations[i].name.as_str());
        scores.push(station_score(c.as_str(), m.as_str(), tokens.as_slice()));
        codes.push(stations[i].code.clone());
        i = i + 1;
    }
    proof {
        assert(scores@ =~= station_scores(sv, toks));
        assert(texts(codes@) =~= codes_of(sv));
    }
    let order = rank_hits(&scores, &codes);
    let n = if order.len() < limit { order.len() } else { limit };
    let mut out: Vec<StationEntry> = Vec::new();
    let mut j: usize = 0;
    while j < n
        invariant
            0 <= j <= n,
            n <= order@.len(),
            forall|x: int| 0 <= x < order@.len() ==> #[trigger] order@[x] < stations@.len(),
            out@.len() == j,
            forall|x: int| 0 <= x < j ==> #[trigger] out@[x]@ == stations@[order@[x] as int]@,
        decreases n - j,
    {
        out.push(copy_station(&stations[order[j]]));
        j = j + 1;
    }
    proof {
        assert(stations_view(out@) =~= Seq::new(n as nat, |x: int| stations@[order@[x] as int]@));
    }
    out
}

/// How a station matches a lower-cased query: 0 its code exactly, 1 its
/// name exactly, 2 its code's start, 3 its name's start, 4 not at all
/// (code and name lower-cased).
pub open spec fn tier_of(s: StationV, q: Seq<char>) -> int {
    let c = lowercase_of(s.code);
    let n = lowercase_of(s.name);
    if c == q {
        0
    } else if n == q {
        1
    } else if starts_with(c, q) {
        2
    } else if starts_with(n, q) {
        3
    } else {
        4
    }
}

/// A text's length in UTF-8 bytes, negated, as the score that puts shorter
/// texts first (no string is long enough to reach the floor).
pub open spec fn shortness(t: Seq<char>) -> i64 {
    let n = encode_utf8(t).len() as usize;
    if n <= i64::MAX {
        (-(n as int)) as i64
    } else {
        i64::MIN
    }
}

/// The scores that order tier `t`: none outside it; within it, all equal
/// for the exact tiers, and shorter code (tier 2) or name (tier 3) first.
pub open spec fn tier_scores(s: Seq<StationV>, q: Seq<char>, t: int) -> Seq<Option<i64>> {
    Seq::new(
        s.len(),
        |i: int|
            if tier_of(s[i], q) != t {
                None
            } else if t == 2 {
                Some(shortness(s[i].code))
            } else if t == 3 {
                Some(shortness(s[i].name))
            } else {
                Some(0i64)
            },
    )
}

/// The tie-break texts of tier `t`: none for the exact tiers (dataset
/// order), the code for the prefix tiers.
pub open spec fn tier_keys(s: Seq<StationV>, t: int) -> Seq<Seq<char>> {
    Seq::new(s.len(), |i: int| if t >= 2 { s[i].code } else { Seq::<char>::empty() })
}

/// `order` is the station ranking for `query`: nothing for a blank query;
/// else exact code matches, exact name matches, code-prefix matches
/// (shortest code first, then code), name-prefix matches (shortest name
/// first, then code), each tier otherwise in dataset order; no other
/// station.
pub open spec fn station_ranked(order: Seq<usize>, s: Seq<StationV>, query: Seq<char>) -> bool {
    let q = lowercase_of(trim_seq(query));
    if q.len() == 0 {
        order.len() == 0
    } else {
        exists|o0: Seq<usize>, o1: Seq<usize>, o2: Seq<usize>, o3: Seq<usize>|
            {
                &&& ranks(o0, tier_scores(s, q, 0), tier_keys(s, 0), s.len() as int)
                &&& ranks(o1, tier_scores(s, q, 1), tier_keys(s, 1), s.len() as int)
                &&& ranks(o2, tier_scores(s, q, 2), tier_keys(s, 2), s.len() as int)
                &&& ranks(o3, tier_scores(s, q, 3), tier_keys(s, 3), s.len() as int)
                &&& order == o0 + o1 + o2 + o3
            }
    }
}

/// The byte length of a text as a shortness score.
fn shortness_of(t: &str) -> (r: i64)
    ensures
        r == shortness(t@),
{
    let n = t.len();
    if n as u64 <= i64::MAX as u64 {
        -(n as i64)
    } else {
        i64::MIN
    }
}

/// The ranking positions of the stations for a query (see [`station_ranked`]).
pub fn rank_stations(stations: &[StationEntry], query: &str) -> (r: Vec<usize>)
    ensures
        station_ranked(r@, stations_view(stations@), query@),
        forall|j: int| 0 <= j < r@.len() ==> #[trigger] r@[j] < stations@.len(),
{
    let q = to_lowercase(trim(query));
    let qv = chars_of(q.as_str());
    if qv.len() == 0 {
        return Vec::new();
    }
    let ghost sv = stations_view(stations@);
    let mut s0: Vec<Option<i64>> = Vec::new();
    let mut s1: Vec<Option<i64>> = Vec::new();
    let mut s2: Vec<Option<i64>> = Vec::new();
    let mut s3: Vec<Option<i64>> = Vec::new();
    let mut plain: Vec<String> = Vec::new();
    let mut codes: Vec<String> = Vec::new();
    let mut i: usize = 0;
    while i < stations.len()
        invariant
            0 <= i <= stations@.len(),
            sv == stations_view(stations@),
            qv@ == lowercase_of(trim_seq(query@)),
            s0@.len() == i && s1@.len() == i && s2@.len() == i && s3@.len() == i,
            plain@.len() == i && codes@.len() == i,
            forall|x: int| 0 <= x < i ==> #[trigger] s0@[x] == tier_scores(sv, qv@, 0)[x],
            forall|x: int| 0 <= x < i ==> #[trigger] s1@[x] == tier_scores(sv, qv@, 1)[x],
            forall|x: int| 0 <= x < i ==> #[trigger] s2@[x] == tier_scores(sv, qv@, 2)[x],
            forall|x: int| 0 <= x < i ==> #[trigger] s3@[x] == tier_scores(sv, qv@, 3)[x],
            forall|x: int| 0 <= x < i ==> (#[trigger] plain@[x])@ == Seq::<char>::empty(),
            forall|x: int| 0 <= x < i ==> (#[trigger] codes@[x])@ == sv[x].code,
        decreases stations@.len() - i,
    {
        let c = chars_of(to_lowercase(stations[i].code.as_str()).as_str());
        let m = chars_of(to_lowercase(stations[i].name.as_str()).as_str());
        proof {
            assert(sv[i as int] == stations@[i as int]@);
        }
        let tier: usize = if crate::text::chars_eq(c.as_slice(), qv.as_slice()) {
            0
        } else if crate::text::chars_eq(m.as_slice(), qv.as_slice()) {
            1
        } else if starts_with_chars(c.as_slice(), qv.as_slice()) {
            2
        } else if starts_with_chars(m.as_slice(), qv.as_slice()) {
            3
        } else {
            4
        };
        s0.push(if tier == 0 { Some(0i64) } else { None });
        s1.push(if tier == 1 { Some(0i64) } else { None });
        s2.push(if tier == 2 { Some(shortness_of(stations[i].code.as_str())) } else { None });
        s3.push(if tier == 3 { Some(shortness_of(stations[i].name.as_str())) } else { None });
        plain.push(String::new());
        codes.push(stations[i].code.clone());
        i = i + 1;
    }
    proof {
        assert(s0@ =~= tier_scores(sv, qv@, 0));
        assert(s1@ =~= tier_scores(sv, qv@, 1));
        assert(s2@ =~= tier_scores(sv, qv@, 2));
        assert(s3@ =~= tier_scores(sv, qv@, 3));
        assert(texts(plain@) =~= tier_keys(sv, 0));
        assert(texts(plain@) =~= tier_keys(sv, 1));
        assert(texts(codes@) =~= tier_keys(sv, 2));
        assert(texts(codes@) =~= tier_keys(sv, 3));
    }
    let o0 = rank_hits(&s0, &plain);
    let o1 = rank_hits(&s1, &plain);
    let o2 = rank_hits(&s2, &codes);
    let o3 = rank_hits(&s3, &codes);
    let mut out: Vec<usize> = Vec::new();
    append_positions(&mut out, &o0, stations.len());
    append_positions(&mut out, &o1, stations.len());
    append_positions(&mut out, &o2, stations.len());
    append_positions(&mut out, &o3, stations.len());
    proof {
        assert(out@ =~= o0@ + o1@ + o2@ + o3@);
        assert(station_ranked(out@, sv, query@));
    }
    out
}

/// Append positions that are all below `n`.
fn append_positions(out: &mut Vec<usize>, more: &Vec<usize>, n: usize)
    requires
        forall|j: int| 0 <= j < old(out)@.len() ==> #[trigger] old(out)@[j] < n,
        forall|j: int| 0 <= j < more@.len() ==> #[trigger] more@[j] < n,
    ensures
        final(out)@ == old(out)@ + more@,
        forall|j: int| 0 <= j < final(out)@.len() ==> #[trigger] final(out)@[j] < n,
{
    let ghost start = out@;
    let mut i: usize = 0;
    while i < more.len()
        invariant
            0 <= i <= more@.len(),
            out@ == start + more@.take(i as int),
            forall|j: int| 0 <= j < start.len() ==> #[trigger] start[j] < n,
            forall|j: int| 0 <= j < more@.len() ==> #[trigger] more@[j] < n,
        decreases more@.len() - i,
    {
        out.push(more[i]);
        proof {
            assert(more@.take(i + 1) =~= more@.take(i as int).push(more@[i as int]));
        }
        i = i + 1;
    }
    proof {
        assert(more@.take(more@.len() as int) =~= more@);
        assert forall|j: int| 0 <= j < out@.len() implies #[trigger] out@[j] < n by {
            if j < start.len() {
                assert(out@[j] == start[j]);
            } else {
                assert(out@[j] == more@[j - start.len()]);
            }
        }
    }
}

/// The first `limit` stations of the ranking for a query.
pub fn search_stations(stations: &[StationEntry], query: &str, limit: usize) -> (r: Vec<StationEntry>)
    ensures
        exists|order: Seq<usize>|
            {
                &&& station_ranked(order, stations_view(stations@), query@)
                &&& stations_view(r@) == Seq::new(
                    if order.len() < limit { order.len() } else { limit as nat },
                    |j: int| stations@[order[j] as int]@,
                )
            },
{
    let order = rank_stations(stations, query);
    let n = if order.len() < limit { order.len() } else { limit };
    let mut out: Vec<StationEntry> = Vec::new();
    let mut j: usize = 0;
    while j < n
        invariant
            0 <= j <= n,
            n <= order@.len(),
            forall|x: int| 0 <= x < order@.len() ==> #[trigger] order@[x] < stations@.len(),
            out@.len() == j,
            forall|x: int| 0 <= x < j ==> #[trigger] out@[x]@ == stations@[order@[x] as int]@,
        decreases n - j,
    {
        out.push(copy_station(&stations[order[j]]));
        j = j + 1;
    }
    proof {
        assert(stations_view(out@) =~= Seq::new(n as nat, |x: int| stations@[order@[x] as int]@));
    }
    out
}

// ---------------------------------------------------------------- autocomplete

/// An autocomplete hit as plain values: kind, code, number, name and the
/// localized fields.
pub struct SuggestionV {
    pub kind: Seq<char>,
    pub code: Option<Seq<char>>,
    pub number: Option<Seq<char>>,
    pub name: Seq<char>,
    pub name_hi: Option<Seq<char>>,
    pub name_gu: Option<Seq<char>>,
    pub district: Option<Seq<char>>,
}

impl View for Suggestion {
    type V = SuggestionV;

    open spec fn view(&self) -> SuggestionV {
        SuggestionV {
            kind: self.kind@,
            code: opt_text(self.code),
            number: opt_text(self.number),
            name: self.name@,
            name_hi: opt_text(self.name_hi),
            name_gu: opt_text(self.name_gu),
            district: opt_text(self.district),
        }
    }
}

/// The hit of a station: its code, name and localized fields.
pub open spec fn station_suggestion(s: StationV) -> SuggestionV {
    SuggestionV {
        kind: "station"@,
        code: Some(s.code),
        number: None,
        name: s.name,
        name_hi: s.name_hi,
        name_gu: s.name_gu,
        district: s.district,
    }
}

/// The hit of a train: its number and name.
pub open spec fn train_suggestion(t: (Seq<char>, Seq<char>)) -> SuggestionV {
    SuggestionV {
        kind: "train"@,
        code: None,
        number: Some(t.0),
        name: t.1,
        name_hi: None,
        name_gu: None,
        district: None,
    }
}

impl Suggestion {
    /// The autocomplete hit of a station.
    pub fn station(s: &StationEntry) -> (r: Self)
        ensures
            r@ == station_suggestion(s@),
    {
        Suggestion {
            kind: "station",
            code: Some(s.code.clone()),
            number: None,
            name: s.name.clone(),
            name_hi: copy_opt(&s.name_hi),
            name_gu: copy_opt(&s.name_gu),
            district: copy_opt(&s.district),
        }
    }
}

/// The scores of the candidate hits: the `m` ranked stations at 1000 less
/// their place, then every train at its score for the query words (none
/// when there are too many words to score).
pub open spec fn hit_scores(m: int, t: Seq<(Seq<char>, Seq<char>)>, toks: Seq<Seq<char>>) -> Seq<Option<i64>> {
    Seq::new(m as nat, |j: int| Some((1000 - j) as i64)) + if toks.len() < 1_000_000_000_000_000 {
        train_scores(t, toks)
    } else {
        Seq::new(t.len(), |i: int| None)
    }
}

/// The kinds of the candidate hits, which break ties: stations first.
pub open spec fn hit_kinds(m: int, n: int) -> Seq<Seq<char>> {
    Seq::new(m as nat, |j: int| "station"@) + Seq::new(n as nat, |i: int| "train"@)
}

/// The candidate hit at position `p`.
pub open spec fn hit_of(p: int, ranked: Seq<usize>, s: Seq<StationV>, t: Seq<(Seq<char>, Seq<char>)>) -> SuggestionV {
    if p < ranked.len() {
        station_suggestion(s[ranked[p] as int])
    } else {
        train_suggestion(t[p - ranked.len()])
    }
}

/// Combined station and train autocomplete: the stations ranked as
/// [`rank_stations`] does, scored 1000 less their place, and the trains
/// the query words match, at their scores; best first, a station before a
/// train at equal score, else in that order; at most `limit`.
pub fn suggest(stations: &[StationEntry], trains: &[TrainRecord], query: &str, limit: usize) -> (r: Vec<Suggestion>)
    requires
        stations@.len() <= i64::MAX,
    ensures
        exists|ranked: Seq<usize>, order: Seq<usize>|
            {
                &&& #[trigger] station_ranked(ranked, stations_view(stations@), query@)
                &&& forall|j: int| 0 <= j < ranked.len() ==> #[trigger] ranked[j] < stations@.len()
                &&& #[trigger] ranks(
                    order,
                    hit_scores(ranked.len() as int, trains_view(trains@), query_tokens(query@)),
                    hit_kinds(ranked.len() as int, trains@.len() as int),
                    (ranked.len() + trains@.len()) as int,
                )
                &&& r@.map_values(|h: Suggestion| h@) == Seq::new(
                    if order.len() < limit { order.len() } else { limit as nat },
                    |j: int| hit_of(order[j] as int, ranked, stations_view(stations@), trains_view(trains@)),
                )
            },
{
    let ranked = rank_stations(stations, query);
    let tokens = tokenize(query);
    let ghost sv = stations_view(stations@);
    let ghost tv = trains_view(trains@);
    let ghost toks = texts(tokens@);
    let m = ranked.len();
    let mut scores: Vec<Option<i64>> = Vec::new();
    let mut kinds: Vec<String> = Vec::new();
    let mut j: usize = 0;
    proof {
        lemma_ranked_len(ranked@, sv, query@);
    }
    while j < m
        invariant
            0 <= j <= m,
            m == ranked@.len(),
            m <= stations@.len(),
            stations@.len() <= i64::MAX,
            scores@.len() == j,
            kinds@.len() == j,
            forall|x: int| 0 <= x < j ==> #[trigger] scores@[x] == Some((1000 - x) as i64),
            forall|x: int| 0 <= x < j ==> (#[trigger] kinds@[x])@ == "station"@,
        decreases m - j,
    {
        let jj = j as i64;
        scores.push(Some(1000 - jj));
        kinds.push("station".to_owned());
        j = j + 1;
    }
    let few = (tokens.len() as u64) < 1_000_000_000_000_000u64;
    let mut i: usize = 0;
    while i < trains.len()
        invariant
            0 <= i <= trains@.len(),
            m == ranked@.len(),
            tv == trains_view(trains@),
            toks == texts(tokens@),
            few == (tokens@.len() < 1_000_000_000_000_000),
            scores@.len() == m + i,
            kinds@.len() == m + i,
            forall|x: int| 0 <= x < m ==> #[trigger] scores@[x] == Some((1000 - x) as i64),
            forall|x: int| 0 <= x < m ==> (#[trigger] kinds@[x])@ == "station"@,
            forall|x: int|
                0 <= x < i ==> #[trigger] scores@[m + x] == (if few {
                    train_scores(tv, toks)[x]
                } else {
                    None
                }),
            forall|x: int| 0 <= x < i ==> (#[trigger] kinds@[m + x])@ == "train"@,
        decreases trains@.len() - i,
    {
        let sc = if few {
            let lc = to_lowercase(trains[i].name.as_str());
            train_score(trains[i].number.as_str(), lc.as_str(), tokens.as_slice())
        } else {
            None
        };
        scores.push(sc);
        kinds.push("train".to_owned());
        i = i + 1;
    }
    proof {
        let hs = hit_scores(m as int, tv, toks);
        let hk = hit_kinds(m as int, trains@.len() as int);
        assert forall|x: int| 0 <= x < scores@.len() implies scores@[x] == hs[x] by {
            if x >= m {
                let y = x - m;
                assert(scores@[m + y] == (if few { train_scores(tv, toks)[y] } else { None }));
            }
        }
        assert forall|x: int| 0 <= x < kinds@.len() implies texts(kinds@)[x] == hk[x] by {
            if x >= m {
                let y = x - m;
                assert(kinds@[m + y]@ == "train"@);
            }
        }
        assert(scores@ =~= hs);
        assert(texts(kinds@) =~= hk);
    }
    let order = rank_hits(&scores, &kinds);
    let n = if order.len() < limit { order.len() } else { limit };
    let mut out: Vec<Suggestion> = Vec::new();
    let mut k: usize = 0;
    while k < n
        invariant
            0 <= k <= n,
            n <= order@.len(),
            m == ranked@.len(),
            forall|x: int| 0 <= x < ranked@.len() ==> #[trigger] ranked@[x] < stations@.len(),
            forall|x: int| 0 <= x < order@.len() ==> #[trigger] order@[x] < m + trains@.len(),
            sv == stations_view(stations@),
            tv == trains_view(trains@),
            out@.len() == k,
            forall|x: int| 0 <= x < k ==> (#[trigger] out@[x])@ == hit_of(order@[x] as int, ranked@, sv, tv),
        decreases n - k,
    {
        let p = order[k];
        let h = if p < m {
            Suggestion::station(&stations[ranked[p]])
        } else {
            let t = &trains[p - m];
            proof {
                assert(tv[p - m] == trains@[p - m]@);
            }
            Suggestion::train(t.number.as_str(), t.name.as_str())
        };
        out.push(h);
        k = k + 1;
    }
    proof {
        assert(out@.map_values(|h: Suggestion| h@) =~= Seq::new(
            n as nat,
            |x: int| hit_of(order@[x] as int, ranked@, sv, tv),
        ));
    }
    out
}

/// A station ranking lists each station at most once.
proof fn lemma_ranked_len(order: Seq<usize>, s: Seq<StationV>, query: Seq<char>)
    requires
        station_ranked(order, s, query),
        forall|j: int| 0 <= j < order.len() ==> #[trigger] order[j] < s.len(),
    ensures
        order.len() <= s.len(),
{
    let q = lowercase_of(trim_seq(query));
    if q.len() > 0 {
        let (o0, o1, o2, o3) = choose|o0: Seq<usize>, o1: Seq<usize>, o2: Seq<usize>, o3: Seq<usize>|
            {
                &&& ranks(o0, tier_scores(s, q, 0), tier_keys(s, 0), s.len() as int)
                &&& ranks(o1, tier_scores(s, q, 1), tier_keys(s, 1), s.len() as int)
                &&& ranks(o2, tier_scores(s, q, 2), tier_keys(s, 2), s.len() as int)
                &&& ranks(o3, tier_scores(s, q, 3), tier_keys(s, 3), s.len() as int)
                &&& order == o0 + o1 + o2 + o3
            };
        assert forall|a: int, b: int| 0 <= a < b < order.len() implies order[a] != order[b] by {
            lemma_ranked_distinct(o0, o1, o2, o3, s, q, a, b);
        }
        lemma_distinct_below(order, s.len() as int);
    }
}

/// Two places of a station ranking hold different stations.
proof fn lemma_ranked_distinct(
    o0: Seq<usize>,
    o1: Seq<usize>,
    o2: Seq<usize>,
    o3: Seq<usize>,
    s: Seq<StationV>,
    q: Seq<char>,
    a: int,
    b: int,
)
    requires
        ranks(o0, tier_scores(s, q, 0), tier_keys(s, 0), s.len() as int),
        ranks(o1, tier_scores(s, q, 1), tier_keys(s, 1), s.len() as int),
        ranks(o2, tier_scores(s, q, 2), tier_keys(s, 2), s.len() as int),
        ranks(o3, tier_scores(s, q, 3), tier_keys(s, 3), s.len() as int),
        0 <= a < b < (o0 + o1 + o2 + o3).len(),
    ensures
        (o0 + o1 + o2 + o3)[a] != (o0 + o1 + o2 + o3)[b],
{
    let all = o0 + o1 + o2 + o3;
    let l0 = o0.len() as int;
    let l1 = l0 + o1.len();
    let l2 = l1 + o2.len();
    let ta = if a < l0 { 0int } else if a < l1 { 1int } else if a < l2 { 2int } else { 3int };
    let tb = if b < l0 { 0int } else if b < l1 { 1int } else if b < l2 { 2int } else { 3int };
    let pa = all[a] as int;
    let pb = all[b] as int;
    if a < l0 {
        assert(all[a] == o0[a]);
        assert(tier_scores(s, q, 0)[pa] is Some);
    } else if a < l1 {
        assert(all[a] == o1[a - l0]);
        assert(tier_scores(s, q, 1)[pa] is Some);
    } else if a < l2 {
        assert(all[a] == o2[a - l1]);
        assert(tier_scores(s, q, 2)[pa] is Some);
    } else {
        assert(all[a] == o3[a - l2]);
        assert(tier_scores(s, q, 3)[pa] is Some);
    }
    if b < l0 {
        assert(all[b] == o0[b]);
        assert(tier_scores(s, q, 0)[pb] is Some);
    } else if b < l1 {
        assert(all[b] == o1[b - l0]);
        assert(tier_scores(s, q, 1)[pb] is Some);
    } else if b < l2 {
        assert(all[b] == o2[b - l1]);
        assert(tier_scores(s, q, 2)[pb] is Some);
    } else {
        assert(all[b] == o3[b - l2]);
        assert(tier_scores(s, q, 3)[pb] is Some);
    }
    if ta == tb {
        if ta == 0 {
            lemma_hit_irreflexive(key_of(tier_scores(s, q, 0), tier_keys(s, 0), pa));
        } else if ta == 1 {
            lemma_hit_irreflexive(key_of(tier_scores(s, q, 1), tier_keys(s, 1), pa));
        } else if ta == 2 {
            lemma_hit_irreflexive(key_of(tier_scores(s, q, 2), tier_keys(s, 2), pa));
        } else {
            lemma_hit_irreflexive(key_of(tier_scores(s, q, 3), tier_keys(s, 3), pa));
        }
    }
}

/// No hit ranks before itself.
proof fn lemma_hit_irreflexive(a: (int, Seq<char>, int))
    ensures
        !hit_before(a, a),
{
    lemma_seq_lt_irreflexive(a.1);
}

/// Distinct positions below `n` number at most `n`.
proof fn lemma_distinct_below(s: Seq<usize>, n: int)
    requires
        forall|j: int| 0 <= j < s.len() ==> #[trigger] s[j] < n,
        forall|a: int, b: int| 0 <= a < b < s.len() ==> s[a] != s[b],
        n >= 0,
    ensures
        s.len() <= n,
{
    let si = s.map_values(|x: usize| x as int);
    assert forall|a: int, b: int| 0 <= a < si.len() && 0 <= b < si.len() && a != b implies si[a] != si[b] by {
        if a < b {
            assert(s[a] != s[b]);
        } else {
            assert(s[b] != s[a]);
        }
    }
    assert(si.no_duplicates());
    si.unique_seq_to_set();
    vstd::set_lib::lemma_int_range(0, n);
    assert forall|x: int| si.to_set().contains(x) implies vstd::set_lib::set_int_range(0, n).contains(x) by {
        let j = choose|j: int| 0 <= j < si.len() && si[j] == x;
        assert(s[j] < n);
    }
    vstd::set_lib::lemma_len_subset(si.to_set(), vstd::set_lib::set_int_range(0, n));
}

// ------------------------------------------------------------------ lookups

/// The first place at or after `k` where `pick` holds.
pub open spec fn first_from<T>(s: Seq<T>, pick: spec_fn(T) -> bool, k: int) -> Option<int>
    decreases s.len() - k,
{
    if k < 0 || k >= s.len() {
        None
    } else if pick(s[k]) {
        Some(k)
    } else {
        first_from(s, pick, k + 1)
    }
}

/// Two texts equal ignoring ASCII case.
pub open spec fn same_ascii(a: Seq<char>, b: Seq<char>) -> bool {
    crate::text::lower_seq(a) == crate::text::lower_seq(b)
}

/// The official name of the first station whose code is `code` in any
/// ASCII case.
pub open spec fn station_name_of(s: Seq<StationV>, code: Seq<char>) -> Option<Seq<char>> {
    match first_from(s, |x: StationV| same_ascii(x.code, code), 0) {
        Some(i) => Some(s[i].name),
        None => None,
    }
}

/// The code of the first station named exactly `name`, in any ASCII case.
pub open spec fn station_code_by_name_of(s: Seq<StationV>, name: Seq<char>) -> Option<Seq<char>> {
    match first_from(s, |x: StationV| crate::text::upper_seq(x.name) == crate::text::upper_seq(name), 0) {
        Some(i) => Some(s[i].code),
        None => None,
    }
}

/// The name of the first train whose number is `number` in any ASCII case.
pub open spec fn train_name_of(t: Seq<(Seq<char>, Seq<char>)>, number: Seq<char>) -> Option<Seq<char>> {
    match first_from(t, |x: (Seq<char>, Seq<char>)| same_ascii(x.0, number), 0) {
        Some(i) => Some(t[i].1),
        None => None,
    }
}

/// Whether two texts are equal ignoring ASCII case.
fn same_ascii_text(a: &str, b: &str) -> (r: bool)
    ensures
        r == same_ascii(a@, b@),
{
    let x = crate::text::lower_chars(chars_of(a).as_slice());
    let y = crate::text::lower_chars(chars_of(b).as_slice());
    crate::text::chars_eq(x.as_slice(), y.as_slice())
}

/// The official name of a station code (`NDLS` gives `NEW DELHI`).
pub fn station_name(stations: &[StationEntry], code: &str) -> (r: Option<String>)
    ensures
        opt_text(r) == station_name_of(stations_view(stations@), code@),
{
    let ghost sv = stations_view(stations@);
    let ghost pick = |x: StationV| same_ascii(x.code, code@);
    let mut i: usize = 0;
    while i < stations.len()
        invariant
            0 <= i <= stations@.len(),
            sv == stations_view(stations@),
            pick == (|x: StationV| same_ascii(x.code, code@)),
            first_from(sv, pick, 0) == first_from(sv, pick, i as int),
        decreases stations@.len() - i,
    {
        proof {
            assert(sv[i as int] == stations@[i as int]@);
        }
        if same_ascii_text(stations[i].code.as_str(), code) {
            return Some(stations[i].name.clone());
        }
        i = i + 1;
    }
    None
}

/// The code of the station named exactly `name` in any ASCII case
/// (`AKOLA` gives `AK`).
pub fn station_code_by_name(stations: &[StationEntry], name: &str) -> (r: Option<String>)
    ensures
        opt_text(r) == station_code_by_name_of(stations_view(stations@), name@),
{
    let ghost sv = stations_view(stations@);
    let ghost pick = |x: StationV| crate::text::upper_seq(x.name) == crate::text::upper_seq(name@);
    let wanted = crate::text::upper_string(name);
    let mut i: usize = 0;
    while i < stations.len()
        invariant
            0 <= i <= stations@.len(),
            sv == stations_view(stations@),
            wanted@ == crate::text::upper_seq(name@),
            pick == (|x: StationV| crate::text::upper_seq(x.name) == crate::text::upper_seq(name@)),
            first_from(sv, pick, 0) == first_from(sv, pick, i as int),
        decreases stations@.len() - i,
    {
        proof {
            assert(sv[i as int] == stations@[i as int]@);
        }
        let u = crate::text::upper_string(stations[i].name.as_str());
        if crate::text::str_eq(u.as_str(), wanted.as_str()) {
            return Some(stations[i].code.clone());
        }
        i = i + 1;
    }
    None
}

/// The official name of a train number (`12951` gives its name).
pub fn train_name(trains: &[TrainRecord], number: &str) -> (r: Option<String>)
    ensures
        opt_text(r) == train_name_of(trains_view(trains@), number@),
{
    let ghost tv = trains_view(trains@);
    let ghost pick = |x: (Seq<char>, Seq<char>)| same_ascii(x.0, number@);
    let mut i: usize = 0;
    while i < trains.len()
        invariant
            0 <= i <= trains@.len(),
            tv == trains_view(trains@),
            pick == (|x: (Seq<char>, Seq<char>)| same_ascii(x.0, number@)),
            first_from(tv, pick, 0) == first_from(tv, pick, i as int),
        decreases trains@.len() - i,
    {
        proof {
            assert(tv[i as int] == trains@[i as int]@);
        }
        if same_ascii_text(trains[i].number.as_str(), number) {
            return Some(trains[i].name.clone());
        }
        i = i + 1;
    }
    None
}

} // verus!
