//! The tokenizer of the retrieval index over the local corpora: lower-case
//! ASCII alphanumeric runs. Scoring is BM25 over floating-point weights and
//! is done by the service around this library.
use vstd::prelude::*;
use crate::data::texts;
use crate::metrics::{bump_text, bumped, distinct_keys, tally_view};
use crate::text::{ascii_lower, chars_of, chars_eq, is_alnum, lower_chars, lower_seq, string_of, trim, trim_seq, upper_seq, upper_string};

verus! {

/// One document supplied to the index.
#[derive(Debug, Clone)]
pub struct IndexEntry {
    /// `"station"` or `"train"`.
    pub kind: &'static str,
    /// Station code or train number (also the exact-match key).
    pub code: String,
    /// Primary display name.
    pub title: String,
    /// Secondary searchable text.
    pub detail: String,
}

/// Whether `c` is an ASCII letter or digit.
fn is_alnum_char(c: char) -> (r: bool)
    ensures
        r == is_alnum(c),
{
    ('0' <= c && c <= '9') || ('a' <= c && c <= 'z') || ('A' <= c && c <= 'Z')
}

/// The maximal runs of ASCII letters and digits of a text, in order.
pub open spec fn alnum_runs(s: Seq<char>) -> Seq<Seq<char>>
    decreases s.len(),
{
    if s.len() == 0 {
        Seq::empty()
    } else if !is_alnum(s.last()) {
        alnum_runs(s.drop_last())
    } else if s.len() >= 2 && !!is_alnum(s[s.len() - 2]) {
        let w = alnum_runs(s.drop_last());
        w.update(w.len() - 1, w.last().push(s.last()))
    } else {
        alnum_runs(s.drop_last()).push(seq![s.last()])
    }
}

/// The runs of ASCII letters and digits, each as a `String`.
fn split_runs(s: &str) -> (r: Vec<String>)
    ensures
        texts(r@) == alnum_runs(s@),
{
    let v = chars_of(s);
    let mut done: Vec<String> = Vec::new();
    let mut cur: Vec<char> = Vec::new();
    let mut i: usize = 0;
    proof {
        assert(v@.take(0) =~= Seq::<char>::empty());
        assert(texts(done@) =~= Seq::<Seq<char>>::empty());
    }
    while i < v.len()
        invariant
            0 <= i <= v@.len(),
            v@ == s@,
            alnum_runs(v@.take(i as int)) == texts(done@) + (if cur@.len() > 0 {
                seq![cur@]
            } else {
                Seq::<Seq<char>>::empty()
            }),
            cur@.len() > 0 <==> (i > 0 && !!is_alnum(v@[i - 1])),
        decreases v@.len() - i,
    {
        let c = v[i];
        let ghost pre = v@.take(i as int);
        let ghost post = v@.take(i + 1);
        proof {
            assert(post.drop_last() =~= pre);
            assert(post.last() == c);
            if i > 0 {
                assert(post[post.len() - 2] == v@[i - 1]);
            }
        }
        if !is_alnum_char(c) {
            if cur.len() > 0 {
                let ghost dv = texts(done@);
                let w = string_of(cur.as_slice());
                done.push(w);
                proof {
                    assert(texts(done@) =~= dv.push(w@));
                    assert(texts(done@) =~= dv + seq![cur@]);
                }
                cur = Vec::new();
            }
            proof {
                assert(texts(done@) + Seq::<Seq<char>>::empty() =~= texts(done@));
            }
        } else {
            let ghost cv = cur@;
            let ghost dv = texts(done@);
            cur.push(c);
            proof {
                if cv.len() > 0 {
                    let w = alnum_runs(pre);
                    assert(w =~= dv + seq![cv]);
                    assert(w.update(w.len() - 1, w.last().push(c)) =~= dv + seq![cur@]);
                } else {
                    assert(alnum_runs(pre) =~= dv);
                    assert(cur@ =~= seq![c]);
                    assert(dv.push(seq![c]) =~= dv + seq![cur@]);
                }
            }
        }
        i = i + 1;
    }
    proof {
        assert(v@.take(v@.len() as int) =~= v@);
    }
    if cur.len() > 0 {
        let ghost dv = texts(done@);
        let w = string_of(cur.as_slice());
        done.push(w);
        proof {
            assert(texts(done@) =~= dv + seq![cur@]);
        }
    } else {
        proof {
            assert(texts(done@) + Seq::<Seq<char>>::empty() =~= texts(done@));
        }
    }
    done
}

/// Index and query terms: the ASCII-lower-cased text's runs of ASCII letters
/// and digits.
pub fn tokenize(text: &str) -> (r: Vec<String>)
    ensures
        texts(r@) == alnum_runs(lower_seq(text@)),
{
    let lv = lower_chars(chars_of(text).as_slice());
    let l = string_of(lv.as_slice());
    split_runs(l.as_str())
}

/// The terms a document is indexed under: its title's tokens twice (a title
/// match weighs double), its detail's tokens, then its code in lower case.
pub open spec fn doc_terms_of(title: Seq<char>, detail: Seq<char>, code: Seq<char>) -> Seq<Seq<char>> {
    alnum_runs(lower_seq(title)) + alnum_runs(lower_seq(title)) + alnum_runs(lower_seq(detail)) + seq![lower_seq(code)]
}

/// The terms `entry` is indexed under.
pub fn doc_terms(entry: &IndexEntry) -> (r: Vec<String>)
    ensures
        texts(r@) == doc_terms_of(entry.title@, entry.detail@, entry.code@),
{
    let mut out = tokenize(entry.title.as_str());
    let mut again = tokenize(entry.title.as_str());
    let mut detail = tokenize(entry.detail.as_str());
    let ghost a = texts(out@);
    out.append(&mut again);
    proof {
        assert(texts(out@) =~= a + alnum_runs(lower_seq(entry.title@)));
    }
    let ghost b = texts(out@);
    out.append(&mut detail);
    proof {
        assert(texts(out@) =~= b + alnum_runs(lower_seq(entry.detail@)));
    }
    let code = string_of(lower_chars(chars_of(entry.code.as_str()).as_slice()).as_slice());
    let ghost c = texts(out@);
    out.push(code);
    proof {
        assert(texts(out@) =~= c + seq![lower_seq(entry.code@)]);
    }
    out
}

/// How often each term occurs, terms in first-seen order.
pub open spec fn tally_of(terms: Seq<Seq<char>>) -> Seq<(Seq<char>, u64)>
    decreases terms.len(),
{
    if terms.len() == 0 {
        Seq::empty()
    } else {
        bumped(tally_of(terms.drop_last()), terms.last())
    }
}

/// The term frequencies of one document's terms.
pub fn term_frequencies(terms: &Vec<String>) -> (r: Vec<(String, u64)>)
    ensures
        tally_view(r@) == tally_of(texts(terms@)),
        distinct_keys(tally_view(r@)),
{
    let mut out: Vec<(String, u64)> = Vec::new();
    let mut i: usize = 0;
    proof {
        assert(tally_view(out@) =~= Seq::empty());
    }
    while i < terms.len()
        invariant
            0 <= i <= terms@.len(),
            tally_view(out@) == tally_of(texts(terms@).take(i as int)),
            distinct_keys(tally_view(out@)),
        decreases terms@.len() - i,
    {
        proof {
            assert(texts(terms@).take(i + 1).drop_last() =~= texts(terms@).take(i as int));
            assert(texts(terms@).take(i + 1).last() == terms@[i as int]@);
        }
        bump_text(&mut out, terms[i].as_str());
        i = i + 1;
    }
    proof {
        assert(texts(terms@).take(terms@.len() as int) =~= texts(terms@));
    }
    out
}

/// The code a query names exactly: the trimmed query in upper case, where
/// it is 2 to 6 ASCII letters and digits.
pub open spec fn exact_query_of(query: Seq<char>) -> Option<Seq<char>> {
    let q = upper_seq(trim_seq(query));
    if 2 <= q.len() <= 6 && forall|i: int| 0 <= i < q.len() ==> is_alnum(#[trigger] q[i]) { Some(q) } else { None }
}

/// The documents whose code the query names exactly (ignoring ASCII case),
/// in index order; they outrank every other hit.
pub fn exact_code_hits(entries: &[IndexEntry], query: &str) -> (r: Vec<usize>)
    ensures
        match exact_query_of(query@) {
            Some(q) => forall|j: int| 0 <= j < r@.len() ==> r@[j] < entries@.len()
                && lower_seq(entries@[r@[j] as int].code@) == lower_seq(q),
            None => r@.len() == 0,
        },
        match exact_query_of(query@) {
            Some(q) => forall|i: int| 0 <= i < entries@.len() && lower_seq(entries@[i].code@) == lower_seq(q)
                ==> r@.contains(i as usize),
            None => true,
        },
        forall|a: int, b: int| 0 <= a < b < r@.len() ==> r@[a] < r@[b],
{
    let q = upper_string(trim(query));
    let qv = chars_of(q.as_str());
    let mut ok = qv.len() >= 2 && qv.len() <= 6;
    let mut k: usize = 0;
    while k < qv.len()
        invariant
            0 <= k <= qv@.len(),
            ok ==> (2 <= qv@.len() <= 6 && forall|i: int| 0 <= i < k ==> is_alnum(#[trigger] qv@[i])),
            !ok ==> !(2 <= qv@.len() <= 6 && forall|i: int| 0 <= i < qv@.len() ==> is_alnum(#[trigger] qv@[i])),
        decreases qv@.len() - k,
    {
        if !is_alnum_char(qv[k]) {
            ok = false;
        }
        k = k + 1;
    }
    let mut out: Vec<usize> = Vec::new();
    if !ok {
        return out;
    }
    let lq = lower_chars(qv.as_slice());
    let mut i: usize = 0;
    while i < entries.len()
        invariant
            0 <= i <= entries@.len(),
            exact_query_of(query@) == Some(qv@),
            lq@ == lower_seq(qv@),
            forall|j: int| 0 <= j < out@.len() ==> out@[j] < i && lower_seq(entries@[out@[j] as int].code@) == lq@,
            forall|t: int| 0 <= t < i && lower_seq(entries@[t].code@) == lq@ ==> out@.contains(t as usize),
            forall|a: int, b: int| 0 <= a < b < out@.len() ==> out@[a] < out@[b],
        decreases entries@.len() - i,
    {
        let lc = lower_chars(chars_of(entries[i].code.as_str()).as_slice());
        if chars_eq(lc.as_slice(), lq.as_slice()) {
            let ghost before = out@;
            out.push(i);
            proof {
                assert forall|t: int| 0 <= t < i + 1 && lower_seq(entries@[t].code@) == lq@ implies out@.contains(t as usize) by {
                    if t < i {
                        let w = choose|w: int| 0 <= w < before.len() && before[w] == t as usize;
                        assert(out@[w] == t as usize);
                    } else {
                        assert(out@[before.len() as int] == i);
                    }
                }
            }
        } else {
            proof {
                assert forall|t: int| 0 <= t < i + 1 && lower_seq(entries@[t].code@) == lq@ implies out@.contains(t as usize) by {
                    if t == i {
                        assert(lc@ == lower_seq(entries@[t].code@));
                    }
                }
            }
        }
        i = i + 1;
    }
    out
}

} // verus!
