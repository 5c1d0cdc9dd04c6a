//! Edit distance, used to match a misspelt tool name to a known one.
use vstd::prelude::*;
use crate::text::chars_of;

verus! {

/// The smallest of three integers.
pub open spec fn min3(x: int, y: int, z: int) -> int {
    let m = if x <= y { x } else { y };
    if m <= z { m } else { z }
}

/// Levenshtein distance: the fewest single-character insertions,
/// deletions and substitutions that turn `a` into `b`.
pub open spec fn edit_distance(a: Seq<char>, b: Seq<char>) -> nat
    decreases a.len() + b.len(),
{
    if a.len() == 0 {
        b.len()
    } else if b.len() == 0 {
        a.len()
    } else {
        let cost: int = if a.last() == b.last() { 0 } else { 1 };
        min3(
            edit_distance(a.drop_last(), b) as int + 1,
            edit_distance(a, b.drop_last()) as int + 1,
            edit_distance(a.drop_last(), b.drop_last()) as int + cost,
        ) as nat
    }
}

/// The distance never exceeds the two lengths together.
pub proof fn lemma_edit_distance_bound(a: Seq<char>, b: Seq<char>)
    ensures
        edit_distance(a, b) <= a.len() + b.len(),
    decreases a.len() + b.len(),
{
    if a.len() > 0 && b.len() > 0 {
        lemma_edit_distance_bound(a.drop_last(), b);
    }
}

/// Levenshtein distance between `a` and `b`, counted in characters.
pub fn levenshtein(a: &str, b: &str) -> (r: usize)
    requires
        a@.len() + b@.len() < usize::MAX,
    ensures
        r == edit_distance(a@, b@),
{
    let av = chars_of(a);
    let bv = chars_of(b);
    let n = bv.len();
    let mut prev: Vec<usize> = Vec::new();
    let mut j: usize = 0;
    while j <= n
        invariant
            j <= n + 1,
            n == bv@.len(),
            bv@ == b@,
            a@.len() + b@.len() < usize::MAX,
            prev@.len() == j,
            forall|k: int| 0 <= k < j ==> #[trigger] prev@[k] == edit_distance(av@.take(0), bv@.take(k)),
        decreases n + 1 - j,
    {
        proof {
            assert(av@.take(0).len() == 0);
        }
        prev.push(j);
        j = j + 1;
    }
    let mut cur: Vec<usize> = Vec::new();
    let mut z: usize = 0;
    while z <= n
        invariant
            z <= n + 1,
            n == bv@.len(),
            bv@ == b@,
            a@.len() + b@.len() < usize::MAX,
            cur@.len() == z,
        decreases n + 1 - z,
    {
        cur.push(0);
        z = z + 1;
    }
    let mut i: usize = 1;
    while i <= av.len()
        invariant
            1 <= i <= av@.len() + 1,
            n == bv@.len(),
            av@ == a@,
            bv@ == b@,
            a@.len() + b@.len() < usize::MAX,
            prev@.len() == n + 1,
            cur@.len() == n + 1,
            forall|k: int| 0 <= k <= n ==> #[trigger] prev@[k] == edit_distance(av@.take(i - 1), bv@.take(k)),
        decreases av@.len() + 1 - i,
    {
        cur.set(0, i);
        proof {
            assert(bv@.take(0).len() == 0);
            assert(av@.take(i as int).len() == i);
        }
        let mut j: usize = 1;
        while j <= n
            invariant
                1 <= i <= av@.len(),
                1 <= j <= n + 1,
                n == bv@.len(),
                av@ == a@,
                bv@ == b@,
                a@.len() + b@.len() < usize::MAX,
                prev@.len() == n + 1,
                cur@.len() == n + 1,
                forall|k: int| 0 <= k <= n ==> #[trigger] prev@[k] == edit_distance(av@.take(i - 1), bv@.take(k)),
                forall|k: int| 0 <= k < j ==> #[trigger] cur@[k] == edit_distance(av@.take(i as int), bv@.take(k)),
            decreases n + 1 - j,
        {
            let ghost x = av@.take(i as int);
            let ghost y = bv@.take(j as int);
            proof {
                assert(x.drop_last() =~= av@.take(i - 1));
                assert(y.drop_last() =~= bv@.take(j - 1));
                assert(x.last() == av@[i - 1]);
                assert(y.last() == bv@[j - 1]);
                lemma_edit_distance_bound(av@.take(i - 1), bv@.take(j as int));
                lemma_edit_distance_bound(x, bv@.take(j - 1));
                lemma_edit_distance_bound(av@.take(i - 1), bv@.take(j - 1));
                assert(av@.take(i - 1).len() == i - 1);
                assert(bv@.take(j as int).len() == j);
                assert(bv@.take(j - 1).len() == j - 1);
                assert(x.len() == i);
            }
            let cost: usize = if av[i - 1] == bv[j - 1] { 0 } else { 1 };
            let del = prev[j] + 1;
            let ins = cur[j - 1] + 1;
            let sub = prev[j - 1] + cost;
            let m1 = if del <= ins { del } else { ins };
            let m = if m1 <= sub { m1 } else { sub };
            cur.set(j, m);
            proof {
                assert(edit_distance(x, y) == m);
            }
            j = j + 1;
        }
        std::mem::swap(&mut prev, &mut cur);
        i = i + 1;
    }
    proof {
        assert(av@.take(av@.len() as int) =~= a@);
        assert(bv@.take(n as int) =~= b@);
    }
    prev[n]
}

} // verus!
