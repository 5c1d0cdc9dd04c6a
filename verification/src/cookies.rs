//! A tiny cookie jar: an ordered list of `(name, value)` pairs in which a
//! newer value replaces an older one in place, rendered as a `Cookie` header.
use vstd::prelude::*;
use crate::text::{
    chars_of, find_char, first_index_of, lemma_first_index_of, push_str, string_of, string_of_range, trim,
    trim_seq,
};

verus! {

/// The text of a list of cookie pairs.
pub open spec fn pairs_view(v: Seq<(String, String)>) -> Seq<(Seq<char>, Seq<char>)> {
    v.map_values(|p: (String, String)| (p.0@, p.1@))
}

/// Position of the first pair named `n`.
pub open spec fn first_named(s: Seq<(Seq<char>, Seq<char>)>, n: Seq<char>) -> Option<int>
    decreases s.len(),
{
    if s.len() == 0 {
        None
    } else if s[0].0 == n {
        Some(0)
    } else {
        match first_named(s.drop_first(), n) {
            Some(i) => Some(i + 1),
            None => None,
        }
    }
}

/// Facts about the first pair with a given name.
pub proof fn lemma_first_named(s: Seq<(Seq<char>, Seq<char>)>, n: Seq<char>)
    ensures
        match first_named(s, n) {
            Some(i) => 0 <= i < s.len() && s[i].0 == n && forall|j: int| 0 <= j < i ==> s[j].0 != n,
            None => forall|j: int| 0 <= j < s.len() ==> s[j].0 != n,
        },
    decreases s.len(),
{
    if s.len() > 0 {
        lemma_first_named(s.drop_first(), n);
        if s[0].0 != n {
            match first_named(s.drop_first(), n) {
                Some(i) => {
                    assert forall|j: int| 0 <= j < i + 1 implies s[j].0 != n by {
                        if j > 0 { assert(s[j] == s.drop_first()[j - 1]); }
                    }
                },
                None => {
                    assert forall|j: int| 0 <= j < s.len() implies s[j].0 != n by {
                        if j > 0 { assert(s[j] == s.drop_first()[j - 1]); }
                    }
                },
            }
        }
    }
}

/// The jar after storing `v` under `n`: an existing cookie of that name keeps
/// its place and takes the new value, a new name goes last, an empty name is
/// ignored.
pub open spec fn merged(s: Seq<(Seq<char>, Seq<char>)>, n: Seq<char>, v: Seq<char>) -> Seq<(Seq<char>, Seq<char>)> {
    if n.len() == 0 {
        s
    } else {
        match first_named(s, n) {
            Some(i) => s.update(i, (n, v)),
            None => s.push((n, v)),
        }
    }
}

/// `name=value`.
pub open spec fn cookie_text(p: (Seq<char>, Seq<char>)) -> Seq<char> {
    p.0 + seq!['='] + p.1
}

/// The `Cookie` header line: `name=value` pairs joined by `"; "`.
pub open spec fn cookie_line(s: Seq<(Seq<char>, Seq<char>)>) -> Seq<char>
    decreases s.len(),
{
    if s.len() == 0 {
        Seq::empty()
    } else if s.len() == 1 {
        cookie_text(s[0])
    } else {
        cookie_line(s.drop_last()) + seq![';', ' '] + cookie_text(s.last())
    }
}

/// The `name=value` part of a `Set-Cookie` header: everything before the
/// first `;`.
pub open spec fn set_cookie_pair(raw: Seq<char>) -> Seq<char> {
    match first_index_of(raw, ';') {
        Some(i) => raw.subrange(0, i),
        None => raw,
    }
}

/// The cookie a `Set-Cookie` header sets: name and value split at the first
/// `=`, both trimmed; none when there is no `=` or the name is blank.
pub open spec fn parsed_set_cookie(raw: Seq<char>) -> Option<(Seq<char>, Seq<char>)> {
    let p = set_cookie_pair(raw);
    match first_index_of(p, '=') {
        Some(i) => {
            let n = trim_seq(p.subrange(0, i));
            if n.len() == 0 {
                None
            } else {
                Some((n, trim_seq(p.subrange(i + 1, p.len() as int))))
            }
        },
        None => None,
    }
}

/// The cookie set by one `Set-Cookie` header value, if any.
pub fn parse_set_cookie(raw: &str) -> (r: Option<(String, String)>)
    ensures
        match r {
            Some(p) => parsed_set_cookie(raw@) == Some((p.0@, p.1@)),
            None => parsed_set_cookie(raw@) is None,
        },
{
    let v = chars_of(raw);
    let end = match find_char(v.as_slice(), ';') {
        Some(i) => i,
        None => v.len(),
    };
    let pair = string_of_range(v.as_slice(), 0, end);
    let pv = chars_of(pair.as_str());
    proof {
        lemma_first_index_of(v@, ';');
        assert(pv@ == set_cookie_pair(raw@)) by {
            match first_index_of(v@, ';') {
                Some(i) => {},
                None => { assert(v@.subrange(0, v@.len() as int) =~= v@); },
            }
        }
    }
    match find_char(pv.as_slice(), '=') {
        Some(eq) => {
            let name_raw = string_of_range(pv.as_slice(), 0, eq);
            let name = trim(name_raw.as_str());
            let nv = chars_of(name);
            if nv.len() == 0 {
                return None;
            }
            let value_raw = string_of_range(pv.as_slice(), eq + 1, pv.len());
            let value = trim(value_raw.as_str());
            Some((name.to_owned(), value.to_owned()))
        },
        None => None,
    }
}

/// Store `value` under `name` in `jar` (newest value wins, position kept).
pub fn merge_cookie(jar: &mut Vec<(String, String)>, name: String, value: String)
    ensures
        pairs_view(final(jar)@) == merged(pairs_view(old(jar)@), name@, value@),
{
    let nv = chars_of(name.as_str());
    if nv.len() == 0 {
        return;
    }
    let ghost s = pairs_view(jar@);
    let mut i: usize = 0;
    while i < jar.len()
        invariant
            0 <= i <= jar@.len(),
            s == pairs_view(jar@),
            jar@ == old(jar)@,
            name@.len() > 0,
            forall|j: int| 0 <= j < i ==> s[j].0 != name@,
        decreases jar@.len() - i,
    {
        if jar[i].0 == name {
            proof {
                assert(s[i as int] == (jar@[i as int].0@, jar@[i as int].1@));
                lemma_first_named(s, name@);
                match first_named(s, name@) {
                    Some(k) => {
                        if k < i { assert(s[k].0 != name@); }
                        if k > i { assert(s[i as int].0 == name@); }
                    },
                    None => { assert(s[i as int].0 == name@); },
                }
            }
            proof {
                assert(first_named(s, name@) == Some(i as int));
                assert(name@.len() > 0);
            }
            let ghost nm = name@;
            let ghost vl = value@;
            jar.set(i, (name, value));
            proof {
                assert(merged(s, nm, vl) == s.update(i as int, (nm, vl)));
                assert(pairs_view(jar@) =~= s.update(i as int, (nm, vl)));
            }
            return;
        }
        proof {
            assert(s[i as int] == (jar@[i as int].0@, jar@[i as int].1@));
        }
        i = i + 1;
    }
    proof {
        lemma_first_named(s, name@);
        match first_named(s, name@) {
            Some(k) => { assert(s[k].0 != name@); },
            None => {},
        }
    }
    jar.push((name, value));
    proof {
        assert(pairs_view(jar@) =~= s.push((name@, value@)));
    }
}

/// The `Cookie` header line for a list of pairs.
pub fn cookie_str(c: &[(String, String)]) -> (r: String)
    ensures
        r@ == cookie_line(pairs_view(c@)),
{
    let mut out: Vec<char> = Vec::new();
    let mut i: usize = 0;
    while i < c.len()
        invariant
            0 <= i <= c@.len(),
            out@ == cookie_line(pairs_view(c@.subrange(0, i as int))),
        decreases c@.len() - i,
    {
        if i > 0 {
            push_str(&mut out, "; ");
        }
        push_str(&mut out, c[i].0.as_str());
        push_str(&mut out, "=");
        push_str(&mut out, c[i].1.as_str());
        proof {
            reveal_strlit("; ");
            reveal_strlit("=");
            let pre = pairs_view(c@.subrange(0, i + 1));
            assert(pre.drop_last() =~= pairs_view(c@.subrange(0, i as int)));
            assert(pre.last() == (c@[i as int].0@, c@[i as int].1@));
            if i == 0 {
                assert(pre.len() == 1);
            }
        }
        i = i + 1;
    }
    proof {
        assert(c@.subrange(0, c@.len() as int) =~= c@);
    }
    string_of(out.as_slice())
}

/// Cookie jar shared by the clients of one upstream site.
#[derive(Debug, Default)]
pub struct CookieJar {
    cookies: Vec<(String, String)>,
}

impl View for CookieJar {
    type V = Seq<(Seq<char>, Seq<char>)>;

    closed spec fn view(&self) -> Seq<(Seq<char>, Seq<char>)> {
        pairs_view(self.cookies@)
    }
}

impl CookieJar {
    /// An empty jar.
    pub fn new() -> (r: Self)
        ensures
            r@ == Seq::<(Seq<char>, Seq<char>)>::empty(),
    {
        let r = CookieJar { cookies: Vec::new() };
        proof { assert(pairs_view(r.cookies@) =~= Seq::<(Seq<char>, Seq<char>)>::empty()); }
        r
    }

    /// Store one cookie; an empty name is ignored.
    pub fn merge(&mut self, name: String, value: String)
        ensures
            final(self)@ == merged(old(self)@, name@, value@),
    {
        merge_cookie(&mut self.cookies, name, value);
    }

    /// Store the cookie set by one `Set-Cookie` header value, if it sets one.
    pub fn ingest_set_cookie(&mut self, raw: &str)
        ensures
            final(self)@ == match parsed_set_cookie(raw@) {
                Some(p) => merged(old(self)@, p.0, p.1),
                None => old(self)@,
            },
    {
        match parse_set_cookie(raw) {
            Some(p) => merge_cookie(&mut self.cookies, p.0, p.1),
            None => {},
        }
    }

    /// Store the cookies set by several `Set-Cookie` header values, in order.
    pub fn ingest_set_cookies(&mut self, raws: &[String])
        ensures
            final(self)@ == ingested(old(self)@, raws@.map_values(|s: String| s@)),
    {
        let ghost texts = raws@.map_values(|s: String| s@);
        let mut i: usize = 0;
        while i < raws.len()
            invariant
                0 <= i <= raws@.len(),
                texts == raws@.map_values(|s: String| s@),
                self@ == ingested(old(self)@, texts.subrange(0, i as int)),
            decreases raws@.len() - i,
        {
            self.ingest_set_cookie(raws[i].as_str());
            proof {
                assert(texts.subrange(0, i + 1).drop_last() =~= texts.subrange(0, i as int));
            }
            i = i + 1;
        }
        proof {
            assert(texts.subrange(0, raws@.len() as int) =~= texts);
        }
    }

    /// The `Cookie` header value, or none for an empty jar.
    pub fn header_value(&self) -> (r: Option<String>)
        ensures
            match r {
                Some(h) => self@.len() > 0 && h@ == cookie_line(self@),
                None => self@.len() == 0,
            },
    {
        if self.cookies.len() == 0 {
            None
        } else {
            Some(cookie_str(self.cookies.as_slice()))
        }
    }

    /// The `Cookie` header value, empty for an empty jar.
    pub fn cookie_str(&self) -> (r: String)
        ensures
            r@ == cookie_line(self@),
    {
        match self.header_value() {
            Some(h) => h,
            None => String::new(),
        }
    }

    /// A copy of the stored pairs, in order.
    pub fn snapshot(&self) -> (r: Vec<(String, String)>)
        ensures
            pairs_view(r@) == self@,
    {
        let mut out: Vec<(String, String)> = Vec::new();
        let mut i: usize = 0;
        while i < self.cookies.len()
            invariant
                0 <= i <= self.cookies@.len(),
                pairs_view(out@) =~= pairs_view(self.cookies@.subrange(0, i as int)),
            decreases self.cookies@.len() - i,
        {
            let n = self.cookies[i].0.clone();
            let v = self.cookies[i].1.clone();
            let ghost before = out@;
            out.push((n, v));
            proof {
                assert(out@ == before.push((n, v)));
                assert(self.cookies@.subrange(0, i + 1) == self.cookies@.subrange(0, i as int).push(self.cookies@[i as int]));
                assert(pairs_view(out@) =~= pairs_view(before).push((n@, v@)));
                assert(pairs_view(self.cookies@.subrange(0, i + 1)) =~= pairs_view(self.cookies@.subrange(0, i as int)).push((n@, v@)));
            }
            i = i + 1;
        }
        proof {
            assert(self.cookies@.subrange(0, self.cookies@.len() as int) =~= self.cookies@);
        }
        out
    }

    /// Replace the stored pairs.
    pub fn restore(&mut self, c: Vec<(String, String)>)
        ensures
            final(self)@ == pairs_view(c@),
    {
        self.cookies = c;
    }
}

/// The jar after ingesting several `Set-Cookie` header values in order.
pub open spec fn ingested(s: Seq<(Seq<char>, Seq<char>)>, raws: Seq<Seq<char>>) -> Seq<(Seq<char>, Seq<char>)>
    decreases raws.len(),
{
    if raws.len() == 0 {
        s
    } else {
        let before = ingested(s, raws.drop_last());
        match parsed_set_cookie(raws.last()) {
            Some(p) => merged(before, p.0, p.1),
            None => before,
        }
    }
}

/// After storing a cookie its name maps to the new value, no other cookie
/// changes and the order is kept; storing the same cookie again changes
/// nothing.
pub proof fn law_merge_replaces_in_place(s: Seq<(Seq<char>, Seq<char>)>, n: Seq<char>, v: Seq<char>)
    requires
        n.len() > 0,
    ensures
        first_named(merged(s, n, v), n) is Some,
        merged(s, n, v)[first_named(merged(s, n, v), n)->0].1 == v,
        merged(s, n, v).len() == s.len() || merged(s, n, v).len() == s.len() + 1,
        forall|j: int| 0 <= j < s.len() && s[j].0 != n ==> #[trigger] merged(s, n, v)[j] == s[j],
        merged(merged(s, n, v), n, v) == merged(s, n, v),
{
    lemma_first_named(s, n);
    let m = merged(s, n, v);
    lemma_first_named(m, n);
    match first_named(s, n) {
        Some(i) => {
            match first_named(m, n) {
                Some(k) => {
                    if k < i { assert(m[k] == s[k]); }
                    if k > i { assert(m[i].0 == n); }
                },
                None => { assert(m[i].0 == n); },
            }
            assert(m.update(i, (n, v)) =~= m);
        },
        None => {
            let last = s.len() as int;
            assert(m[last].0 == n);
            match first_named(m, n) {
                Some(k) => {
                    if k < last { assert(m[k] == s[k]); }
                },
                None => {},
            }
            assert(m.update(last, (n, v)) =~= m);
        },
    }
}

} // verus!
