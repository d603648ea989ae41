//! Lists of `(key, value)` pairs kept in ascending key order with distinct
//! keys: the ordered maps of the manifests. Keys are ordered character by
//! character by code point, which is the byte order of their UTF-8 text.
use vstd::prelude::*;

verus! {

/// `a` sorts before `b`: at the first differing character `a`'s is smaller,
/// or `a` is a proper prefix of `b`.
pub open spec fn chars_lt(a: Seq<char>, b: Seq<char>) -> bool
    decreases a.len(),
{
    if a.len() == 0 {
        b.len() > 0
    } else if b.len() == 0 {
        false
    } else if a[0] < b[0] {
        true
    } else if a[0] > b[0] {
        false
    } else {
        chars_lt(a.drop_first(), b.drop_first())
    }
}

/// No key sorts before itself.
pub proof fn lemma_chars_lt_irreflexive(a: Seq<char>)
    ensures
        !chars_lt(a, a),
    decreases a.len(),
{
    if a.len() > 0 {
        lemma_chars_lt_irreflexive(a.drop_first());
    }
}

/// The key order is transitive.
pub proof fn lemma_chars_lt_transitive(a: Seq<char>, b: Seq<char>, c: Seq<char>)
    requires
        chars_lt(a, b),
        chars_lt(b, c),
    ensures
        chars_lt(a, c),
    decreases a.len(),
{
    if a.len() > 0 && b.len() > 0 && c.len() > 0 {
        if a[0] == b[0] && b[0] == c[0] {
            lemma_chars_lt_transitive(a.drop_first(), b.drop_first(), c.drop_first());
        }
    }
}

/// Of two different keys, one sorts before the other.
pub proof fn lemma_chars_lt_total(a: Seq<char>, b: Seq<char>)
    ensures
        a == b || chars_lt(a, b) || chars_lt(b, a),
    decreases a.len(),
{
    if a.len() > 0 && b.len() > 0 {
        if a[0] == b[0] {
            lemma_chars_lt_total(a.drop_first(), b.drop_first());
            assert(a[0] == b[0]);
            if a.drop_first() == b.drop_first() {
                assert(a.drop_first().len() == b.drop_first().len());
                assert(a.len() == b.len());
                assert forall|i: int| 0 <= i < a.len() implies a[i] == b[i] by {
                    if i > 0 {
                        assert(a[i] == a.drop_first()[i - 1]);
                        assert(b[i] == b.drop_first()[i - 1]);
                    }
                }
                assert(a =~= b);
            }
        }
    } else if a.len() == 0 && b.len() == 0 {
        assert(a =~= b);
    }
}

/// Two keys never sort before each other.
pub proof fn lemma_chars_lt_asymmetric(a: Seq<char>, b: Seq<char>)
    requires
        chars_lt(a, b),
    ensures
        !chars_lt(b, a),
{
    if chars_lt(b, a) {
        lemma_chars_lt_transitive(a, b, a);
        lemma_chars_lt_irreflexive(a);
    }
}

/// Whether `a` sorts before `b`, character by character.
pub fn str_lt(a: &str, b: &str) -> (res: bool)
    ensures
        res == chars_lt(a@, b@),
{
    let av = chars_of(a);
    let bv = chars_of(b);
    let mut i: usize = 0;
    proof {
        assert(a@.skip(0) =~= a@);
        assert(b@.skip(0) =~= b@);
    }
    while i < av.len() && i < bv.len()
        invariant
            av@ == a@,
            bv@ == b@,
            i <= av@.len(),
            i <= bv@.len(),
            chars_lt(a@, b@) == chars_lt(a@.skip(i as int), b@.skip(i as int)),
        decreases av@.len() - i,
    {
        let x = av[i];
        let y = bv[i];
        proof {
            assert(a@.skip(i as int)[0] == x);
            assert(b@.skip(i as int)[0] == y);
            assert(a@.skip(i as int).drop_first() =~= a@.skip(i + 1));
            assert(b@.skip(i as int).drop_first() =~= b@.skip(i + 1));
        }
        if x < y {
            return true;
        }
        if x > y {
            return false;
        }
        i = i + 1;
    }
    i < bv.len()
}

/// The characters of `s`.
pub fn chars_of(s: &str) -> (res: Vec<char>)
    ensures
        res@ == s@,
{
    let mut out: Vec<char> = Vec::new();
    for c in iter: s.chars()
        invariant
            iter.seq() == s@,
            out@ == s@.take(iter.index() as int),
    {
        out.push(c);
        proof { assert(out@ =~= s@.take(iter.index() + 1)); }
    }
    proof { assert(s@.take(s@.len() as int) =~= s@); }
    out
}

/// The pairs of a key list as plain values.
pub open spec fn pairs_view<V: View>(s: Seq<(String, V)>) -> Seq<(Seq<char>, V::V)> {
    s.map_values(|p: (String, V)| (p.0@, p.1@))
}

/// The keys are in ascending order, each once.
pub open spec fn keys_ascending<W>(s: Seq<(Seq<char>, W)>) -> bool {
    forall|i: int, j: int| 0 <= i < j < s.len() ==> chars_lt(#[trigger] s[i].0, #[trigger] s[j].0)
}

/// How many keys sort before `k`.
pub open spec fn count_before<W>(s: Seq<(Seq<char>, W)>, k: Seq<char>) -> nat
    decreases s.len(),
{
    if s.len() == 0 {
        0
    } else {
        count_before(s.drop_last(), k) + (if chars_lt(s.last().0, k) { 1nat } else { 0nat })
    }
}

/// `s` with `(key, value)` put in: replacing the value where `key` is
/// already present, else inserted where it sorts.
pub open spec fn put_key<W>(s: Seq<(Seq<char>, W)>, key: Seq<char>, value: W) -> Seq<(Seq<char>, W)> {
    let p = count_before(s, key) as int;
    if p < s.len() && s[p].0 == key {
        s.update(p, (key, value))
    } else {
        s.insert(p, (key, value))
    }
}

proof fn lemma_count_before_prefix<W>(s: Seq<(Seq<char>, W)>, k: Seq<char>, i: int)
    requires
        keys_ascending(s),
        0 <= i <= s.len(),
        forall|j: int| 0 <= j < i ==> chars_lt(#[trigger] s[j].0, k),
        i == s.len() || !chars_lt(s[i].0, k),
    ensures
        count_before(s, k) == i,
    decreases s.len(),
{
    if s.len() > 0 {
        let t = s.drop_last();
        if i == s.len() {
            assert forall|j: int| 0 <= j < t.len() implies chars_lt(#[trigger] t[j].0, k) by {
                assert(t[j] == s[j]);
            }
            lemma_count_before_prefix(t, k, i - 1);
            assert(chars_lt(s[i - 1].0, k));
        } else {
            assert(!chars_lt(s.last().0, k)) by {
                if i < s.len() - 1 {
                    assert(chars_lt(s[i].0, s[s.len() - 1].0));
                    if chars_lt(s.last().0, k) {
                        lemma_chars_lt_transitive(s[i].0, s.last().0, k);
                    }
                }
            }
            assert forall|j: int| 0 <= j < i implies chars_lt(#[trigger] t[j].0, k) by {
                assert(t[j] == s[j]);
            }
            if i < t.len() {
                assert(t[i] == s[i]);
            }
            lemma_count_before_prefix(t, k, i);
        }
    }
}

proof fn lemma_put_key_ascending<W>(s: Seq<(Seq<char>, W)>, key: Seq<char>, value: W)
    requires
        keys_ascending(s),
    ensures
        keys_ascending(put_key(s, key, value)),
{
    let p = count_before(s, key) as int;
    lemma_count_before_bounds(s, key);
    let r = put_key(s, key, value);
    if p < s.len() && s[p].0 == key {
        assert forall|a: int, b: int| 0 <= a < b < r.len() implies chars_lt(#[trigger] r[a].0, #[trigger] r[b].0) by {
            assert(r[a].0 == s[a].0);
            assert(r[b].0 == s[b].0);
        }
    } else {
        if p < s.len() {
            lemma_chars_lt_total(s[p].0, key);
            lemma_count_before_not_before(s, key, p);
        }
        assert forall|a: int, b: int| 0 <= a < b < r.len() implies chars_lt(#[trigger] r[a].0, #[trigger] r[b].0) by {
            if b < p {
                assert(r[a] == s[a] && r[b] == s[b]);
            } else if b == p {
                assert(r[a] == s[a]);
                lemma_count_before_is_before(s, key, a);
            } else if a == p {
                assert(r[b] == s[b - 1]);
                if b - 1 > p {
                    lemma_chars_lt_transitive(key, s[p].0, s[b - 1].0);
                }
            } else if a < p {
                assert(r[a] == s[a] && r[b] == s[b - 1]);
                lemma_count_before_is_before(s, key, a);
                if b - 1 > p {
                    lemma_chars_lt_transitive(key, s[p].0, s[b - 1].0);
                }
                lemma_chars_lt_transitive(s[a].0, key, s[b - 1].0);
            } else {
                assert(r[a] == s[a - 1] && r[b] == s[b - 1]);
            }
        }
    }
}

proof fn lemma_count_before_bounds<W>(s: Seq<(Seq<char>, W)>, k: Seq<char>)
    ensures
        count_before(s, k) <= s.len(),
    decreases s.len(),
{
    if s.len() > 0 {
        lemma_count_before_bounds(s.drop_last(), k);
    }
}

/// In an ascending list, the first `count_before` keys sort before `k`.
proof fn lemma_count_before_is_before<W>(s: Seq<(Seq<char>, W)>, k: Seq<char>, a: int)
    requires
        keys_ascending(s),
        0 <= a < count_before(s, k),
    ensures
        chars_lt(s[a].0, k),
    decreases s.len(),
{
    lemma_count_before_bounds(s, k);
    let t = s.drop_last();
    lemma_count_before_bounds(t, k);
    if chars_lt(s.last().0, k) {
        if a < s.len() - 1 {
            assert(chars_lt(s[a].0, s.last().0));
            lemma_chars_lt_transitive(s[a].0, s.last().0, k);
        }
    } else {
        assert(t[a] == s[a]);
        lemma_count_before_is_before(t, k, a);
    }
}

/// In an ascending list, the key at `count_before` does not sort before `k`.
proof fn lemma_count_before_not_before<W>(s: Seq<(Seq<char>, W)>, k: Seq<char>, p: int)
    requires
        keys_ascending(s),
        p == count_before(s, k),
        p < s.len(),
    ensures
        !chars_lt(s[p].0, k),
    decreases s.len(),
{
    let t = s.drop_last();
    lemma_count_before_bounds(t, k);
    if chars_lt(s.last().0, k) {
        assert forall|j: int| 0 <= j < t.len() implies chars_lt(#[trigger] t[j].0, k) by {
            assert(t[j] == s[j]);
            assert(chars_lt(s[j].0, s.last().0));
            lemma_chars_lt_transitive(s[j].0, s.last().0, k);
        }
        assert(keys_ascending(t)) by {
            assert forall|a: int, b: int| 0 <= a < b < t.len() implies chars_lt(#[trigger] t[a].0, #[trigger] t[b].0) by {
                assert(t[a] == s[a] && t[b] == s[b]);
            }
        }
        lemma_count_before_prefix(t, k, t.len() as int);
    } else if p < t.len() {
        assert(t[p] == s[p]);
        lemma_count_before_not_before(t, k, p);
    }
}

/// Puts `(key, value)` into an ordered key list: the value replaces the
/// old one where the key is present, else the pair is inserted in order,
/// as `BTreeMap::insert` does.
pub fn put_in_order<V: View>(list: &mut Vec<(String, V)>, key: String, value: V)
    requires
        keys_ascending(pairs_view(old(list)@)),
    ensures
        keys_ascending(pairs_view(final(list)@)),
        pairs_view(final(list)@) == put_key(pairs_view(old(list)@), key@, value@),
{
    let ghost s = pairs_view(list@);
    let ghost kk = key@;
    let ghost vv = value@;
    let mut i: usize = 0;
    while i < list.len() && str_lt(list[i].0.as_str(), key.as_str())
        invariant
            pairs_view(list@) == s,
            keys_ascending(s),
            kk == key@,
            i <= s.len(),
            forall|j: int| 0 <= j < i ==> chars_lt(#[trigger] s[j].0, kk),
        decreases s.len() - i,
    {
        i = i + 1;
    }
    proof {
        if i < s.len() {
            assert(s[i as int].0 == list@[i as int].0@);
        }
        lemma_count_before_prefix(s, kk, i as int);
        lemma_put_key_ascending(s, kk, vv);
    }
    if i < list.len() && *list[i].0.as_str() == *key.as_str() {
        list.set(i, (key, value));
        proof {
            assert(pairs_view(list@) =~= s.update(i as int, (kk, vv)));
        }
    } else {
        list.insert(i, (key, value));
        proof {
            assert(pairs_view(list@) =~= s.insert(i as int, (kk, vv)));
        }
    }
}

/// The names are in ascending order; equal names may repeat.
pub open spec fn names_ascending(s: Seq<Seq<char>>) -> bool {
    forall|i: int, j: int| 0 <= i < j < s.len() ==> !chars_lt(#[trigger] s[j], #[trigger] s[i])
}

/// How many names of `s` sort before `x`.
pub open spec fn count_lt(s: Seq<Seq<char>>, x: Seq<char>) -> nat
    decreases s.len(),
{
    if s.len() == 0 {
        0
    } else {
        count_lt(s.drop_last(), x) + (if chars_lt(s.last(), x) { 1nat } else { 0nat })
    }
}

/// `x` inserted into the ascending `s` after every name that sorts before
/// it and before the rest.
pub open spec fn insert_sorted(s: Seq<Seq<char>>, x: Seq<char>) -> Seq<Seq<char>> {
    s.insert(count_lt(s, x) as int, x)
}

/// The names in ascending order, by inserting them one after another;
/// equal names keep their order.
pub open spec fn sorted_names(ns: Seq<Seq<char>>) -> Seq<Seq<char>>
    decreases ns.len(),
{
    if ns.len() == 0 {
        Seq::empty()
    } else {
        insert_sorted(sorted_names(ns.drop_last()), ns.last())
    }
}

proof fn lemma_count_lt_bounds(s: Seq<Seq<char>>, x: Seq<char>)
    ensures
        count_lt(s, x) <= s.len(),
    decreases s.len(),
{
    if s.len() > 0 {
        lemma_count_lt_bounds(s.drop_last(), x);
    }
}

/// Where `b` does not sort before `a` and `b` sorts before `c`, so does `a`.
proof fn lemma_not_lt_then_lt(a: Seq<char>, b: Seq<char>, c: Seq<char>)
    requires
        !chars_lt(b, a),
        chars_lt(b, c),
    ensures
        chars_lt(a, c),
{
    lemma_chars_lt_total(a, b);
    if a != b {
        lemma_chars_lt_transitive(a, b, c);
    }
}

proof fn lemma_count_lt_prefix(s: Seq<Seq<char>>, x: Seq<char>, p: int)
    requires
        names_ascending(s),
        0 <= p <= s.len(),
        forall|j: int| 0 <= j < p ==> chars_lt(#[trigger] s[j], x),
        p == s.len() || !chars_lt(s[p], x),
    ensures
        count_lt(s, x) == p,
    decreases s.len(),
{
    if s.len() > 0 {
        let t = s.drop_last();
        assert(names_ascending(t)) by {
            assert forall|i: int, j: int| 0 <= i < j < t.len() implies !chars_lt(#[trigger] t[j], #[trigger] t[i]) by {
                assert(t[i] == s[i] && t[j] == s[j]);
            }
        }
        if p == s.len() {
            assert forall|j: int| 0 <= j < p - 1 implies chars_lt(#[trigger] t[j], x) by {
                assert(t[j] == s[j]);
            }
            lemma_count_lt_prefix(t, x, p - 1);
            assert(chars_lt(s[p - 1], x));
        } else {
            assert(!chars_lt(s.last(), x)) by {
                if p < s.len() - 1 {
                    assert(!chars_lt(s[s.len() - 1], s[p]));
                    if chars_lt(s.last(), x) {
                        lemma_not_lt_then_lt(s[p], s.last(), x);
                    }
                }
            }
            assert forall|j: int| 0 <= j < p implies chars_lt(#[trigger] t[j], x) by {
                assert(t[j] == s[j]);
            }
            if p < t.len() {
                assert(t[p] == s[p]);
            }
            lemma_count_lt_prefix(t, x, p);
        }
    }
}

proof fn lemma_insert_sorted_ascending(s: Seq<Seq<char>>, x: Seq<char>, p: int)
    requires
        names_ascending(s),
        0 <= p <= s.len(),
        forall|j: int| 0 <= j < p ==> chars_lt(#[trigger] s[j], x),
        p == s.len() || !chars_lt(s[p], x),
    ensures
        names_ascending(s.insert(p, x)),
{
    let r = s.insert(p, x);
    assert forall|a: int, b: int| 0 <= a < b < r.len() implies !chars_lt(#[trigger] r[b], #[trigger] r[a]) by {
        if b < p {
            assert(r[a] == s[a] && r[b] == s[b]);
        } else if b == p {
            assert(r[a] == s[a]);
            assert(chars_lt(s[a], x));
            lemma_chars_lt_asymmetric(s[a], x);
        } else if a == p {
            assert(r[b] == s[b - 1]);
            if chars_lt(s[b - 1], x) {
                if b - 1 > p {
                    assert(!chars_lt(s[b - 1], s[p]));
                    lemma_not_lt_then_lt(s[p], s[b - 1], x);
                }
            }
        } else if a < p {
            assert(r[a] == s[a] && r[b] == s[b - 1]);
            if chars_lt(s[b - 1], s[a]) {
                lemma_chars_lt_transitive(s[b - 1], s[a], x);
                if b - 1 > p {
                    assert(!chars_lt(s[b - 1], s[p]));
                    lemma_not_lt_then_lt(s[p], s[b - 1], x);
                }
            }
        } else {
            assert(r[a] == s[a - 1] && r[b] == s[b - 1]);
        }
    }
}

/// Sorts names in ascending character order, equal names keeping their
/// order, as a stable sort by code point (the byte order of UTF-8 text).
pub fn sort_names(names: Vec<String>) -> (res: Vec<String>)
    ensures
        crate::text::strings_view(res@) == sorted_names(crate::text::strings_view(names@)),
        names_ascending(crate::text::strings_view(res@)),
        res@.len() == names@.len(),
{
    let ghost ns = crate::text::strings_view(names@);
    let mut out: Vec<String> = Vec::new();
    proof { assert(crate::text::strings_view(out@) =~= sorted_names(ns.take(0))); }
    for x in it: names
        invariant
            it.seq() == names@,
            ns == crate::text::strings_view(names@),
            crate::text::strings_view(out@) == sorted_names(ns.take(it.index() as int)),
            names_ascending(crate::text::strings_view(out@)),
            out@.len() == it.index(),
    {
        let ghost i = it.index() as int;
        let ghost s = crate::text::strings_view(out@);
        proof {
            assert(ns.take(i + 1).drop_last() =~= ns.take(i));
            assert(ns.take(i + 1).last() == x@);
        }
        let mut p: usize = 0;
        while p < out.len() && str_lt(out[p].as_str(), x.as_str())
            invariant
                s == crate::text::strings_view(out@),
                names_ascending(s),
                p <= s.len(),
                forall|j: int| 0 <= j < p ==> chars_lt(#[trigger] s[j], x@),
            decreases s.len() - p,
        {
            proof { assert(s[p as int] == out@[p as int]@); }
            p = p + 1;
        }
        proof {
            if p < s.len() {
                assert(s[p as int] == out@[p as int]@);
            }
            lemma_count_lt_prefix(s, x@, p as int);
            lemma_insert_sorted_ascending(s, x@, p as int);
        }
        let ghost xv = x@;
        out.insert(p, x);
        proof {
            assert(crate::text::strings_view(out@) =~= s.insert(p as int, xv));
        }
    }
    proof { assert(ns.take(ns.len() as int) =~= ns); }
    out
}

} // verus!
