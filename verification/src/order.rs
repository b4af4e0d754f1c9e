//! The order of `String`s (by character, which is the order of their UTF-8
//! bytes) and a stable sort of keyed entries by that order.

use vstd::prelude::*;
use crate::text::chars_of;

verus! {

broadcast use vstd::seq_lib::group_seq_properties;

/// `a <= b` in the order of `String`: lexicographic by character code.
pub open spec fn lex_le(a: Seq<char>, b: Seq<char>) -> bool
    decreases a.len(),
{
    if a.len() == 0 {
        true
    } else if b.len() == 0 {
        false
    } else if a[0] != b[0] {
        (a[0] as u32) < (b[0] as u32)
    } else {
        lex_le(a.skip(1), b.skip(1))
    }
}

/// Any two strings are ordered one way or the other.
pub proof fn lemma_lex_total(a: Seq<char>, b: Seq<char>)
    ensures
        lex_le(a, b) || lex_le(b, a),
    decreases a.len(),
{
    if a.len() > 0 && b.len() > 0 {
        if a[0] == b[0] {
            lemma_lex_total(a.skip(1), b.skip(1));
        } else {
            vstd::utf8::char_u32_cast(a[0], a[0] as u32);
            vstd::utf8::char_u32_cast(b[0], b[0] as u32);
        }
    }
}

/// The order of strings is transitive.
pub proof fn lemma_lex_trans(a: Seq<char>, b: Seq<char>, c: Seq<char>)
    requires
        lex_le(a, b),
        lex_le(b, c),
    ensures
        lex_le(a, c),
    decreases a.len(),
{
    if a.len() > 0 && b.len() > 0 && c.len() > 0 && a[0] == b[0] && b[0] == c[0] {
        lemma_lex_trans(a.skip(1), b.skip(1), c.skip(1));
    }
}

/// Every string is ordered before itself.
pub proof fn lemma_lex_refl(a: Seq<char>)
    ensures
        lex_le(a, a),
    decreases a.len(),
{
    if a.len() > 0 {
        lemma_lex_refl(a.skip(1));
    }
}

/// Strings ordered both ways are equal.
pub proof fn lemma_lex_antisym(a: Seq<char>, b: Seq<char>)
    requires
        lex_le(a, b),
        lex_le(b, a),
    ensures
        a == b,
    decreases a.len(),
{
    if a.len() > 0 && b.len() > 0 {
        if a[0] == b[0] {
            lemma_lex_antisym(a.skip(1), b.skip(1));
            assert(a =~= seq![a[0]] + a.skip(1));
            assert(b =~= seq![b[0]] + b.skip(1));
        } else {
            vstd::utf8::char_u32_cast(a[0], a[0] as u32);
            vstd::utf8::char_u32_cast(b[0], b[0] as u32);
        }
    } else {
        assert(a.len() == 0 && b.len() == 0);
        assert(a =~= b);
    }
}

/// Compare two strings in the order of `String`.
pub fn lex_le_exec(a: &str, b: &str) -> (r: bool)
    ensures
        r == lex_le(a@, b@),
{
    let x = chars_of(a);
    let y = chars_of(b);
    let mut i: usize = 0;
    while i < x.len() && i < y.len()
        invariant
            i <= x.len(),
            i <= y.len(),
            x@ == a@,
            y@ == b@,
            lex_le(x@, y@) == lex_le(x@.skip(i as int), y@.skip(i as int)),
        decreases x.len() - i,
    {
        if x[i] != y[i] {
            assert(x@.skip(i as int)[0] == x@[i as int]);
            assert(y@.skip(i as int)[0] == y@[i as int]);
            return (x[i] as u32) < (y[i] as u32);
        }
        assert(x@.skip(i as int).skip(1) =~= x@.skip(i + 1));
        assert(y@.skip(i as int).skip(1) =~= y@.skip(i + 1));
        i += 1;
    }
    i == x.len()
}

// ── stable sort of keyed entries ─────────────────────────────────────────────

/// Entries are sorted when their keys never decrease.
pub open spec fn sorted_by_key<T>(s: Seq<(Seq<char>, T)>) -> bool {
    forall|i: int, j: int| 0 <= i < j < s.len() ==> lex_le(#[trigger] s[i].0, #[trigger] s[j].0)
}

/// Insert `x` into `s` after every entry whose key is not above its key.
pub open spec fn insert_by_key<T>(s: Seq<(Seq<char>, T)>, x: (Seq<char>, T)) -> Seq<(Seq<char>, T)>
    decreases s.len(),
{
    if s.len() == 0 {
        seq![x]
    } else if lex_le(s.last().0, x.0) {
        s.push(x)
    } else {
        insert_by_key(s.drop_last(), x).push(s.last())
    }
}

/// The stable sort of `s` by key: entries with equal keys keep their order.
pub open spec fn sort_by_key<T>(s: Seq<(Seq<char>, T)>) -> Seq<(Seq<char>, T)>
    decreases s.len(),
{
    if s.len() == 0 {
        Seq::empty()
    } else {
        insert_by_key(sort_by_key(s.drop_last()), s.last())
    }
}

proof fn lemma_insert_by_key<T>(s: Seq<(Seq<char>, T)>, x: (Seq<char>, T))
    requires
        sorted_by_key(s),
    ensures
        sorted_by_key(insert_by_key(s, x)),
        insert_by_key(s, x).to_multiset() =~= s.to_multiset().insert(x),
    decreases s.len(),
{
    if s.len() == 0 {
        assert(seq![x] =~= Seq::<(Seq<char>, T)>::empty().push(x));
        assert(s =~= Seq::<(Seq<char>, T)>::empty());
    } else if lex_le(s.last().0, x.0) {
        assert forall|i: int, j: int| 0 <= i < j < s.len() + 1 implies lex_le(
            #[trigger] s.push(x)[i].0,
            #[trigger] s.push(x)[j].0,
        ) by {
            if j == s.len() {
                if i < s.len() - 1 {
                    assert(lex_le(s[i].0, s[s.len() - 1].0));
                    lemma_lex_trans(s[i].0, s.last().0, x.0);
                }
            } else {
                assert(lex_le(s[i].0, s[j].0));
            }
        }
    } else {
        let d = s.drop_last();
        let l = s.last();
        assert(sorted_by_key(d)) by {
            assert forall|i: int, j: int| 0 <= i < j < d.len() implies lex_le(#[trigger] d[i].0, #[trigger] d[j].0) by {
                assert(lex_le(s[i].0, s[j].0));
            }
        }
        lemma_insert_by_key(d, x);
        let r = insert_by_key(d, x);
        assert(s =~= d.push(l));
        lemma_lex_total(l.0, x.0);
        assert forall|i: int| 0 <= i < r.len() implies lex_le(#[trigger] r[i].0, l.0) by {
            assert(r.to_multiset().count(r[i]) > 0);
            assert(r.contains(r[i]));
            assert(d.to_multiset().insert(x).count(r[i]) > 0);
            if r[i] != x {
                assert(d.to_multiset().count(r[i]) > 0);
                assert(d.contains(r[i]));
                let k = choose|k: int| 0 <= k < d.len() && d[k] == r[i];
                assert(lex_le(s[k].0, s[s.len() - 1].0));
            }
        }
        assert forall|i: int, j: int| 0 <= i < j < r.len() + 1 implies lex_le(
            #[trigger] r.push(l)[i].0,
            #[trigger] r.push(l)[j].0,
        ) by {
            if j == r.len() {
                assert(lex_le(r[i].0, l.0));
            } else {
                assert(lex_le(r[i].0, r[j].0));
            }
        }
        assert(r.push(l).to_multiset() =~= r.to_multiset().insert(l));
        assert(s.to_multiset() =~= d.to_multiset().insert(l));
    }
}

/// A stable sort by key gives entries in key order, and exactly the entries
/// it was given, each as often.
pub proof fn lemma_sort_by_key<T>(s: Seq<(Seq<char>, T)>)
    ensures
        sorted_by_key(sort_by_key(s)),
        sort_by_key(s).to_multiset() =~= s.to_multiset(),
    decreases s.len(),
{
    if s.len() > 0 {
        lemma_sort_by_key(s.drop_last());
        lemma_insert_by_key(sort_by_key(s.drop_last()), s.last());
        assert(s =~= s.drop_last().push(s.last()));
    }
}

/// The entries with their keys taken as character sequences.
pub open spec fn keyed_view<T>(v: Seq<(String, T)>) -> Seq<(Seq<char>, T)> {
    Seq::new(v.len(), |i: int| (v[i].0@, v[i].1))
}

proof fn lemma_insert_step<T>(s: Seq<(Seq<char>, T)>, j: int, xv: (Seq<char>, T))
    requires
        0 < j <= s.len(),
        !lex_le(s[j - 1].0, xv.0),
        insert_by_key(s, xv) == insert_by_key(s.take(j), xv) + s.skip(j),
    ensures
        insert_by_key(s, xv) == insert_by_key(s.take(j - 1), xv) + s.skip(j - 1),
{
    let t = s.take(j);
    assert(t.last() == s[j - 1]);
    assert(t.drop_last() =~= s.take(j - 1));
    assert(insert_by_key(t, xv) == insert_by_key(s.take(j - 1), xv).push(s[j - 1]));
    assert(insert_by_key(s.take(j - 1), xv).push(s[j - 1]) + s.skip(j)
        =~= insert_by_key(s.take(j - 1), xv) + s.skip(j - 1));
}

proof fn lemma_insert_at<T>(s: Seq<(Seq<char>, T)>, j: int, xv: (Seq<char>, T))
    requires
        0 <= j <= s.len(),
        j > 0 ==> lex_le(s[j - 1].0, xv.0),
        insert_by_key(s, xv) == insert_by_key(s.take(j), xv) + s.skip(j),
    ensures
        insert_by_key(s, xv) =~= s.insert(j, xv),
{
    let t = s.take(j);
    if j == 0 {
        assert(t =~= Seq::<(Seq<char>, T)>::empty());
    } else {
        assert(t.last() == s[j - 1]);
    }
    assert(t.push(xv) + s.skip(j) =~= s.insert(j, xv));
}

fn insert_keyed<T>(out: &mut Vec<(String, T)>, x: (String, T))
    ensures
        keyed_view(final(out)@) == insert_by_key(keyed_view(old(out)@), (x.0@, x.1)),
{
    let ghost s = keyed_view(out@);
    let ghost xv = (x.0@, x.1);
    let mut j = out.len();
    while j > 0
        invariant
            j <= out.len(),
            keyed_view(out@) == s,
            xv == (x.0@, x.1),
            insert_by_key(s, xv) == insert_by_key(s.take(j as int), xv) + s.skip(j as int),
        ensures
            j <= out.len(),
            keyed_view(out@) == s,
            insert_by_key(s, xv) == insert_by_key(s.take(j as int), xv) + s.skip(j as int),
            j > 0 ==> lex_le(s[j - 1].0, xv.0),
        decreases j,
    {
        if lex_le_exec(out[j - 1].0.as_str(), x.0.as_str()) {
            assert(s[j - 1] == (out@[j - 1].0@, out@[j - 1].1));
            break;
        }
        proof {
            assert(s[j - 1] == (out@[j - 1].0@, out@[j - 1].1));
            lemma_insert_step(s, j as int, xv);
        }
        j -= 1;
    }
    proof {
        lemma_insert_at(s, j as int, xv);
    }
    let ghost before = out@;
    out.insert(j, x);
    proof {
        assert(keyed_view(out@) =~= keyed_view(before).insert(j as int, xv)) by {
            assert forall|k: int| 0 <= k < out@.len() implies #[trigger] keyed_view(out@)[k]
                == keyed_view(before).insert(j as int, xv)[k] by {
                if k < j {
                    assert(out@[k] == before[k]);
                } else if k > j {
                    assert(out@[k] == before[k - 1]);
                }
            }
        }
    }
}

/// Sort entries by their `String` key, keeping entries with equal keys in
/// the order they came in.
pub fn sort_keyed<T>(items: Vec<(String, T)>) -> (r: Vec<(String, T)>)
    ensures
        keyed_view(r@) == sort_by_key(keyed_view(items@)),
{
    let ghost all = keyed_view(items@);
    let mut rest = items;
    let mut out: Vec<(String, T)> = Vec::new();
    let ghost mut done: int = 0;
    while rest.len() > 0
        invariant
            0 <= done <= all.len(),
            keyed_view(rest@) == all.skip(done),
            keyed_view(out@) == sort_by_key(all.take(done)),
        decreases rest.len(),
    {
        assert(all.skip(done).len() == rest@.len());
        let x = rest.remove(0);
        proof {
            assert(all.skip(done)[0] == (x.0@, x.1));
            assert(all.take(done + 1).drop_last() =~= all.take(done));
            assert(all.take(done + 1).last() == all[done]);
            assert(keyed_view(rest@) =~= all.skip(done + 1));
        }
        insert_keyed(&mut out, x);
        proof {
            done = done + 1;
        }
    }
    proof {
        assert(all.take(done) =~= all);
    }
    out
}

// ── maps kept as entries sorted by key ──────────────────────────────────────

/// Keys strictly increase: the entries are sorted and no key occurs twice.
pub open spec fn strictly_sorted<T>(s: Seq<(Seq<char>, T)>) -> bool {
    forall|i: int, j: int|
        0 <= i < j < s.len() ==> lex_le(#[trigger] s[i].0, #[trigger] s[j].0) && s[i].0 != s[j].0
}

/// The map that entries with distinct keys stand for.
pub open spec fn entries_map<T>(s: Seq<(Seq<char>, T)>) -> Map<Seq<char>, T> {
    Map::new(
        |k: Seq<char>| exists|i: int| 0 <= i < s.len() && s[i].0 == k,
        |k: Seq<char>| s[choose|i: int| 0 <= i < s.len() && s[i].0 == k].1,
    )
}

/// The keys of entries, in order.
pub open spec fn entry_keys<T>(s: Seq<(Seq<char>, T)>) -> Seq<Seq<char>> {
    Seq::new(s.len(), |i: int| s[i].0)
}

/// Each entry of strictly sorted entries is in their map, with its value.
pub proof fn lemma_entries_map_at<T>(s: Seq<(Seq<char>, T)>, i: int)
    requires
        strictly_sorted(s),
        0 <= i < s.len(),
    ensures
        entries_map(s).contains_key(s[i].0),
        entries_map(s)[s[i].0] == s[i].1,
{
    let k = s[i].0;
    assert(0 <= i < s.len() && s[i].0 == k);
    let c = choose|c: int| 0 <= c < s.len() && s[c].0 == k;
    if c < i {
        assert(s[c].0 != s[i].0);
    } else if i < c {
        assert(s[i].0 != s[c].0);
    }
}

/// The keys of strictly sorted entries are the keys of their map.
pub proof fn lemma_entry_keys<T>(s: Seq<(Seq<char>, T)>)
    ensures
        entry_keys(s).to_set() =~= entries_map(s).dom(),
{
    assert forall|k: Seq<char>| entry_keys(s).to_set().contains(k) <==> entries_map(s).dom().contains(k) by {
        if entries_map(s).dom().contains(k) {
            let i = choose|i: int| 0 <= i < s.len() && s[i].0 == k;
            assert(entry_keys(s)[i] == k);
        }
        if entry_keys(s).to_set().contains(k) {
            let i = choose|i: int| 0 <= i < entry_keys(s).len() && entry_keys(s)[i] == k;
            assert(s[i].0 == k);
        }
    }
}

/// Set the value of `key` in entries kept strictly sorted by key, adding the
/// entry when the key is new.
pub fn upsert_sorted<T>(v: &mut Vec<(String, T)>, key: String, value: T)
    requires
        strictly_sorted(keyed_view(old(v)@)),
    ensures
        strictly_sorted(keyed_view(final(v)@)),
        entries_map(keyed_view(final(v)@)) == entries_map(keyed_view(old(v)@)).insert(key@, value),
{
    let ghost s = keyed_view(v@);
    let ghost k = key@;
    let mut j: usize = 0;
    while j < v.len() && !lex_le_exec(key.as_str(), v[j].0.as_str())
        invariant
            j <= v.len(),
            s == keyed_view(v@),
            k == key@,
            forall|i: int| 0 <= i < j ==> lex_le(#[trigger] s[i].0, k) && s[i].0 != k,
        decreases v.len() - j,
    {
        proof {
            assert(s[j as int] == (v@[j as int].0@, v@[j as int].1));
            lemma_lex_total(k, s[j as int].0);
            lemma_lex_refl(k);
        }
        j += 1;
    }
    let ghost vv = (k, value);
    if j < v.len() && v[j].0 == key {
        proof {
            assert(s[j as int] == (v@[j as int].0@, v@[j as int].1));
        }
        let ghost before = v@;
        v.set(j, (key, value));
        proof {
            lemma_update_entry(s, j as int, vv);
            assert(keyed_view(v@) =~= s.update(j as int, vv)) by {
                assert forall|m: int| 0 <= m < v@.len() implies #[trigger] keyed_view(v@)[m] == s.update(j as int, vv)[m] by {
                    if m != j {
                        assert(v@[m] == before[m]);
                    }
                }
            }
        }
    } else {
        proof {
            if j < v.len() {
                assert(s[j as int] == (v@[j as int].0@, v@[j as int].1));
            }
            lemma_insert_entry(s, j as int, vv);
        }
        let ghost before = v@;
        v.insert(j, (key, value));
        proof {
            assert(keyed_view(v@) =~= s.insert(j as int, vv)) by {
                assert forall|m: int| 0 <= m < v@.len() implies #[trigger] keyed_view(v@)[m] == s.insert(j as int, vv)[m] by {
                    if m < j {
                        assert(v@[m] == before[m]);
                    } else if m > j {
                        assert(v@[m] == before[m - 1]);
                    }
                }
            }
        }
    }
}

proof fn lemma_update_entry<T>(s: Seq<(Seq<char>, T)>, j: int, e: (Seq<char>, T))
    requires
        strictly_sorted(s),
        0 <= j < s.len(),
        s[j].0 == e.0,
    ensures
        strictly_sorted(s.update(j, e)),
        entries_map(s.update(j, e)) =~= entries_map(s).insert(e.0, e.1),
{
    let t = s.update(j, e);
    assert(strictly_sorted(t)) by {
        assert forall|a: int, b: int| 0 <= a < b < t.len() implies lex_le(#[trigger] t[a].0, #[trigger] t[b].0)
            && t[a].0 != t[b].0 by {
            assert(t[a].0 == s[a].0 && t[b].0 == s[b].0);
        }
    }
    assert forall|k: Seq<char>| #[trigger] entries_map(t).contains_key(k) <==> entries_map(s).insert(e.0, e.1).contains_key(k) by {
        if entries_map(s).contains_key(k) {
            let i = choose|i: int| 0 <= i < s.len() && s[i].0 == k;
            assert(t[i].0 == k);
        }
        if entries_map(t).contains_key(k) {
            let i = choose|i: int| 0 <= i < t.len() && t[i].0 == k;
            assert(s[i].0 == k);
        }
    }
    assert forall|k: Seq<char>| #[trigger] entries_map(t).contains_key(k) implies entries_map(t)[k]
        == entries_map(s).insert(e.0, e.1)[k] by {
        let i = choose|i: int| 0 <= i < t.len() && t[i].0 == k;
        lemma_entries_map_at(t, i);
        if i != j {
            lemma_entries_map_at(s, i);
        }
    }
}

proof fn lemma_insert_entry<T>(s: Seq<(Seq<char>, T)>, j: int, e: (Seq<char>, T))
    requires
        strictly_sorted(s),
        0 <= j <= s.len(),
        forall|i: int| 0 <= i < j ==> lex_le(#[trigger] s[i].0, e.0) && s[i].0 != e.0,
        j < s.len() ==> lex_le(e.0, s[j].0) && s[j].0 != e.0,
    ensures
        strictly_sorted(s.insert(j, e)),
        entries_map(s.insert(j, e)) =~= entries_map(s).insert(e.0, e.1),
{
    let t = s.insert(j, e);
    assert forall|i: int| j <= i < s.len() implies lex_le(e.0, #[trigger] s[i].0) && s[i].0 != e.0 by {
        if i > j {
            assert(lex_le(s[j].0, s[i].0) && s[j].0 != s[i].0);
            lemma_lex_trans(e.0, s[j].0, s[i].0);
            if s[i].0 == e.0 {
                lemma_lex_antisym(s[j].0, e.0);
            }
        }
    }
    assert(strictly_sorted(t)) by {
        assert forall|a: int, b: int| 0 <= a < b < t.len() implies lex_le(#[trigger] t[a].0, #[trigger] t[b].0)
            && t[a].0 != t[b].0 by {
            if a < j && b < j {
                assert(t[a] == s[a] && t[b] == s[b]);
            } else if a < j && b == j {
                assert(t[a] == s[a]);
            } else if a < j {
                assert(t[a] == s[a] && t[b] == s[b - 1]);
                assert(lex_le(s[a].0, s[b - 1].0) && s[a].0 != s[b - 1].0);
            } else if a == j {
                assert(t[b] == s[b - 1]);
            } else {
                assert(t[a] == s[a - 1] && t[b] == s[b - 1]);
            }
        }
    }
    assert forall|k: Seq<char>| #[trigger] entries_map(t).contains_key(k) <==> entries_map(s).insert(e.0, e.1).contains_key(k) by {
        if entries_map(s).contains_key(k) {
            let i = choose|i: int| 0 <= i < s.len() && s[i].0 == k;
            if i < j {
                assert(t[i].0 == k);
            } else {
                assert(t[i + 1].0 == k);
            }
        }
        if k == e.0 {
            assert(t[j].0 == k);
        }
        if entries_map(t).contains_key(k) && k != e.0 {
            let i = choose|i: int| 0 <= i < t.len() && t[i].0 == k;
            if i < j {
                assert(s[i].0 == k);
            } else {
                assert(i != j);
                assert(s[i - 1].0 == k);
            }
        }
    }
    assert forall|k: Seq<char>| #[trigger] entries_map(t).contains_key(k) implies entries_map(t)[k]
        == entries_map(s).insert(e.0, e.1)[k] by {
        let i = choose|i: int| 0 <= i < t.len() && t[i].0 == k;
        lemma_entries_map_at(t, i);
        if i < j {
            lemma_entries_map_at(s, i);
        } else if i > j {
            lemma_entries_map_at(s, i - 1);
        }
    }
}

/// The value of `key` in entries kept strictly sorted by key.
pub fn lookup_sorted<T: Copy>(v: &Vec<(String, T)>, key: &str) -> (r: Option<T>)
    requires
        strictly_sorted(keyed_view(v@)),
    ensures
        match r {
            Some(x) => entries_map(keyed_view(v@)).contains_key(key@) && entries_map(keyed_view(v@))[key@] == x,
            None => !entries_map(keyed_view(v@)).contains_key(key@),
        },
{
    let ghost s = keyed_view(v@);
    let kc = chars_of(key);
    let mut i: usize = 0;
    while i < v.len()
        invariant
            i <= v.len(),
            s == keyed_view(v@),
            strictly_sorted(s),
            kc@ == key@,
            forall|m: int| 0 <= m < i ==> (#[trigger] s[m]).0 != key@,
        decreases v.len() - i,
    {
        assert(s[i as int] == (v@[i as int].0@, v@[i as int].1));
        if crate::validate::same_chars(&chars_of(v[i].0.as_str()), &kc) {
            proof {
                lemma_entries_map_at(s, i as int);
            }
            return Some(v[i].1);
        }
        i += 1;
    }
    None
}

} // verus!
