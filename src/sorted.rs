//! Sets and maps held as strictly sorted vectors.
use vstd::prelude::*;
use vstd::relations::sorted_by;
use crate::order::{compare, lemma_lex_irreflexive, lemma_lex_total, lemma_lex_transitive, lex_lt};

verus! {

/// `lt` is a strict total order.
pub open spec fn strict_order<A>(lt: spec_fn(A, A) -> bool) -> bool {
    &&& forall|x: A| !#[trigger] lt(x, x)
    &&& forall|x: A, y: A, z: A| #[trigger] lt(x, y) && #[trigger] lt(y, z) ==> lt(x, z)
    &&& forall|x: A, y: A| x != y ==> #[trigger] lt(x, y) || lt(y, x)
}

/// Both sequences hold the same elements.
pub open spec fn same_elements<A>(a: Seq<A>, b: Seq<A>) -> bool {
    forall|x: A| a.contains(x) <==> b.contains(x)
}

/// The character-sequence order, as a relation.
pub open spec fn str_order(path: bool) -> spec_fn(Seq<char>, Seq<char>) -> bool {
    |a: Seq<char>, b: Seq<char>| lex_lt(a, b, path)
}

/// The views of a sequence of strings.
pub open spec fn strs(v: Seq<String>) -> Seq<Seq<char>> {
    v.map_values(|s: String| s@)
}

/// The views of the keys of a sequence of entries.
pub open spec fn keys<V>(v: Seq<(String, V)>) -> Seq<Seq<char>> {
    v.map_values(|e: (String, V)| e.0@)
}

pub proof fn lemma_str_order(path: bool)
    ensures
        strict_order(str_order(path)),
{
    assert forall|x: Seq<char>| !#[trigger] str_order(path)(x, x) by {
        lemma_lex_irreflexive(x, path);
    }
    assert forall|x: Seq<char>, y: Seq<char>, z: Seq<char>|
        #[trigger] str_order(path)(x, y) && #[trigger] str_order(path)(y, z) implies str_order(path)(x, z) by {
        lemma_lex_transitive(x, y, z, path);
    }
    assert forall|x: Seq<char>, y: Seq<char>| x != y implies #[trigger] str_order(path)(x, y) || str_order(path)(y, x) by {
        lemma_lex_total(x, y, path);
    }
}

/// Two sequences sorted by one strict total order and holding the same
/// elements are equal.
pub proof fn lemma_sorted_unique<A>(a: Seq<A>, b: Seq<A>, lt: spec_fn(A, A) -> bool)
    requires
        strict_order(lt),
        sorted_by(a, lt),
        sorted_by(b, lt),
        same_elements(a, b),
    ensures
        a == b,
    decreases a.len(),
{
    if a.len() == 0 || b.len() == 0 {
        if b.len() > 0 {
            assert(b.contains(b[0]));
        }
        if a.len() > 0 {
            assert(a.contains(a[0]));
        }
        assert(a =~= b);
    } else {
        assert(a.contains(a[0]));
        assert(b.contains(b[0]));
        let j = choose|j: int| 0 <= j < b.len() && b[j] == a[0];
        let i = choose|i: int| 0 <= i < a.len() && a[i] == b[0];
        if j > 0 {
            assert(lt(b[0], b[j]));
            if i > 0 {
                assert(lt(a[0], a[i]));
            }
        }
        assert(a[0] == b[0]);
        let a1 = a.drop_first();
        let b1 = b.drop_first();
        assert forall|x: A| a1.contains(x) implies b1.contains(x) by {
            let k = choose|k: int| 0 <= k < a1.len() && a1[k] == x;
            assert(lt(a[0], a[k + 1]));
            assert(a.contains(x));
            let m = choose|m: int| 0 <= m < b.len() && b[m] == x;
            assert(m != 0);
            assert(b1[m - 1] == x);
        }
        assert forall|x: A| b1.contains(x) implies a1.contains(x) by {
            let k = choose|k: int| 0 <= k < b1.len() && b1[k] == x;
            assert(lt(b[0], b[k + 1]));
            assert(b.contains(x));
            let m = choose|m: int| 0 <= m < a.len() && a[m] == x;
            assert(m != 0);
            assert(a1[m - 1] == x);
        }
        lemma_sorted_unique(a1, b1, lt);
        assert(a =~= seq![a[0]] + a1);
        assert(b =~= seq![b[0]] + b1);
    }
}

/// Where `k` stands, or would stand, in the sequence `s` sorted by `lt`.
pub open spec fn placed<A>(s: Seq<A>, k: A, found: bool, pos: int, lt: spec_fn(A, A) -> bool) -> bool {
    &&& 0 <= pos <= s.len()
    &&& forall|i: int| 0 <= i < pos ==> #[trigger] lt(s[i], k)
    &&& forall|i: int| pos < i < s.len() ==> #[trigger] lt(k, s[i])
    &&& found <==> (pos < s.len() && s[pos] == k)
    &&& !found && pos < s.len() ==> lt(k, s[pos])
}

pub proof fn lemma_placed_step<A>(s: Seq<A>, k: A, pos: int, lt: spec_fn(A, A) -> bool)
    requires
        strict_order(lt),
        sorted_by(s, lt),
        0 <= pos < s.len(),
        forall|i: int| 0 <= i < pos ==> #[trigger] lt(s[i], k),
        !lt(s[pos], k),
    ensures
        placed(s, k, s[pos] == k, pos, lt),
{
    assert forall|i: int| pos < i < s.len() implies #[trigger] lt(k, s[i]) by {
        assert(lt(s[pos], s[i]));
    }
}

/// Finds where `k` stands, or would stand, among the sorted strings of `v`.
pub fn find_str(v: &Vec<String>, k: &str, path: bool) -> (r: (bool, usize))
    requires
        sorted_by(strs(v@), str_order(path)),
    ensures
        placed(strs(v@), k@, r.0, r.1 as int, str_order(path)),
{
    proof {
        lemma_str_order(path);
    }
    let mut i: usize = 0;
    while i < v.len()
        invariant
            i <= v.len(),
            sorted_by(strs(v@), str_order(path)),
            strict_order(str_order(path)),
            forall|j: int| 0 <= j < i ==> #[trigger] str_order(path)(strs(v@)[j], k@),
        decreases v.len() - i,
    {
        let c = compare(v[i].as_str(), k, path);
        if c >= 0 {
            proof {
                lemma_placed_step(strs(v@), k@, i as int, str_order(path));
            }
            return (c == 0, i);
        }
        i = i + 1;
    }
    (false, i)
}

/// Finds where the key `k` stands, or would stand, among the sorted keys of `v`.
pub fn find_key<V>(v: &Vec<(String, V)>, k: &str, path: bool) -> (r: (bool, usize))
    requires
        sorted_by(keys(v@), str_order(path)),
    ensures
        placed(keys(v@), k@, r.0, r.1 as int, str_order(path)),
{
    proof {
        lemma_str_order(path);
    }
    let mut i: usize = 0;
    while i < v.len()
        invariant
            i <= v.len(),
            sorted_by(keys(v@), str_order(path)),
            strict_order(str_order(path)),
            forall|j: int| 0 <= j < i ==> #[trigger] str_order(path)(keys(v@)[j], k@),
        decreases v.len() - i,
    {
        let c = compare(v[i].0.as_str(), k, path);
        if c >= 0 {
            proof {
                lemma_placed_step(keys(v@), k@, i as int, str_order(path));
            }
            return (c == 0, i);
        }
        i = i + 1;
    }
    (false, i)
}

/// Where `placed` finds nothing, the element is absent.
pub proof fn lemma_placed_absent<A>(s: Seq<A>, k: A, found: bool, pos: int, lt: spec_fn(A, A) -> bool)
    requires
        strict_order(lt),
        placed(s, k, found, pos, lt),
    ensures
        s.contains(k) <==> found,
{
    if s.contains(k) {
        let i = choose|i: int| 0 <= i < s.len() && s[i] == k;
        if i < pos {
            assert(lt(s[i], k));
        } else if i > pos {
            assert(lt(k, s[i]));
        }
    }
    if found {
        assert(s[pos] == k);
    }
}

/// Inserting at the place that `placed` gives keeps a sequence sorted and adds
/// exactly the new element.
pub proof fn lemma_insert_placed<A>(s: Seq<A>, k: A, pos: int, lt: spec_fn(A, A) -> bool)
    requires
        sorted_by(s, lt),
        placed(s, k, false, pos, lt),
    ensures
        sorted_by(s.insert(pos, k), lt),
        forall|x: A| s.insert(pos, k).contains(x) <==> s.contains(x) || x == k,
{
    let t = s.insert(pos, k);
    assert forall|i: int, j: int| 0 <= i < j < t.len() implies #[trigger] lt(t[i], t[j]) by {
        if j < pos {
        } else if j == pos {
        } else if i < pos {
            assert(lt(s[i], s[j - 1]));
        } else if i == pos {
            if j - 1 == pos {
            }
        } else {
            assert(lt(s[i - 1], s[j - 1]));
        }
    }
    assert forall|x: A| t.contains(x) <==> s.contains(x) || x == k by {
        if t.contains(x) {
            let i = choose|i: int| 0 <= i < t.len() && t[i] == x;
            if i < pos {
                assert(s[i] == x);
            } else if i > pos {
                assert(s[i - 1] == x);
            }
        }
        if s.contains(x) {
            let i = choose|i: int| 0 <= i < s.len() && s[i] == x;
            if i < pos {
                assert(t[i] == x);
            } else {
                assert(t[i + 1] == x);
            }
        }
        if x == k {
            assert(t[pos] == x);
        }
    }
}

/// Adds `k` to the sorted set of strings `v`.
pub fn insert_str(v: &mut Vec<String>, k: String, path: bool)
    requires
        sorted_by(strs(old(v)@), str_order(path)),
    ensures
        sorted_by(strs(final(v)@), str_order(path)),
        forall|x: Seq<char>| strs(final(v)@).contains(x) <==> strs(old(v)@).contains(x) || x == k@,
        final(v)@.len() == old(v)@.len() + if strs(old(v)@).contains(k@) { 0int } else { 1int },
{
    let (found, pos) = find_str(v, k.as_str(), path);
    proof {
        lemma_str_order(path);
        lemma_placed_absent(strs(v@), k@, found, pos as int, str_order(path));
    }
    if found {
        proof {
            assert(strs(v@)[pos as int] == k@);
            assert(strs(v@).contains(k@));
            assert(forall|x: Seq<char>| strs(v@).contains(x) <==> strs(old(v)@).contains(x) || x == k@);
        }
    } else {
        proof {
            lemma_insert_placed(strs(v@), k@, pos as int, str_order(path));
        }
        v.insert(pos, k);
        proof {
            assert(strs(v@) =~= strs(old(v)@).insert(pos as int, k@));
            assert(forall|x: Seq<char>| strs(v@).contains(x) <==> strs(old(v)@).contains(x) || x == k@);
        }
    }
}

/// The keys of a map held as a sequence of entries.
pub open spec fn key_seq<A>(m: Seq<(Seq<char>, A)>) -> Seq<Seq<char>> {
    m.map_values(|e: (Seq<char>, A)| e.0)
}

/// The map holds `x` in the set under key `k`.
pub open spec fn map_has<A>(m: Seq<(Seq<char>, Seq<A>)>, k: Seq<char>, x: A) -> bool {
    exists|i: int| 0 <= i < m.len() && #[trigger] m[i].0 == k && m[i].1.contains(x)
}

/// Keys sorted by `str_order(path)`, each value a set sorted by `lt`.
pub open spec fn map_wf<A>(m: Seq<(Seq<char>, Seq<A>)>, path: bool, lt: spec_fn(A, A) -> bool) -> bool {
    &&& sorted_by(key_seq(m), str_order(path))
    &&& forall|i: int| 0 <= i < m.len() ==> sorted_by(#[trigger] m[i].1, lt)
}

/// Two maps with the same keys, in which each key holds the same elements,
/// are equal.
pub proof fn lemma_map_unique<A>(m: Seq<(Seq<char>, Seq<A>)>, n: Seq<(Seq<char>, Seq<A>)>, path: bool, lt: spec_fn(A, A) -> bool)
    requires
        strict_order(lt),
        map_wf(m, path, lt),
        map_wf(n, path, lt),
        same_elements(key_seq(m), key_seq(n)),
        forall|k: Seq<char>, x: A| map_has(m, k, x) <==> map_has(n, k, x),
    ensures
        m == n,
{
    lemma_str_order(path);
    lemma_sorted_unique(key_seq(m), key_seq(n), str_order(path));
    assert forall|i: int| 0 <= i < m.len() implies #[trigger] m[i] == n[i] by {
        assert(key_seq(m)[i] == key_seq(n)[i]);
        assert forall|x: A| m[i].1.contains(x) <==> n[i].1.contains(x) by {
            if m[i].1.contains(x) {
                assert(map_has(n, m[i].0, x));
                let j = choose|j: int| 0 <= j < n.len() && #[trigger] n[j].0 == m[i].0 && n[j].1.contains(x);
                if j != i {
                    if j < i {
                        assert(str_order(path)(key_seq(n)[j], key_seq(n)[i]));
                    } else {
                        assert(str_order(path)(key_seq(n)[i], key_seq(n)[j]));
                    }
                }
            }
            if n[i].1.contains(x) {
                assert(map_has(m, n[i].0, x));
                let j = choose|j: int| 0 <= j < m.len() && #[trigger] m[j].0 == n[i].0 && m[j].1.contains(x);
                if j != i {
                    if j < i {
                        assert(str_order(path)(key_seq(m)[j], key_seq(m)[i]));
                    } else {
                        assert(str_order(path)(key_seq(m)[i], key_seq(m)[j]));
                    }
                }
            }
        }
        lemma_sorted_unique(m[i].1, n[i].1, lt);
    }
    assert(m =~= n);
}

/// Replacing the value at `pos` keeps the keys and changes only what that key holds.
pub proof fn lemma_map_set_value<A>(m: Seq<(Seq<char>, Seq<A>)>, pos: int, val: Seq<A>, path: bool, lt: spec_fn(A, A) -> bool)
    requires
        map_wf(m, path, lt),
        0 <= pos < m.len(),
        sorted_by(val, lt),
    ensures
        map_wf(m.update(pos, (m[pos].0, val)), path, lt),
        key_seq(m.update(pos, (m[pos].0, val))) == key_seq(m),
        forall|k: Seq<char>, x: A| map_has(m.update(pos, (m[pos].0, val)), k, x) <==>
            if k == m[pos].0 { val.contains(x) } else { map_has(m, k, x) },
{
    lemma_str_order(path);
    let n = m.update(pos, (m[pos].0, val));
    assert(key_seq(n) =~= key_seq(m));
    assert forall|k: Seq<char>, x: A| map_has(n, k, x) <==>
        if k == m[pos].0 { val.contains(x) } else { map_has(m, k, x) } by {
        if map_has(n, k, x) {
            let j = choose|j: int| 0 <= j < n.len() && #[trigger] n[j].0 == k && n[j].1.contains(x);
            if j != pos && k == m[pos].0 {
                if j < pos {
                    assert(str_order(path)(key_seq(m)[j], key_seq(m)[pos]));
                } else {
                    assert(str_order(path)(key_seq(m)[pos], key_seq(m)[j]));
                }
            }
        }
        if k == m[pos].0 && val.contains(x) {
            assert(n[pos].0 == k);
        }
        if k != m[pos].0 && map_has(m, k, x) {
            let j = choose|j: int| 0 <= j < m.len() && #[trigger] m[j].0 == k && m[j].1.contains(x);
            assert(n[j].0 == k);
        }
    }
}

/// Inserting a new key at its place keeps the map well formed and adds exactly
/// the new key and what it holds.
pub proof fn lemma_map_insert<A>(m: Seq<(Seq<char>, Seq<A>)>, pos: int, k: Seq<char>, val: Seq<A>, path: bool, lt: spec_fn(A, A) -> bool)
    requires
        map_wf(m, path, lt),
        placed(key_seq(m), k, false, pos, str_order(path)),
        sorted_by(val, lt),
    ensures
        map_wf(m.insert(pos, (k, val)), path, lt),
        forall|k2: Seq<char>| key_seq(m.insert(pos, (k, val))).contains(k2) <==> key_seq(m).contains(k2) || k2 == k,
        forall|k2: Seq<char>, x: A| map_has(m.insert(pos, (k, val)), k2, x) <==>
            map_has(m, k2, x) || (k2 == k && val.contains(x)),
{
    let n = m.insert(pos, (k, val));
    assert(key_seq(n) =~= key_seq(m).insert(pos, k));
    lemma_insert_placed(key_seq(m), k, pos, str_order(path));
    assert forall|i: int| 0 <= i < n.len() implies sorted_by(#[trigger] n[i].1, lt) by {
        if i > pos {
            assert(n[i] == m[i - 1]);
        }
    }
    assert forall|k2: Seq<char>, x: A| map_has(n, k2, x) <==> map_has(m, k2, x) || (k2 == k && val.contains(x)) by {
        if map_has(n, k2, x) {
            let j = choose|j: int| 0 <= j < n.len() && #[trigger] n[j].0 == k2 && n[j].1.contains(x);
            if j < pos {
                assert(m[j] == n[j]);
            } else if j > pos {
                assert(m[j - 1] == n[j]);
            }
        }
        if map_has(m, k2, x) {
            let j = choose|j: int| 0 <= j < m.len() && #[trigger] m[j].0 == k2 && m[j].1.contains(x);
            if j < pos {
                assert(m[j] == n[j]);
            } else {
                assert(m[j] == n[j + 1]);
            }
        }
        if k2 == k && val.contains(x) {
            assert(n[pos].0 == k2);
        }
    }
}

/// What a prefix holds grows by one element at a time.
pub proof fn lemma_prefix_contains<A>(s: Seq<A>, i: int)
    requires
        0 <= i < s.len(),
    ensures
        forall|x: A| s.subrange(0, i + 1).contains(x) <==> s.subrange(0, i).contains(x) || x == s[i],
{
    let p = s.subrange(0, i + 1);
    let q = s.subrange(0, i);
    assert forall|x: A| p.contains(x) <==> q.contains(x) || x == s[i] by {
        if p.contains(x) {
            let j = choose|j: int| 0 <= j < p.len() && #[trigger] p[j] == x;
            if j < i {
                assert(q[j] == x);
            }
        }
        if q.contains(x) {
            let j = choose|j: int| 0 <= j < q.len() && #[trigger] q[j] == x;
            assert(p[j] == x);
        }
        if x == s[i] {
            assert(p[i] == x);
        }
    }
}

/// What a prefix of a map holds grows by one entry at a time.
pub proof fn lemma_prefix_map_has<A>(m: Seq<(Seq<char>, Seq<A>)>, i: int)
    requires
        0 <= i < m.len(),
    ensures
        forall|k: Seq<char>, x: A| map_has(m.subrange(0, i + 1), k, x) <==>
            map_has(m.subrange(0, i), k, x) || (k == m[i].0 && m[i].1.contains(x)),
        key_seq(m.subrange(0, i + 1)) == key_seq(m.subrange(0, i)).push(m[i].0),
{
    let p = m.subrange(0, i + 1);
    let q = m.subrange(0, i);
    assert(key_seq(p) =~= key_seq(q).push(m[i].0));
    assert forall|k: Seq<char>, x: A| map_has(p, k, x) <==> map_has(q, k, x) || (k == m[i].0 && m[i].1.contains(x)) by {
        if map_has(p, k, x) {
            let j = choose|j: int| 0 <= j < p.len() && #[trigger] p[j].0 == k && p[j].1.contains(x);
            if j < i {
                assert(q[j] == p[j]);
            }
        }
        if map_has(q, k, x) {
            let j = choose|j: int| 0 <= j < q.len() && #[trigger] q[j].0 == k && q[j].1.contains(x);
            assert(q[j] == p[j]);
        }
        if k == m[i].0 && m[i].1.contains(x) {
            assert(p[i].0 == k);
        }
    }
}

} // verus!
