//! The orders in which the metadata's sets and maps are kept.
//!
//! Strings are compared character by character, by code point, which is the
//! byte order of their UTF-8 encoding. Relative paths are compared by their
//! components, which for paths without empty or `.` components is the same as
//! comparing them as strings in which the separator `/` sorts before every
//! other character.
use vstd::prelude::*;

verus! {

/// The weight of a character in a comparison; with `path`, `/` weighs least.
pub open spec fn rank(c: char, path: bool) -> int {
    if path && c == '/' {
        -1
    } else {
        c as u32 as int
    }
}

/// Lexicographic strict order on character sequences.
pub open spec fn lex_lt(a: Seq<char>, b: Seq<char>, path: bool) -> bool
    decreases a.len(),
{
    if a.len() == 0 {
        b.len() > 0
    } else if b.len() == 0 {
        false
    } else if a[0] != b[0] {
        rank(a[0], path) < rank(b[0], path)
    } else {
        lex_lt(a.drop_first(), b.drop_first(), path)
    }
}

pub proof fn lemma_rank_injective(c: char, d: char, path: bool)
    ensures
        rank(c, path) == rank(d, path) ==> c == d,
{
}

pub proof fn lemma_lex_irreflexive(a: Seq<char>, path: bool)
    ensures
        !lex_lt(a, a, path),
    decreases a.len(),
{
    if a.len() > 0 {
        lemma_lex_irreflexive(a.drop_first(), path);
    }
}

pub proof fn lemma_lex_transitive(a: Seq<char>, b: Seq<char>, c: Seq<char>, path: bool)
    requires
        lex_lt(a, b, path),
        lex_lt(b, c, path),
    ensures
        lex_lt(a, c, path),
    decreases a.len(),
{
    if a.len() > 0 && b.len() > 0 && c.len() > 0 {
        lemma_rank_injective(a[0], b[0], path);
        lemma_rank_injective(b[0], c[0], path);
        lemma_rank_injective(a[0], c[0], path);
        if a[0] == b[0] && b[0] == c[0] {
            lemma_lex_transitive(a.drop_first(), b.drop_first(), c.drop_first(), path);
        }
    }
}

pub proof fn lemma_lex_total(a: Seq<char>, b: Seq<char>, path: bool)
    ensures
        a != b ==> lex_lt(a, b, path) || lex_lt(b, a, path),
    decreases a.len(),
{
    if a.len() > 0 && b.len() > 0 {
        lemma_rank_injective(a[0], b[0], path);
        if a[0] == b[0] {
            lemma_lex_total(a.drop_first(), b.drop_first(), path);
            if a.drop_first() == b.drop_first() {
                assert(a =~= seq![a[0]] + a.drop_first());
                assert(b =~= seq![b[0]] + b.drop_first());
            }
        }
    } else if a.len() == 0 && b.len() == 0 {
        assert(a =~= b);
    }
}

/// Skipping a common prefix does not change the comparison.
proof fn lemma_lex_skip(a: Seq<char>, b: Seq<char>, i: int, path: bool)
    requires
        0 <= i <= a.len(),
        i <= b.len(),
        a.subrange(0, i) == b.subrange(0, i),
    ensures
        lex_lt(a, b, path) == lex_lt(a.skip(i), b.skip(i), path),
    decreases i,
{
    if i == 0 {
        assert(a.skip(0) =~= a);
        assert(b.skip(0) =~= b);
    } else {
        assert(a[0] == a.subrange(0, i)[0]);
        assert(b[0] == b.subrange(0, i)[0]);
        assert(a.drop_first().subrange(0, i - 1) =~= a.subrange(0, i).drop_first());
        assert(b.drop_first().subrange(0, i - 1) =~= b.subrange(0, i).drop_first());
        lemma_lex_skip(a.drop_first(), b.drop_first(), i - 1, path);
        assert(a.drop_first().skip(i - 1) =~= a.skip(i));
        assert(b.drop_first().skip(i - 1) =~= b.skip(i));
    }
}

fn char_rank(c: char, path: bool) -> (r: i64)
    ensures
        r == rank(c, path),
{
    if path && c == '/' {
        -1
    } else {
        c as u32 as i64
    }
}

/// Three-way comparison: negative, zero or positive as `a` is below, equal to
/// or above `b`.
pub fn compare(a: &str, b: &str, path: bool) -> (r: i8)
    ensures
        r < 0 <==> lex_lt(a@, b@, path),
        r == 0 <==> a@ == b@,
        r > 0 <==> lex_lt(b@, a@, path),
{
    let la = a.unicode_len();
    let lb = b.unicode_len();
    let mut i: usize = 0;
    while i < la && i < lb
        invariant
            i <= la,
            i <= lb,
            la == a@.len(),
            lb == b@.len(),
            a@.subrange(0, i as int) == b@.subrange(0, i as int),
        decreases la - i,
    {
        let ca = a.get_char(i);
        let cb = b.get_char(i);
        if ca != cb {
            let ra = char_rank(ca, path);
            let rb = char_rank(cb, path);
            proof {
                lemma_lex_skip(a@, b@, i as int, path);
                lemma_lex_skip(b@, a@, i as int, path);
                assert(a@.skip(i as int)[0] == ca);
                assert(b@.skip(i as int)[0] == cb);
                lemma_rank_injective(ca, cb, path);
            }
            if ra < rb {
                return -1;
            } else {
                return 1;
            }
        }
        proof {
            assert(a@.subrange(0, i + 1) =~= a@.subrange(0, i as int).push(ca));
            assert(b@.subrange(0, i + 1) =~= b@.subrange(0, i as int).push(cb));
        }
        i = i + 1;
    }
    proof {
        lemma_lex_skip(a@, b@, i as int, path);
        lemma_lex_skip(b@, a@, i as int, path);
        lemma_lex_irreflexive(a@, path);
    }
    if la == lb {
        proof {
            assert(a@ =~= a@.subrange(0, i as int));
            assert(b@ =~= b@.subrange(0, i as int));
        }
        0
    } else if la < lb {
        -1
    } else {
        1
    }
}

} // verus!
