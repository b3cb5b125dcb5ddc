//! Descriptors of the non-test executables that a build produced.
use vstd::prelude::*;
use vstd::relations::sorted_by;
use crate::order::{compare, lemma_lex_irreflexive, lemma_lex_total, lemma_lex_transitive, lex_lt};
use crate::sorted::{lemma_insert_placed, lemma_placed_absent, lemma_placed_step, placed, strict_order};

verus! {

/// A non-test executable built by a package.
#[derive(Clone, Debug, PartialEq, Eq)]
pub struct RustNonTestBinarySummary {
    /// The name of the binary.
    pub name: String,
    /// The kind of binary, such as `bin-exe` or `dylib`.
    pub kind: String,
    /// The path to the binary, relative to the target directory.
    pub path: String,
}

/// A descriptor as name, kind and path.
pub type BinView = (Seq<char>, Seq<char>, Seq<char>);

impl RustNonTestBinarySummary {
    pub open spec fn view(&self) -> BinView {
        (self.name@, self.kind@, self.path@)
    }

    /// Creates a descriptor.
    pub fn new(name: String, kind: String, path: String) -> (r: Self)
        ensures
            r.view() == (name@, kind@, path@),
    {
        RustNonTestBinarySummary { name, kind, path }
    }

    /// A copy of this descriptor.
    pub fn duplicate(&self) -> (r: Self)
        ensures
            r.view() == self.view(),
    {
        RustNonTestBinarySummary { name: self.name.clone(), kind: self.kind.clone(), path: self.path.clone() }
    }
}

/// Descriptors are ordered by name, then kind, then path.
pub open spec fn bin_lt(a: BinView, b: BinView) -> bool {
    ||| lex_lt(a.0, b.0, false)
    ||| a.0 == b.0 && lex_lt(a.1, b.1, false)
    ||| a.0 == b.0 && a.1 == b.1 && lex_lt(a.2, b.2, true)
}

pub open spec fn bin_order() -> spec_fn(BinView, BinView) -> bool {
    |a: BinView, b: BinView| bin_lt(a, b)
}

/// The views of a sequence of descriptors.
pub open spec fn bins(v: Seq<RustNonTestBinarySummary>) -> Seq<BinView> {
    v.map_values(|b: RustNonTestBinarySummary| b.view())
}

pub proof fn lemma_bin_order()
    ensures
        strict_order(bin_order()),
{
    assert forall|x: BinView| !#[trigger] bin_order()(x, x) by {
        lemma_lex_irreflexive(x.0, false);
        lemma_lex_irreflexive(x.1, false);
        lemma_lex_irreflexive(x.2, true);
    }
    assert forall|x: BinView, y: BinView, z: BinView|
        #[trigger] bin_order()(x, y) && #[trigger] bin_order()(y, z) implies bin_order()(x, z) by {
        if lex_lt(x.0, y.0, false) && lex_lt(y.0, z.0, false) {
            lemma_lex_transitive(x.0, y.0, z.0, false);
        }
        if lex_lt(x.1, y.1, false) && lex_lt(y.1, z.1, false) {
            lemma_lex_transitive(x.1, y.1, z.1, false);
        }
        if lex_lt(x.2, y.2, true) && lex_lt(y.2, z.2, true) {
            lemma_lex_transitive(x.2, y.2, z.2, true);
        }
    }
    assert forall|x: BinView, y: BinView| x != y implies #[trigger] bin_order()(x, y) || bin_order()(y, x) by {
        lemma_lex_total(x.0, y.0, false);
        lemma_lex_total(x.1, y.1, false);
        lemma_lex_total(x.2, y.2, true);
    }
}

/// Three-way comparison of two descriptors in the order of `bin_lt`.
pub fn compare_binaries(a: &RustNonTestBinarySummary, b: &RustNonTestBinarySummary) -> (r: i8)
    ensures
        r < 0 <==> bin_lt(a.view(), b.view()),
        r == 0 <==> a.view() == b.view(),
        r > 0 <==> bin_lt(b.view(), a.view()),
{
    proof {
        lemma_lex_irreflexive(a.name@, false);
        lemma_lex_irreflexive(a.kind@, false);
        lemma_lex_irreflexive(b.kind@, false);
        lemma_lex_irreflexive(b.name@, false);
    }
    let c = compare(a.name.as_str(), b.name.as_str(), false);
    if c != 0 {
        return c;
    }
    let c = compare(a.kind.as_str(), b.kind.as_str(), false);
    if c != 0 {
        return c;
    }
    compare(a.path.as_str(), b.path.as_str(), true)
}

/// Finds where `k` stands, or would stand, among the sorted descriptors of `v`.
pub fn find_binary(v: &Vec<RustNonTestBinarySummary>, k: &RustNonTestBinarySummary) -> (r: (bool, usize))
    requires
        sorted_by(bins(v@), bin_order()),
    ensures
        placed(bins(v@), k.view(), r.0, r.1 as int, bin_order()),
{
    proof {
        lemma_bin_order();
    }
    let mut i: usize = 0;
    while i < v.len()
        invariant
            i <= v.len(),
            sorted_by(bins(v@), bin_order()),
            strict_order(bin_order()),
            forall|j: int| 0 <= j < i ==> #[trigger] bin_order()(bins(v@)[j], k.view()),
        decreases v.len() - i,
    {
        let c = compare_binaries(&v[i], k);
        if c >= 0 {
            proof {
                lemma_placed_step(bins(v@), k.view(), i as int, bin_order());
            }
            return (c == 0, i);
        }
        i = i + 1;
    }
    (false, i)
}

/// Adds `k` to the sorted set of descriptors `v`.
pub fn insert_binary(v: &mut Vec<RustNonTestBinarySummary>, k: RustNonTestBinarySummary)
    requires
        sorted_by(bins(old(v)@), bin_order()),
    ensures
        sorted_by(bins(final(v)@), bin_order()),
        forall|x: BinView| bins(final(v)@).contains(x) <==> bins(old(v)@).contains(x) || x == k.view(),
        final(v)@.len() == old(v)@.len() + if bins(old(v)@).contains(k.view()) { 0int } else { 1int },
{
    let (found, pos) = find_binary(v, &k);
    proof {
        lemma_bin_order();
        lemma_placed_absent(bins(v@), k.view(), found, pos as int, bin_order());
    }
    if found {
        proof {
            assert(bins(v@)[pos as int] == k.view());
            assert(forall|x: BinView| bins(v@).contains(x) <==> bins(old(v)@).contains(x) || x == k.view());
        }
    } else {
        proof {
            lemma_insert_placed(bins(v@), k.view(), pos as int, bin_order());
        }
        v.insert(pos, k);
        proof {
            assert(bins(v@) =~= bins(old(v)@).insert(pos as int, k.view()));
            assert(forall|x: BinView| bins(v@).contains(x) <==> bins(old(v)@).contains(x) || x == k.view());
        }
    }
}

} // verus!
