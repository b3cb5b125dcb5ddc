//! Properties that relate several operations on the metadata.
use vstd::prelude::*;
use crate::binary::{lemma_bin_order, BinView};
use crate::meta::{
    base_dirs, dylib_view, empty_view, kept, linked_candidates, meta_wf, rebuilt_from, summary_of, MetaView,
};
use crate::sorted::{
    key_seq, lemma_map_unique, lemma_sorted_unique, lemma_str_order, map_has, same_elements, str_order,
};
use crate::summary::SummaryView;

verus! {

/// `m` with no package recorded behind any linked path.
pub open spec fn without_requesters(m: MetaView) -> MetaView {
    MetaView {
        linked_paths: m.linked_paths.map_values(|e: (Seq<char>, Seq<Seq<char>>)| (e.0, Seq::<Seq<char>>::empty())),
        ..m
    }
}

/// Two containers hold the same target directory, triple, sets and maps,
/// whatever order their entries were added in.
pub open spec fn same_contents(a: MetaView, b: MetaView) -> bool {
    &&& a.target_directory == b.target_directory
    &&& a.target_triple == b.target_triple
    &&& same_elements(a.base_output_directories, b.base_output_directories)
    &&& same_elements(key_seq(a.non_test_binaries), key_seq(b.non_test_binaries))
    &&& forall|k: Seq<char>, x: BinView| map_has(a.non_test_binaries, k, x) <==> map_has(b.non_test_binaries, k, x)
    &&& same_elements(key_seq(a.linked_paths), key_seq(b.linked_paths))
    &&& forall|k: Seq<char>, x: Seq<char>| map_has(a.linked_paths, k, x) <==> map_has(b.linked_paths, k, x)
}

/// Well-formed containers with the same contents are equal, and so are their
/// summaries: the summary does not depend on the order of insertion.
pub proof fn lemma_summary_deterministic(a: MetaView, b: MetaView)
    requires
        meta_wf(a),
        meta_wf(b),
        same_contents(a, b),
    ensures
        a == b,
        summary_of(a) == summary_of(b),
{
    lemma_str_order(true);
    lemma_str_order(false);
    lemma_bin_order();
    lemma_sorted_unique(a.base_output_directories, b.base_output_directories, str_order(true));
    lemma_map_unique(a.non_test_binaries, b.non_test_binaries, false, crate::binary::bin_order());
    lemma_map_unique(a.linked_paths, b.linked_paths, true, str_order(false));
}

/// Rebuilding a container from its summary gives back the container, except
/// that no linked path keeps the packages that asked for it.
pub proof fn lemma_summary_round_trip(x: MetaView, y: MetaView)
    requires
        meta_wf(x),
        rebuilt_from(summary_of(x), y),
    ensures
        y == without_requesters(x),
        forall|i: int| 0 <= i < y.linked_paths.len() ==>
            (#[trigger] y.linked_paths[i]).0 == x.linked_paths[i].0 && y.linked_paths[i].1.len() == 0,
{
    let w = without_requesters(x);
    assert(key_seq(w.linked_paths) =~= key_seq(x.linked_paths));
    assert forall|i: int| 0 <= i < w.linked_paths.len() implies
        vstd::relations::sorted_by(#[trigger] w.linked_paths[i].1, str_order(false)) by {
    }
    assert forall|k: Seq<char>, v: Seq<char>| !map_has(w.linked_paths, k, v) by {
        if map_has(w.linked_paths, k, v) {
            let j = choose|j: int| 0 <= j < w.linked_paths.len() && #[trigger] w.linked_paths[j].0 == k
                && w.linked_paths[j].1.contains(v);
        }
    }
    assert forall|k: Seq<char>, v: Seq<char>| !map_has(y.linked_paths, k, v) by {
        if map_has(y.linked_paths, k, v) {
            let j = choose|j: int| 0 <= j < y.linked_paths.len() && #[trigger] y.linked_paths[j].0 == k
                && y.linked_paths[j].1.contains(v);
        }
    }
    lemma_summary_deterministic(y, w);
}

/// A container whose sets and maps are all empty has an empty search path and
/// a summary with empty collections.
pub proof fn lemma_empty_metadata(td: Seq<char>, triple: Option<Seq<char>>, exists: Seq<bool>, sep: Seq<char>)
    ensures
        dylib_view(empty_view(td, triple), exists, sep) == Seq::<Seq<char>>::empty(),
        summary_of(empty_view(td, triple)) == (SummaryView {
            target_directory: td,
            base_output_directories: seq![],
            non_test_binaries: seq![],
            linked_paths: seq![],
            target_triple: triple,
        }),
{
    let m = empty_view(td, triple);
    assert(linked_candidates(m, sep) =~= seq![]);
    assert(kept(linked_candidates(m, sep), exists) =~= seq![]);
    assert(base_dirs(td, m.base_output_directories, sep) =~= seq![]);
    assert(dylib_view(m, exists, sep) =~= seq![]);
    assert(key_seq(m.linked_paths) =~= seq![]);
}

} // verus!
