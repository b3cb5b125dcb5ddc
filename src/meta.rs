//! The build metadata container and its two lifecycle phases.
use std::marker::PhantomData;
use vstd::prelude::*;
use vstd::relations::sorted_by;
use crate::binary::{bin_order, bins, insert_binary, lemma_bin_order, BinView, RustNonTestBinarySummary};
use crate::paths::{convert_rel_path_to_main_sep, join, joined, main_separator, path_exists, with_main_sep};
use crate::sorted::{
    find_key, insert_str, key_seq, keys, lemma_map_insert, lemma_placed_absent, lemma_str_order, lemma_map_set_value, lemma_prefix_contains,
    lemma_prefix_map_has, map_has, map_wf, same_elements, str_order, strs,
};
use crate::summary::{RustBuildMetaSummary, SummaryView};

verus! {

/// Phase of metadata produced while discovering binaries.
#[derive(Clone, Copy, Debug, PartialEq, Eq)]
pub struct BinaryListState;

/// Phase of metadata that has been path-mapped and is ready for running tests.
#[derive(Clone, Copy, Debug, PartialEq, Eq)]
pub struct TestListState;

/// The target triple that artifacts were compiled for.
#[derive(Clone, Debug, PartialEq, Eq)]
pub struct TargetTriple {
    /// The triple as written, such as `x86_64-unknown-linux-gnu`.
    pub triple: String,
}

/// The textual form of an optional triple.
pub open spec fn triple_text(t: Option<TargetTriple>) -> Option<Seq<char>> {
    match t {
        Some(x) => Some(x.triple@),
        None => None,
    }
}

/// The view of an optional string.
pub open spec fn opt_text(s: Option<String>) -> Option<Seq<char>> {
    match s {
        Some(x) => Some(x@),
        None => None,
    }
}

impl TargetTriple {
    /// The textual summary form of an optional triple.
    pub fn serialize(target_triple: Option<&TargetTriple>) -> (r: Option<String>)
        ensures
            opt_text(r) == match target_triple {
                Some(t) => Some(t.triple@),
                None => None,
            },
    {
        match target_triple {
            Some(t) => Some(t.triple.clone()),
            None => None,
        }
    }

    /// Reads a triple back from its summary form. Any string, recognised or
    /// not, gives a triple that holds it; only an absent string gives `None`.
    pub fn deserialize(target_triple: Option<String>) -> (r: Option<TargetTriple>)
        ensures
            triple_text(r) == opt_text(target_triple),
    {
        match target_triple {
            Some(triple) => Some(TargetTriple { triple }),
            None => None,
        }
    }

    fn duplicate(&self) -> (r: Self)
        ensures
            r.triple@ == self.triple@,
    {
        TargetTriple { triple: self.triple.clone() }
    }
}

/// Remaps paths when a build is reused somewhere other than where it was made.
#[derive(Clone, Debug, PartialEq, Eq)]
pub struct PathMapper {
    /// The directory that replaces the target directory, if any.
    pub new_target_dir: Option<String>,
}

impl PathMapper {
    /// Creates a mapper that replaces the target directory with `new_target_dir`, if given.
    pub fn new(new_target_dir: Option<String>) -> (r: Self)
        ensures
            opt_text(r.new_target_dir) == opt_text(new_target_dir),
    {
        PathMapper { new_target_dir }
    }

    /// The directory that replaces the target directory, if any.
    pub fn new_target_dir(&self) -> (r: Option<&String>)
        ensures
            match r {
                Some(d) => self.new_target_dir == Some(*d),
                None => self.new_target_dir.is_none(),
            },
    {
        match &self.new_target_dir {
            Some(d) => Some(d),
            None => None,
        }
    }
}

/// The mathematical content of a container.
pub struct MetaView {
    pub target_directory: Seq<char>,
    pub base_output_directories: Seq<Seq<char>>,
    pub non_test_binaries: Seq<(Seq<char>, Seq<BinView>)>,
    pub linked_paths: Seq<(Seq<char>, Seq<Seq<char>>)>,
    pub target_triple: Option<Seq<char>>,
}

/// The sets and maps are strictly sorted: relative paths in path order,
/// package identifiers and descriptors in their own orders.
pub open spec fn meta_wf(m: MetaView) -> bool {
    &&& sorted_by(m.base_output_directories, str_order(true))
    &&& map_wf(m.non_test_binaries, false, bin_order())
    &&& map_wf(m.linked_paths, true, str_order(false))
}

pub open spec fn non_test_view(v: Seq<(String, Vec<RustNonTestBinarySummary>)>) -> Seq<(Seq<char>, Seq<BinView>)> {
    v.map_values(|e: (String, Vec<RustNonTestBinarySummary>)| (e.0@, bins(e.1@)))
}

pub open spec fn linked_view(v: Seq<(String, Vec<String>)>) -> Seq<(Seq<char>, Seq<Seq<char>>)> {
    v.map_values(|e: (String, Vec<String>)| (e.0@, strs(e.1@)))
}

/// Rust build metadata for one build, in phase `State`.
#[derive(Debug, PartialEq, Eq)]
pub struct RustBuildMeta<State> {
    target_directory: String,
    base_output_directories: Vec<String>,
    non_test_binaries: Vec<(String, Vec<RustNonTestBinarySummary>)>,
    linked_paths: Vec<(String, Vec<String>)>,
    target_triple: Option<TargetTriple>,
    state: PhantomData<State>,
}

impl<State> View for RustBuildMeta<State> {
    type V = MetaView;

    closed spec fn view(&self) -> MetaView {
        MetaView {
            target_directory: self.target_directory@,
            base_output_directories: strs(self.base_output_directories@),
            non_test_binaries: non_test_view(self.non_test_binaries@),
            linked_paths: linked_view(self.linked_paths@),
            target_triple: triple_text(self.target_triple),
        }
    }
}

fn clone_strs(v: &Vec<String>) -> (r: Vec<String>)
    ensures
        strs(r@) == strs(v@),
{
    let mut r: Vec<String> = Vec::new();
    let mut i: usize = 0;
    while i < v.len()
        invariant
            i <= v.len(),
            r.len() == i,
            forall|j: int| 0 <= j < i ==> #[trigger] r@[j]@ == v@[j]@,
        decreases v.len() - i,
    {
        r.push(v[i].clone());
        i = i + 1;
    }
    proof {
        assert(strs(r@) =~= strs(v@));
    }
    r
}

fn clone_bins(v: &Vec<RustNonTestBinarySummary>) -> (r: Vec<RustNonTestBinarySummary>)
    ensures
        bins(r@) == bins(v@),
{
    let mut r: Vec<RustNonTestBinarySummary> = Vec::new();
    let mut i: usize = 0;
    while i < v.len()
        invariant
            i <= v.len(),
            r.len() == i,
            forall|j: int| 0 <= j < i ==> #[trigger] r@[j].view() == v@[j].view(),
        decreases v.len() - i,
    {
        r.push(v[i].duplicate());
        i = i + 1;
    }
    proof {
        assert(bins(r@) =~= bins(v@));
    }
    r
}

fn clone_non_test(v: &Vec<(String, Vec<RustNonTestBinarySummary>)>) -> (r: Vec<(String, Vec<RustNonTestBinarySummary>)>)
    ensures
        non_test_view(r@) == non_test_view(v@),
{
    let mut r: Vec<(String, Vec<RustNonTestBinarySummary>)> = Vec::new();
    let mut i: usize = 0;
    while i < v.len()
        invariant
            i <= v.len(),
            r.len() == i,
            forall|j: int| 0 <= j < i ==> #[trigger] r@[j].0@ == v@[j].0@ && bins(r@[j].1@) == bins(v@[j].1@),
        decreases v.len() - i,
    {
        r.push((v[i].0.clone(), clone_bins(&v[i].1)));
        i = i + 1;
    }
    proof {
        assert(non_test_view(r@) =~= non_test_view(v@));
    }
    r
}

fn clone_linked(v: &Vec<(String, Vec<String>)>) -> (r: Vec<(String, Vec<String>)>)
    ensures
        linked_view(r@) == linked_view(v@),
{
    let mut r: Vec<(String, Vec<String>)> = Vec::new();
    let mut i: usize = 0;
    while i < v.len()
        invariant
            i <= v.len(),
            r.len() == i,
            forall|j: int| 0 <= j < i ==> #[trigger] r@[j].0@ == v@[j].0@ && strs(r@[j].1@) == strs(v@[j].1@),
        decreases v.len() - i,
    {
        r.push((v[i].0.clone(), clone_strs(&v[i].1)));
        i = i + 1;
    }
    proof {
        assert(linked_view(r@) =~= linked_view(v@));
    }
    r
}

fn clone_triple(t: &Option<TargetTriple>) -> (r: Option<TargetTriple>)
    ensures
        triple_text(r) == triple_text(*t),
{
    match t {
        Some(x) => Some(x.duplicate()),
        None => None,
    }
}

/// Adds `path` to the linked paths, with `requester` among the packages that
/// asked for it if one is given.
fn insert_linked(v: &mut Vec<(String, Vec<String>)>, path: String, requester: Option<String>)
    requires
        map_wf(linked_view(old(v)@), true, str_order(false)),
    ensures
        map_wf(linked_view(final(v)@), true, str_order(false)),
        forall|k: Seq<char>| key_seq(linked_view(final(v)@)).contains(k) <==>
            key_seq(linked_view(old(v)@)).contains(k) || k == path@,
        forall|k: Seq<char>, x: Seq<char>| map_has(linked_view(final(v)@), k, x) <==>
            map_has(linked_view(old(v)@), k, x) || (k == path@ && opt_text(requester) == Some(x)),
        final(v)@.len() == old(v)@.len() + if key_seq(linked_view(old(v)@)).contains(path@) { 0int } else { 1int },
{
    assert(keys(v@) =~= key_seq(linked_view(v@)));
    let (found, pos) = find_key(v, path.as_str(), true);
    proof {
        lemma_str_order(true);
        lemma_placed_absent(keys(v@), path@, found, pos as int, str_order(true));
    }
    if found {
        proof {
            assert(key_seq(linked_view(v@))[pos as int] == path@);
            assert(key_seq(linked_view(v@)).contains(path@));
        }
        match requester {
            Some(p) => {
                let ghost m = linked_view(v@);
                let mut e = v.remove(pos);
                assert(strs(e.1@) == m[pos as int].1);
                insert_str(&mut e.1, p, false);
                v.insert(pos, e);
                proof {
                    assert(linked_view(v@) =~= m.update(pos as int, (m[pos as int].0, strs(e.1@))));
                    lemma_map_set_value(m, pos as int, strs(e.1@), true, str_order(false));
                    assert forall|k: Seq<char>, x: Seq<char>| map_has(linked_view(v@), k, x) <==>
                        map_has(m, k, x) || (k == path@ && opt_text(requester) == Some(x)) by {
                        if k == path@ && m[pos as int].1.contains(x) {
                            assert(m[pos as int].0 == k);
                        }
                        if k == path@ && map_has(m, k, x) {
                            let j = choose|j: int| 0 <= j < m.len() && #[trigger] m[j].0 == k && m[j].1.contains(x);
                            lemma_map_set_value(m, pos as int, m[pos as int].1, true, str_order(false));
                            assert(m.update(pos as int, (m[pos as int].0, m[pos as int].1)) =~= m);
                        }
                    }
                }
            },
            None => {},
        }
    } else {
        let ghost m = linked_view(v@);
        let mut set: Vec<String> = Vec::new();
        match requester {
            Some(p) => set.push(p),
            None => {},
        }
        proof {
            assert(sorted_by(strs(set@), str_order(false)));
            assert forall|x: Seq<char>| strs(set@).contains(x) <==> opt_text(requester) == Some(x) by {
                if strs(set@).contains(x) {
                    let j = choose|j: int| 0 <= j < strs(set@).len() && strs(set@)[j] == x;
                }
                if opt_text(requester) == Some(x) {
                    assert(strs(set@)[0] == x);
                }
            }
            lemma_map_insert(m, pos as int, path@, strs(set@), true, str_order(false));
        }
        let ghost path_view = path@;
        v.insert(pos, (path, set));
        proof {
            assert(linked_view(v@) =~= m.insert(pos as int, (path_view, strs(set@))));
        }
    }
}

/// Adds the package `package_id` to the non-test binary map, with `binary` among
/// its descriptors if one is given.
fn insert_non_test(v: &mut Vec<(String, Vec<RustNonTestBinarySummary>)>, package_id: String, binary: Option<RustNonTestBinarySummary>)
    requires
        map_wf(non_test_view(old(v)@), false, bin_order()),
    ensures
        map_wf(non_test_view(final(v)@), false, bin_order()),
        forall|k: Seq<char>| key_seq(non_test_view(final(v)@)).contains(k) <==>
            key_seq(non_test_view(old(v)@)).contains(k) || k == package_id@,
        forall|k: Seq<char>, x: BinView| map_has(non_test_view(final(v)@), k, x) <==>
            map_has(non_test_view(old(v)@), k, x) || (k == package_id@ && binary.is_some() && binary.unwrap().view() == x),
        final(v)@.len() == old(v)@.len() + if key_seq(non_test_view(old(v)@)).contains(package_id@) { 0int } else { 1int },
{
    assert(keys(v@) =~= key_seq(non_test_view(v@)));
    let (found, pos) = find_key(v, package_id.as_str(), false);
    proof {
        lemma_str_order(false);
        lemma_placed_absent(keys(v@), package_id@, found, pos as int, str_order(false));
    }
    if found {
        proof {
            assert(key_seq(non_test_view(v@))[pos as int] == package_id@);
            assert(key_seq(non_test_view(v@)).contains(package_id@));
        }
        match binary {
            Some(b) => {
                let ghost m = non_test_view(v@);
                let mut e = v.remove(pos);
                assert(bins(e.1@) == m[pos as int].1);
                insert_binary(&mut e.1, b);
                v.insert(pos, e);
                proof {
                    assert(non_test_view(v@) =~= m.update(pos as int, (m[pos as int].0, bins(e.1@))));
                    lemma_map_set_value(m, pos as int, bins(e.1@), false, bin_order());
                    assert forall|k: Seq<char>, x: BinView| map_has(non_test_view(v@), k, x) <==>
                        map_has(m, k, x) || (k == package_id@ && binary.is_some() && binary.unwrap().view() == x) by {
                        if k == package_id@ && m[pos as int].1.contains(x) {
                            assert(m[pos as int].0 == k);
                        }
                        if k == package_id@ && map_has(m, k, x) {
                            let j = choose|j: int| 0 <= j < m.len() && #[trigger] m[j].0 == k && m[j].1.contains(x);
                            lemma_map_set_value(m, pos as int, m[pos as int].1, false, bin_order());
                            assert(m.update(pos as int, (m[pos as int].0, m[pos as int].1)) =~= m);
                        }
                    }
                }
            },
            None => {},
        }
    } else {
        let ghost m = non_test_view(v@);
        let ghost b = binary;
        let mut set: Vec<RustNonTestBinarySummary> = Vec::new();
        match binary {
            Some(p) => set.push(p),
            None => {},
        }
        proof {
            assert(sorted_by(bins(set@), bin_order()));
            assert forall|x: BinView| bins(set@).contains(x) <==> (b.is_some() && b.unwrap().view() == x) by {
                if bins(set@).contains(x) {
                    let j = choose|j: int| 0 <= j < bins(set@).len() && bins(set@)[j] == x;
                }
                if b.is_some() && b.unwrap().view() == x {
                    assert(bins(set@)[0] == x);
                }
            }
            lemma_map_insert(m, pos as int, package_id@, bins(set@), false, bin_order());
        }
        let ghost key_view = package_id@;
        v.insert(pos, (package_id, set));
        proof {
            assert(non_test_view(v@) =~= m.insert(pos as int, (key_view, bins(set@))));
        }
    }
}

/// A container in which every set and map is empty.
pub open spec fn empty_view(target_directory: Seq<char>, target_triple: Option<Seq<char>>) -> MetaView {
    MetaView {
        target_directory,
        base_output_directories: seq![],
        non_test_binaries: seq![],
        linked_paths: seq![],
        target_triple,
    }
}

/// `m` after a path mapping that may replace its target directory.
pub open spec fn mapped_view(m: MetaView, new_target_dir: Option<Seq<char>>) -> MetaView {
    MetaView {
        target_directory: match new_target_dir {
            Some(d) => d,
            None => m.target_directory,
        },
        ..m
    }
}

impl<State> RustBuildMeta<State> {
    /// The container's sets and maps are strictly sorted.
    pub open spec fn wf(&self) -> bool {
        meta_wf(self@)
    }

    fn with_target(target_directory: String, target_triple: Option<TargetTriple>) -> (r: Self)
        ensures
            r@ == empty_view(target_directory@, triple_text(target_triple)),
            r.wf(),
    {
        let r = RustBuildMeta {
            target_directory,
            base_output_directories: Vec::new(),
            non_test_binaries: Vec::new(),
            linked_paths: Vec::new(),
            target_triple,
            state: PhantomData,
        };
        proof {
            assert(strs(r.base_output_directories@) =~= seq![]);
            assert(non_test_view(r.non_test_binaries@) =~= seq![]);
            assert(linked_view(r.linked_paths@) =~= seq![]);
        }
        r
    }

    /// Adds a base output directory, relative to the target directory.
    pub fn insert_base_output_directory(&mut self, path: String)
        requires
            old(self).wf(),
        ensures
            final(self).wf(),
            forall|p: Seq<char>| final(self)@.base_output_directories.contains(p) <==>
                old(self)@.base_output_directories.contains(p) || p == path@,
            final(self)@.base_output_directories.len() == old(self)@.base_output_directories.len()
                + if old(self)@.base_output_directories.contains(path@) { 0int } else { 1int },
            final(self)@.target_directory == old(self)@.target_directory,
            final(self)@.non_test_binaries == old(self)@.non_test_binaries,
            final(self)@.linked_paths == old(self)@.linked_paths,
            final(self)@.target_triple == old(self)@.target_triple,
    {
        insert_str(&mut self.base_output_directories, path, true);
    }

    /// Records that package `package_id` asked for `path`, relative to the target
    /// directory, to be searched for shared libraries.
    pub fn insert_linked_path(&mut self, path: String, package_id: String)
        requires
            old(self).wf(),
        ensures
            final(self).wf(),
            forall|k: Seq<char>| key_seq(final(self)@.linked_paths).contains(k) <==>
                key_seq(old(self)@.linked_paths).contains(k) || k == path@,
            final(self)@.linked_paths.len() == old(self)@.linked_paths.len()
                + if key_seq(old(self)@.linked_paths).contains(path@) { 0int } else { 1int },
            forall|k: Seq<char>, x: Seq<char>| map_has(final(self)@.linked_paths, k, x) <==>
                map_has(old(self)@.linked_paths, k, x) || (k == path@ && x == package_id@),
            final(self)@.target_directory == old(self)@.target_directory,
            final(self)@.base_output_directories == old(self)@.base_output_directories,
            final(self)@.non_test_binaries == old(self)@.non_test_binaries,
            final(self)@.target_triple == old(self)@.target_triple,
    {
        insert_linked(&mut self.linked_paths, path, Some(package_id));
    }

    /// Records a non-test binary built by package `package_id`.
    pub fn insert_non_test_binary(&mut self, package_id: String, binary: RustNonTestBinarySummary)
        requires
            old(self).wf(),
        ensures
            final(self).wf(),
            forall|k: Seq<char>| key_seq(final(self)@.non_test_binaries).contains(k) <==>
                key_seq(old(self)@.non_test_binaries).contains(k) || k == package_id@,
            final(self)@.non_test_binaries.len() == old(self)@.non_test_binaries.len()
                + if key_seq(old(self)@.non_test_binaries).contains(package_id@) { 0int } else { 1int },
            forall|k: Seq<char>, x: BinView| map_has(final(self)@.non_test_binaries, k, x) <==>
                map_has(old(self)@.non_test_binaries, k, x) || (k == package_id@ && x == binary.view()),
            final(self)@.target_directory == old(self)@.target_directory,
            final(self)@.base_output_directories == old(self)@.base_output_directories,
            final(self)@.linked_paths == old(self)@.linked_paths,
            final(self)@.target_triple == old(self)@.target_triple,
    {
        insert_non_test(&mut self.non_test_binaries, package_id, Some(binary));
    }

    /// The target directory for build artifacts.
    pub fn target_directory(&self) -> (r: &String)
        ensures
            r@ == self@.target_directory,
    {
        &self.target_directory
    }

    /// The base output directories, relative to the target directory, in path order.
    pub fn base_output_directories(&self) -> (r: &Vec<String>)
        ensures
            strs(r@) == self@.base_output_directories,
    {
        &self.base_output_directories
    }

    /// The non-test binaries, keyed by package identifier, in key order.
    pub fn non_test_binaries(&self) -> (r: &Vec<(String, Vec<RustNonTestBinarySummary>)>)
        ensures
            non_test_view(r@) == self@.non_test_binaries,
    {
        &self.non_test_binaries
    }

    /// The linked paths, relative to the target directory, each with the packages
    /// that asked for it, in path order.
    pub fn linked_paths(&self) -> (r: &Vec<(String, Vec<String>)>)
        ensures
            linked_view(r@) == self@.linked_paths,
    {
        &self.linked_paths
    }

    /// The target triple that the artifacts were compiled for, if not the host's.
    pub fn target_triple(&self) -> (r: &Option<TargetTriple>)
        ensures
            triple_text(*r) == self@.target_triple,
    {
        &self.target_triple
    }
}

impl RustBuildMeta<BinaryListState> {
    /// Creates metadata for a build in `target_directory`, with every set and map empty.
    pub fn new(target_directory: String, target_triple: Option<TargetTriple>) -> (r: Self)
        ensures
            r@ == empty_view(target_directory@, triple_text(target_triple)),
            r.wf(),
    {
        Self::with_target(target_directory, target_triple)
    }

    /// The same metadata, ready for running tests: the target directory is
    /// replaced by the mapper's, if it has one, and all else is copied.
    pub fn map_paths(&self, path_mapper: &PathMapper) -> (r: RustBuildMeta<TestListState>)
        requires
            self.wf(),
        ensures
            r@ == mapped_view(self@, opt_text(path_mapper.new_target_dir)),
            r.wf(),
    {
        let target_directory = match path_mapper.new_target_dir() {
            Some(d) => d.clone(),
            None => self.target_directory.clone(),
        };
        let r = RustBuildMeta {
            target_directory,
            base_output_directories: clone_strs(&self.base_output_directories),
            non_test_binaries: clone_non_test(&self.non_test_binaries),
            linked_paths: clone_linked(&self.linked_paths),
            target_triple: clone_triple(&self.target_triple),
            state: PhantomData,
        };
        proof {
            assert(r@ =~= mapped_view(self@, opt_text(path_mapper.new_target_dir)));
        }
        r
    }
}

/// The candidates whose flag is set; a candidate without a flag is left out.
pub open spec fn kept(c: Seq<Seq<char>>, exists: Seq<bool>) -> Seq<Seq<char>>
    decreases c.len(),
{
    if c.len() == 0 {
        seq![]
    } else {
        let i = c.len() - 1;
        kept(c.drop_last(), exists) + if i < exists.len() && exists[i] {
            seq![c[i]]
        } else {
            seq![]
        }
    }
}

/// Each linked path, in key order, adjoined to the target directory.
pub open spec fn linked_candidates(m: MetaView, sep: Seq<char>) -> Seq<Seq<char>> {
    key_seq(m.linked_paths).map_values(|k: Seq<char>| joined(m.target_directory, with_main_sep(k, sep)))
}

/// For each base output directory in order, its `deps` subdirectory and then
/// the directory itself, adjoined to `td`.
pub open spec fn base_dirs(td: Seq<char>, bases: Seq<Seq<char>>, sep: Seq<char>) -> Seq<Seq<char>>
    decreases bases.len(),
{
    if bases.len() == 0 {
        seq![]
    } else {
        let b = joined(td, with_main_sep(bases.last(), sep));
        base_dirs(td, bases.drop_last(), sep) + seq![joined(b, "deps"@), b]
    }
}

/// The dynamic library search path: the linked paths that exist, then the base
/// output directories, which are never filtered.
pub open spec fn dylib_view(m: MetaView, exists: Seq<bool>, sep: Seq<char>) -> Seq<Seq<char>> {
    kept(linked_candidates(m, sep), exists) + base_dirs(m.target_directory, m.base_output_directories, sep)
}

impl RustBuildMeta<TestListState> {
    /// Metadata with an empty target directory, no triple and every set and map empty.
    pub fn empty() -> (r: Self)
        ensures
            r@ == empty_view(seq![], None),
            r.wf(),
    {
        Self::with_target(String::new(), None)
    }

    /// Each linked path, in path order, adjoined to the target directory after its
    /// separators are rewritten as `sep`.
    pub fn linked_path_candidates(&self, sep: &str) -> (r: Vec<String>)
        ensures
            strs(r@) == linked_candidates(self@, sep@),
    {
        let mut r: Vec<String> = Vec::new();
        let mut i: usize = 0;
        while i < self.linked_paths.len()
            invariant
                i <= self.linked_paths.len(),
                r.len() == i,
                forall|j: int| 0 <= j < i ==> #[trigger] r@[j]@ == linked_candidates(self@, sep@)[j],
            decreases self.linked_paths.len() - i,
        {
            let rel = convert_rel_path_to_main_sep(self.linked_paths[i].0.as_str(), sep);
            let p = join(self.target_directory.as_str(), rel.as_str());
            r.push(p);
            i = i + 1;
        }
        proof {
            assert(strs(r@) =~= linked_candidates(self@, sep@));
        }
        r
    }

    /// The dynamic library search path for the given existence flags, one for
    /// each linked path in path order, with separators rewritten as `sep`.
    pub fn dylib_paths_with(&self, exists: &Vec<bool>, sep: &str) -> (r: Vec<String>)
        ensures
            strs(r@) == dylib_view(self@, exists@, sep@),
    {
        let cands = self.linked_path_candidates(sep);
        let ghost c = strs(cands@);
        let mut r: Vec<String> = Vec::new();
        let mut i: usize = 0;
        while i < cands.len()
            invariant
                i <= cands.len(),
                c == strs(cands@),
                strs(r@) == kept(c.subrange(0, i as int), exists@),
            decreases cands.len() - i,
        {
            let keep = i < exists.len() && exists[i];
            proof {
                assert(c.subrange(0, i + 1).drop_last() =~= c.subrange(0, i as int));
            }
            if keep {
                r.push(cands[i].clone());
            }
            proof {
                assert(strs(r@) =~= kept(c.subrange(0, i + 1), exists@));
            }
            i = i + 1;
        }
        proof {
            assert(c.subrange(0, i as int) =~= c);
        }
        let ghost linked = strs(r@);
        let ghost bases = self@.base_output_directories;
        let ghost td = self@.target_directory;
        let mut j: usize = 0;
        while j < self.base_output_directories.len()
            invariant
                j <= self.base_output_directories.len(),
                bases == strs(self.base_output_directories@),
                td == self.target_directory@,
                strs(r@) == linked + base_dirs(td, bases.subrange(0, j as int), sep@),
            decreases self.base_output_directories.len() - j,
        {
            let rel = convert_rel_path_to_main_sep(self.base_output_directories[j].as_str(), sep);
            let abs_base = join(self.target_directory.as_str(), rel.as_str());
            let with_deps = join(abs_base.as_str(), "deps");
            let ghost before = strs(r@);
            let ghost wd = with_deps@;
            let ghost ab = abs_base@;
            r.push(with_deps);
            r.push(abs_base);
            proof {
                assert(strs(r@) =~= before + seq![wd, ab]);
                let s1 = bases.subrange(0, j + 1);
                assert(base_dirs(td, s1, sep@) == base_dirs(td, s1.drop_last(), sep@) + seq![
                    joined(joined(td, with_main_sep(s1.last(), sep@)), "deps"@),
                    joined(td, with_main_sep(s1.last(), sep@)),
                ]);
                assert(bases.subrange(0, j + 1).drop_last() =~= bases.subrange(0, j as int));
                assert(bases.subrange(0, j + 1).last() == self.base_output_directories@[j as int]@);
                assert(with_deps@ == joined(abs_base@, "deps"@));
                assert(strs(r@) =~= linked + base_dirs(td, bases.subrange(0, j + 1), sep@));
            }
            j = j + 1;
        }
        proof {
            assert(bases.subrange(0, j as int) =~= bases);
        }
        r
    }

    /// The directories to prepend to the platform's dynamic library search path:
    /// the linked paths that exist on disk now, in path order, then for each base
    /// output directory its `deps` subdirectory and itself.
    pub fn dylib_paths(&self) -> (r: Vec<String>)
        ensures
            exists|e: Seq<bool>, sep: Seq<char>|
                e.len() == self@.linked_paths.len() && (sep == seq!['/'] || sep == seq!['\\'])
                    && strs(r@) == #[trigger] dylib_view(self@, e, sep),
    {
        let sep = main_separator();
        let cands = self.linked_path_candidates(sep);
        let mut exists: Vec<bool> = Vec::new();
        let mut i: usize = 0;
        while i < cands.len()
            invariant
                i <= cands.len(),
                exists.len() == i,
            decreases cands.len() - i,
        {
            exists.push(path_exists(cands[i].as_str()));
            i = i + 1;
        }
        let r = self.dylib_paths_with(&exists, sep);
        proof {
            assert(cands@.len() == self@.linked_paths.len());
        }
        r
    }
}

/// The summary of `m`: everything but the packages behind each linked path.
pub open spec fn summary_of(m: MetaView) -> SummaryView {
    SummaryView {
        target_directory: m.target_directory,
        base_output_directories: m.base_output_directories,
        non_test_binaries: m.non_test_binaries,
        linked_paths: key_seq(m.linked_paths),
        target_triple: m.target_triple,
    }
}

/// `m` is well formed and holds what `s` holds, with no package behind any
/// linked path.
pub open spec fn rebuilt_from(s: SummaryView, m: MetaView) -> bool {
    &&& meta_wf(m)
    &&& m.target_directory == s.target_directory
    &&& m.target_triple == s.target_triple
    &&& same_elements(m.base_output_directories, s.base_output_directories)
    &&& same_elements(key_seq(m.non_test_binaries), key_seq(s.non_test_binaries))
    &&& forall|k: Seq<char>, x: BinView| map_has(m.non_test_binaries, k, x) <==> map_has(s.non_test_binaries, k, x)
    &&& same_elements(key_seq(m.linked_paths), s.linked_paths)
    &&& forall|i: int| 0 <= i < m.linked_paths.len() ==> (#[trigger] m.linked_paths[i]).1.len() == 0
}

impl<State> RustBuildMeta<State> {
    /// Builds metadata from its summary. Each linked path comes back with no
    /// package behind it; repeated entries are merged.
    pub fn from_summary(summary: RustBuildMetaSummary) -> (r: Self)
        ensures
            rebuilt_from(summary@, r@),
            r.wf(),
    {
        let ghost sv = summary@;
        let RustBuildMetaSummary { target_directory, base_output_directories, non_test_binaries, linked_paths, target_triple } = summary;
        let mut r = Self::with_target(target_directory, TargetTriple::deserialize(target_triple));
        let ghost bases = sv.base_output_directories;
        let mut i: usize = 0;
        while i < base_output_directories.len()
            invariant
                i <= base_output_directories.len(),
                bases == strs(base_output_directories@),
                r.wf(),
                r@.target_directory == sv.target_directory,
                r@.target_triple == sv.target_triple,
                r@.non_test_binaries == Seq::<(Seq<char>, Seq<BinView>)>::empty(),
                r@.linked_paths == Seq::<(Seq<char>, Seq<Seq<char>>)>::empty(),
                forall|p: Seq<char>| r@.base_output_directories.contains(p) <==> bases.subrange(0, i as int).contains(p),
            decreases base_output_directories.len() - i,
        {
            proof {
                lemma_prefix_contains(bases, i as int);
                assert(bases[i as int] == base_output_directories@[i as int]@);
            }
            r.insert_base_output_directory(base_output_directories[i].clone());
            i = i + 1;
        }
        proof {
            assert(bases.subrange(0, i as int) =~= bases);
        }
        let ghost nv = sv.non_test_binaries;
        let mut i: usize = 0;
        while i < non_test_binaries.len()
            invariant
                i <= non_test_binaries.len(),
                nv == non_test_view(non_test_binaries@),
                r.wf(),
                r@.target_directory == sv.target_directory,
                r@.target_triple == sv.target_triple,
                same_elements(r@.base_output_directories, sv.base_output_directories),
                r@.linked_paths == Seq::<(Seq<char>, Seq<Seq<char>>)>::empty(),
                same_elements(key_seq(r@.non_test_binaries), key_seq(nv.subrange(0, i as int))),
                forall|k: Seq<char>, x: BinView| map_has(r@.non_test_binaries, k, x) <==> map_has(nv.subrange(0, i as int), k, x),
            decreases non_test_binaries.len() - i,
        {
            proof {
                lemma_prefix_map_has(nv, i as int);
                lemma_prefix_contains(key_seq(nv), i as int);
                assert(key_seq(nv.subrange(0, i + 1)) =~= key_seq(nv).subrange(0, i + 1));
                assert(key_seq(nv.subrange(0, i as int)) =~= key_seq(nv).subrange(0, i as int));
                assert(nv[i as int].0 == non_test_binaries@[i as int].0@);
                assert(key_seq(nv)[i as int] == nv[i as int].0);
            }
            let ghost bv = nv[i as int].1;
            insert_non_test(&mut r.non_test_binaries, non_test_binaries[i].0.clone(), None);
            let mut j: usize = 0;
            while j < non_test_binaries[i].1.len()
                invariant
                    i < non_test_binaries.len(),
                    j <= non_test_binaries[i as int].1.len(),
                    nv == non_test_view(non_test_binaries@),
                    bv == nv[i as int].1,
                    bv == crate::binary::bins(non_test_binaries[i as int].1@),
                    r.wf(),
                    r@.target_directory == sv.target_directory,
                    r@.target_triple == sv.target_triple,
                    same_elements(r@.base_output_directories, sv.base_output_directories),
                    r@.linked_paths == Seq::<(Seq<char>, Seq<Seq<char>>)>::empty(),
                    same_elements(key_seq(r@.non_test_binaries), key_seq(nv.subrange(0, i + 1))),
                    forall|k: Seq<char>, x: BinView| map_has(r@.non_test_binaries, k, x) <==>
                        map_has(nv.subrange(0, i as int), k, x) || (k == nv[i as int].0 && bv.subrange(0, j as int).contains(x)),
                decreases non_test_binaries[i as int].1.len() - j,
            {
                proof {
                    lemma_prefix_contains(bv, j as int);
                    assert(bv[j as int] == non_test_binaries@[i as int].1@[j as int].view());
                    assert(key_seq(nv.subrange(0, i + 1))[i as int] == nv[i as int].0);
                    assert(nv[i as int].0 == non_test_binaries@[i as int].0@);
                }
                insert_non_test(&mut r.non_test_binaries, non_test_binaries[i].0.clone(), Some(non_test_binaries[i].1[j].duplicate()));
                j = j + 1;
            }
            proof {
                assert(bv.subrange(0, j as int) =~= bv);
            }
            i = i + 1;
        }
        proof {
            assert(nv.subrange(0, i as int) =~= nv);
        }
        let ghost lv = sv.linked_paths;
        let mut i: usize = 0;
        while i < linked_paths.len()
            invariant
                i <= linked_paths.len(),
                lv == strs(linked_paths@),
                r.wf(),
                r@.target_directory == sv.target_directory,
                r@.target_triple == sv.target_triple,
                same_elements(r@.base_output_directories, sv.base_output_directories),
                same_elements(key_seq(r@.non_test_binaries), key_seq(sv.non_test_binaries)),
                forall|k: Seq<char>, x: BinView| map_has(r@.non_test_binaries, k, x) <==> map_has(sv.non_test_binaries, k, x),
                same_elements(key_seq(r@.linked_paths), lv.subrange(0, i as int)),
                forall|k: Seq<char>, x: Seq<char>| !map_has(r@.linked_paths, k, x),
            decreases linked_paths.len() - i,
        {
            proof {
                lemma_prefix_contains(lv, i as int);
                assert(lv[i as int] == linked_paths@[i as int]@);
            }
            insert_linked(&mut r.linked_paths, linked_paths[i].clone(), None);
            i = i + 1;
        }
        proof {
            assert(lv.subrange(0, i as int) =~= lv);
            assert forall|k: int| 0 <= k < r@.linked_paths.len() implies (#[trigger] r@.linked_paths[k]).1.len() == 0 by {
                if r@.linked_paths[k].1.len() > 0 {
                    assert(r@.linked_paths[k].1.contains(r@.linked_paths[k].1[0]));
                    assert(map_has(r@.linked_paths, r@.linked_paths[k].0, r@.linked_paths[k].1[0]));
                }
            }
        }
        r
    }

    /// The summary of this metadata: all of it but the packages behind each linked path.
    pub fn to_summary(&self) -> (r: RustBuildMetaSummary)
        ensures
            r@ == summary_of(self@),
    {
        let mut linked_paths: Vec<String> = Vec::new();
        let mut i: usize = 0;
        while i < self.linked_paths.len()
            invariant
                i <= self.linked_paths.len(),
                linked_paths.len() == i,
                forall|j: int| 0 <= j < i ==> #[trigger] linked_paths@[j]@ == key_seq(self@.linked_paths)[j],
            decreases self.linked_paths.len() - i,
        {
            linked_paths.push(self.linked_paths[i].0.clone());
            i = i + 1;
        }
        let r = RustBuildMetaSummary {
            target_directory: self.target_directory.clone(),
            base_output_directories: clone_strs(&self.base_output_directories),
            non_test_binaries: clone_non_test(&self.non_test_binaries),
            linked_paths,
            target_triple: TargetTriple::serialize(self.target_triple.as_ref()),
        };
        proof {
            assert(strs(r.linked_paths@) =~= key_seq(self@.linked_paths));
        }
        r
    }
}

} // verus!
