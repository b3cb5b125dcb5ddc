//! The persisted summary form of the build metadata.
use vstd::prelude::*;
use crate::binary::{BinView, RustNonTestBinarySummary};
use crate::meta::{non_test_view, opt_text};
use crate::sorted::strs;

verus! {

/// The serializable projection of the metadata. Linked paths are kept without
/// the packages that asked for them.
#[derive(Clone, Debug, PartialEq, Eq)]
pub struct RustBuildMetaSummary {
    /// The target directory for build artifacts.
    pub target_directory: String,
    /// Base output directories, relative to the target directory.
    pub base_output_directories: Vec<String>,
    /// Non-test binaries, keyed by package identifier.
    pub non_test_binaries: Vec<(String, Vec<RustNonTestBinarySummary>)>,
    /// Linked paths, relative to the target directory.
    pub linked_paths: Vec<String>,
    /// The target triple in its textual form, if any.
    pub target_triple: Option<String>,
}

/// The mathematical content of a summary.
pub struct SummaryView {
    pub target_directory: Seq<char>,
    pub base_output_directories: Seq<Seq<char>>,
    pub non_test_binaries: Seq<(Seq<char>, Seq<BinView>)>,
    pub linked_paths: Seq<Seq<char>>,
    pub target_triple: Option<Seq<char>>,
}

impl View for RustBuildMetaSummary {
    type V = SummaryView;

    open spec fn view(&self) -> SummaryView {
        SummaryView {
            target_directory: self.target_directory@,
            base_output_directories: strs(self.base_output_directories@),
            non_test_binaries: non_test_view(self.non_test_binaries@),
            linked_paths: strs(self.linked_paths@),
            target_triple: opt_text(self.target_triple),
        }
    }
}

} // verus!
