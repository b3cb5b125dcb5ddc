//! Build-artifact metadata shared between binary discovery and test execution:
//! where artifacts live, which directories hold shared libraries, and which
//! non-test binaries were built. Metadata moves from the discovery phase to the
//! execution phase by a path mapping, and only in the execution phase does it
//! give the dynamic library search path.
pub mod binary;
pub mod laws;
pub mod meta;
pub mod order;
pub mod paths;
pub mod sorted;
pub mod summary;

pub use binary::RustNonTestBinarySummary;
pub use meta::{BinaryListState, PathMapper, RustBuildMeta, TargetTriple, TestListState};
pub use summary::RustBuildMetaSummary;
