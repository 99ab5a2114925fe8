//! Review of the build scripts that a dependency tree would run, and the
//! ledger of trust decisions taken over their contents.
use vstd::prelude::*;

pub mod answer;
pub mod cargo;
pub mod codec;
pub mod digest;
pub mod ledger;
pub mod metadata;
pub mod review;
pub mod roundtrip;
mod text;

pub use ledger::{BuildTrustStore, TrustRecord};
pub use metadata::{Metadata, PackageMetadata, PackageTarget};

verus! {

/// Name of the log file that the archive keeps out of version control.
pub const GITIGNORE: &'static str = "audit_build.log";

/// Name of the ledger file inside the archive.
pub const JSON_CACHE: &'static str = "trust_store.json";

} // verus!
