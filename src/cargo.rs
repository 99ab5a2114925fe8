//! Selection of the packages that carry build scripts.
use vstd::prelude::*;

use crate::metadata::{Metadata, PackageMetadata};

verus! {

/// Whether a package carries a build script.
pub open spec fn carries_build_script() -> spec_fn(PackageMetadata) -> bool {
    |p: PackageMetadata| p.has_build_script()
}

/// The packages that carry a build script, in their order.
pub open spec fn build_packages(packages: Seq<PackageMetadata>) -> Seq<PackageMetadata> {
    packages.filter(carries_build_script())
}

/// The packages of `meta` that carry a build script, in their order.
pub fn find_build_rs(meta: &Metadata) -> (r: Vec<&PackageMetadata>)
    ensures
        r@.map_values(|p: &PackageMetadata| *p) == build_packages(meta.packages@),
{
    let ghost pred = carries_build_script();
    let mut out: Vec<&PackageMetadata> = Vec::new();
    let mut i: usize = 0;
    assert(meta.packages@.take(0).filter(pred) =~= Seq::<PackageMetadata>::empty()) by {
        reveal(Seq::filter);
    }
    assert(out@.map_values(|p: &PackageMetadata| *p) =~= Seq::<PackageMetadata>::empty());
    while i < meta.packages.len()
        invariant
            i <= meta.packages.len(),
            pred == carries_build_script(),
            out@.map_values(|p: &PackageMetadata| *p) == meta.packages@.take(i as int).filter(pred),
        decreases meta.packages.len() - i,
    {
        let pkg = &meta.packages[i];
        let found = pkg.has_build_target();
        proof {
            reveal(Seq::filter);
            assert(meta.packages@.take(i + 1).drop_last() =~= meta.packages@.take(i as int));
        }
        let ghost before = out@;
        if found {
            out.push(pkg);
            assert(out@.map_values(|p: &PackageMetadata| *p) =~= before.map_values(
                |p: &PackageMetadata| *p,
            ).push(*pkg));
        }
        i += 1;
    }
    assert(meta.packages@.take(i as int) =~= meta.packages@);
    out
}

} // verus!
