//! The parts of a dependency tree's metadata that locate build scripts.
use vstd::prelude::*;

use crate::text::str_eq;

verus! {

/// The packages of a dependency tree.
pub struct Metadata {
    pub packages: Vec<PackageMetadata>,
}

/// One package: its name, version and build targets.
pub struct PackageMetadata {
    pub name: String,
    pub version: String,
    pub targets: Vec<PackageTarget>,
}

/// One build target: its kinds and its source file.
pub struct PackageTarget {
    pub kind: Vec<String>,
    pub src_path: String,
}

/// The target kind of a build script.
pub open spec fn custom_build() -> Seq<char> {
    seq!['c', 'u', 's', 't', 'o', 'm', '-', 'b', 'u', 'i', 'l', 'd']
}

impl PackageTarget {
    /// Whether the target is a build script.
    pub open spec fn is_build(&self) -> bool {
        exists|j: int| 0 <= j < self.kind.len() && self.kind[j]@ == custom_build()
    }

    /// Whether one of the target's kinds is `custom-build`.
    pub fn is_custom_build(&self) -> (r: bool)
        ensures
            r == self.is_build(),
    {
        let mut j: usize = 0;
        while j < self.kind.len()
            invariant
                j <= self.kind.len(),
                forall|k: int| 0 <= k < j ==> self.kind[k]@ != custom_build(),
            decreases self.kind.len() - j,
        {
            let eq = str_eq(self.kind[j].as_str(), "custom-build");
            proof {
                reveal_strlit("custom-build");
                assert("custom-build"@ =~= custom_build());
            }
            if eq {
                return true;
            }
            j += 1;
        }
        false
    }
}

impl PackageMetadata {
    /// Whether one of the package's targets is a build script.
    pub open spec fn has_build_script(&self) -> bool {
        exists|i: int| 0 <= i < self.targets.len() && self.targets[i].is_build()
    }

    /// Whether one of the package's targets is a build script.
    pub fn has_build_target(&self) -> (r: bool)
        ensures
            r == self.has_build_script(),
    {
        let mut i: usize = 0;
        while i < self.targets.len()
            invariant
                i <= self.targets.len(),
                forall|k: int| 0 <= k < i ==> !self.targets[k].is_build(),
            decreases self.targets.len() - i,
        {
            if self.targets[i].is_custom_build() {
                return true;
            }
            i += 1;
        }
        false
    }

    /// The package identity `name@version`.
    pub open spec fn id_view(&self) -> Seq<char> {
        self.name@ + seq!['@'] + self.version@
    }

    /// The package identity `name@version`.
    pub fn package_id(&self) -> (r: String)
        ensures
            r@ == self.id_view(),
    {
        let r = String::from_str(self.name.as_str()).concat("@").concat(self.version.as_str());
        proof {
            reveal_strlit("@");
            assert("@"@ =~= seq!['@']);
        }
        r
    }

    /// The source file of the package's first build-script target.
    pub fn build_script(&self) -> (r: String)
        requires
            self.has_build_script(),
        ensures
            exists|i: int|
                0 <= i < self.targets.len() && self.targets[i].is_build() && (forall|k: int|
                    0 <= k < i ==> !self.targets[k].is_build()) && r@ == self.targets[i].src_path@,
    {
        let mut i: usize = 0;
        while i < self.targets.len()
            invariant
                i <= self.targets.len(),
                self.has_build_script(),
                forall|k: int| 0 <= k < i ==> !self.targets[k].is_build(),
            decreases self.targets.len() - i,
        {
            if self.targets[i].is_custom_build() {
                return self.targets[i].src_path.clone();
            }
            i += 1;
        }
        proof {
            let k = choose|k: int| 0 <= k < self.targets.len() && self.targets[k].is_build();
            assert(!self.targets[k].is_build());
        }
        String::new()
    }
}

} // verus!
