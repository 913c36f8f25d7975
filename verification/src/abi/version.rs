//! ABI version numbers and their compatibility rule.

use vstd::prelude::*;
use crate::text::{decimal, decimal_chars};

verus! {

/// A `major.minor.patch` ABI version.
#[derive(Debug, Clone, Copy, PartialEq, Eq, Structural)]
pub struct AbiVersion {
    pub major: u16,
    pub minor: u16,
    pub patch: u16,
}

/// The ABI version this toolchain produces: 0.1.0.
pub open spec fn current_version() -> AbiVersion {
    AbiVersion { major: 0, minor: 1, patch: 0 }
}

/// The ABI version this toolchain produces.
pub fn current_abi_version() -> (v: AbiVersion)
    ensures
        v == current_version(),
{
    AbiVersion { major: 0, minor: 1, patch: 0 }
}

/// Whether code built against `other` can be linked by a toolchain at `this`:
/// same major version, and `other` no newer in its minor version.
pub open spec fn versions_compatible(this: AbiVersion, other: AbiVersion) -> bool {
    this.major == other.major && other.minor <= this.minor
}

/// `major.minor.patch` in decimal.
pub open spec fn version_text(v: AbiVersion) -> Seq<char> {
    decimal(v.major as nat) + seq!['.'] + decimal(v.minor as nat) + seq!['.'] + decimal(
        v.patch as nat,
    )
}

impl AbiVersion {
    pub fn new(major: u16, minor: u16, patch: u16) -> (v: Self)
        ensures
            v == (AbiVersion { major, minor, patch }),
    {
        AbiVersion { major, minor, patch }
    }

    pub fn is_compatible_with(self, other: AbiVersion) -> (r: bool)
        ensures
            r == versions_compatible(self, other),
    {
        self.major == other.major && other.minor <= self.minor
    }

    /// The version as `major.minor.patch`.
    pub fn to_text(self) -> (s: Vec<char>)
        ensures
            s@ == version_text(self),
    {
        let mut s = decimal_chars(self.major as u64);
        s.push('.');
        let mut minor = decimal_chars(self.minor as u64);
        s.append(&mut minor);
        s.push('.');
        let mut patch = decimal_chars(self.patch as u64);
        s.append(&mut patch);
        s
    }
}

/// Every version is compatible with itself.
pub proof fn lemma_version_self_compatible(v: AbiVersion)
    ensures
        versions_compatible(v, v),
{
}

} // verus!
