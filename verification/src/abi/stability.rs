//! Stability levels of ABI surfaces.

use vstd::prelude::*;
use super::version::AbiVersion;

verus! {

#[derive(Debug, Clone, PartialEq, Eq)]
pub enum Stability {
    Experimental,
    Stable,
    Deprecated { since: AbiVersion, note: String },
    Internal,
}

/// The lower-case name of a stability level, as used on the command line.
pub open spec fn stability_name(s: Stability) -> Seq<char> {
    match s {
        Stability::Experimental => seq!['e', 'x', 'p', 'e', 'r', 'i', 'm', 'e', 'n', 't', 'a', 'l'],
        Stability::Stable => seq!['s', 't', 'a', 'b', 'l', 'e'],
        Stability::Deprecated { .. } => seq!['d', 'e', 'p', 'r', 'e', 'c', 'a', 't', 'e', 'd'],
        Stability::Internal => seq!['i', 'n', 't', 'e', 'r', 'n', 'a', 'l'],
    }
}

impl Stability {
    pub fn is_public(&self) -> (r: bool)
        ensures
            r == !(self is Internal),
    {
        !matches!(self, Stability::Internal)
    }

    pub fn is_stable(&self) -> (r: bool)
        ensures
            r == (self is Stable || self is Deprecated),
    {
        matches!(self, Stability::Stable | Stability::Deprecated { .. })
    }

    /// Whether surfaces at this level may be linked from outside the toolchain:
    /// exactly the stable levels (stable and deprecated).
    pub fn allows_external_linking(&self) -> (r: bool)
        ensures
            r == (self is Stable || self is Deprecated),
    {
        self.is_stable()
    }

    pub fn display_name(&self) -> (r: &'static str)
        ensures
            r@ == stability_name(*self),
    {
        proof {
            reveal_strlit("experimental");
            reveal_strlit("stable");
            reveal_strlit("deprecated");
            reveal_strlit("internal");
        }
        match self {
            Stability::Experimental => "experimental",
            Stability::Stable => "stable",
            Stability::Deprecated { .. } => "deprecated",
            Stability::Internal => "internal",
        }
    }
}

} // verus!
