//! Targets and calling conventions of the ABI.

use vstd::prelude::*;

verus! {

#[derive(Debug, Clone, Copy, PartialEq, Eq, Hash, Structural)]
pub enum AbiTarget {
    LinuxX86_64,
    WindowsX86_64,
}

impl AbiTarget {
    pub fn pointer_width(self) -> (r: u8)
        ensures
            r == 64,
    {
        64
    }

    pub fn pointer_size(self) -> (r: u32)
        ensures
            r == 8,
    {
        8
    }
}

#[derive(Debug, Clone, Copy, PartialEq, Eq, Hash, Structural)]
pub enum CallingConvention {
    Mantelogue,
    C,
    SystemV64,
    Win64,
}

/// The native calling convention of a target.
pub open spec fn target_convention(target: AbiTarget) -> CallingConvention {
    match target {
        AbiTarget::LinuxX86_64 => CallingConvention::SystemV64,
        AbiTarget::WindowsX86_64 => CallingConvention::Win64,
    }
}

impl CallingConvention {
    pub fn for_target(target: AbiTarget) -> (r: Self)
        ensures
            r == target_convention(target),
    {
        match target {
            AbiTarget::LinuxX86_64 => CallingConvention::SystemV64,
            AbiTarget::WindowsX86_64 => CallingConvention::Win64,
        }
    }

    pub fn preserves_rbx(self) -> (r: bool)
        ensures
            r,
    {
        true
    }

    pub fn stack_shadow_space(self) -> (r: u32)
        ensures
            r == (if self is Win64 { 32u32 } else { 0u32 }),
    {
        match self {
            CallingConvention::Win64 => 32,
            CallingConvention::Mantelogue | CallingConvention::C | CallingConvention::SystemV64 => 0,
        }
    }
}

} // verus!
