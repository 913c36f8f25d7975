//! The targets the native back end produces code for.

use vstd::prelude::*;

verus! {

#[derive(Debug, Clone, Copy, PartialEq, Eq, Structural)]
pub enum Architecture {
    X86_64,
}

#[derive(Debug, Clone, Copy, PartialEq, Eq, Structural)]
pub enum OperatingSystem {
    Linux,
    Windows,
}

#[derive(Debug, Clone, Copy, PartialEq, Eq, Structural)]
pub enum ExecutableFormat {
    Elf64,
    Pe64,
}

#[derive(Debug, Clone, Copy, PartialEq, Eq, Structural)]
pub struct Target {
    pub arch: Architecture,
    pub os: OperatingSystem,
}

impl Target {
    pub fn linux_x86_64() -> (t: Self)
        ensures
            t == (Target { arch: Architecture::X86_64, os: OperatingSystem::Linux }),
    {
        Target { arch: Architecture::X86_64, os: OperatingSystem::Linux }
    }

    pub fn windows_x86_64() -> (t: Self)
        ensures
            t == (Target { arch: Architecture::X86_64, os: OperatingSystem::Windows }),
    {
        Target { arch: Architecture::X86_64, os: OperatingSystem::Windows }
    }

    /// ELF on Linux, PE on Windows.
    pub fn executable_format(self) -> (f: ExecutableFormat)
        ensures
            f == (match self.os {
                OperatingSystem::Linux => ExecutableFormat::Elf64,
                OperatingSystem::Windows => ExecutableFormat::Pe64,
            }),
    {
        match self.os {
            OperatingSystem::Linux => ExecutableFormat::Elf64,
            OperatingSystem::Windows => ExecutableFormat::Pe64,
        }
    }

    /// The symbol the loader starts the program at.
    pub fn entry_symbol(self) -> (s: &'static str)
        ensures
            s@ == (match self.os {
                OperatingSystem::Linux => "_start"@,
                OperatingSystem::Windows => "mainCRTStartup"@,
            }),
    {
        proof {
            reveal_strlit("_start");
            reveal_strlit("mainCRTStartup");
        }
        match self.os {
            OperatingSystem::Linux => "_start",
            OperatingSystem::Windows => "mainCRTStartup",
        }
    }

    /// The file extension of executables for the target.
    pub fn executable_extension(self) -> (s: &'static str)
        ensures
            s@ == (match self.os {
                OperatingSystem::Linux => "elf"@,
                OperatingSystem::Windows => "exe"@,
            }),
    {
        proof {
            reveal_strlit("elf");
            reveal_strlit("exe");
        }
        match self.os {
            OperatingSystem::Linux => "elf",
            OperatingSystem::Windows => "exe",
        }
    }
}

} // verus!
