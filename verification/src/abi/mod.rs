pub mod calling_conv;
pub mod header;
pub mod layout;
pub mod mlib;
pub mod stability;
pub mod version;

pub use calling_conv::{AbiTarget, CallingConvention};
pub use header::{current_header, AbiCompatibilityError, AbiHeader, ABI_HEADER_SIZE, ABI_MAGIC};
pub use stability::Stability;
pub use version::{current_abi_version, AbiVersion};
pub use layout::{AbiType, FieldLayout, Layout, StructField, StructLayout, StructMemoryLayout};
