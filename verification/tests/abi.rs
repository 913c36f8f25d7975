use inscribe::abi::mlib::{MlibExport, MlibExportKind, MlibFile};
use inscribe::abi::{
    current_abi_version, current_header, AbiHeader, AbiTarget, AbiType, AbiVersion,
    CallingConvention, Layout, Stability, StructField, StructLayout,
};

#[test]
fn abi_header_round_trips() {
    let header = current_header(AbiTarget::WindowsX86_64, Stability::Stable);
    let bytes = header.to_bytes();
    let decoded = AbiHeader::from_bytes(bytes).expect("header should decode");

    assert_eq!(decoded, header);
    assert!(decoded.is_compatible_with_current());
}

#[test]
fn abi_target_uses_expected_calling_convention() {
    assert_eq!(
        current_header(AbiTarget::LinuxX86_64, Stability::Experimental).calling_convention,
        CallingConvention::SystemV64
    );
    assert_eq!(
        current_header(AbiTarget::WindowsX86_64, Stability::Stable).calling_convention,
        CallingConvention::Win64
    );
}

#[test]
fn struct_layout_tracks_offsets() {
    let layout = StructLayout::new(
        "Pair",
        vec![
            StructField {
                name: "flag".to_string(),
                ty: AbiType::Bool,
            },
            StructField {
                name: "value".to_string(),
                ty: AbiType::Int,
            },
        ],
    )
    .memory_layout();

    assert_eq!(layout.layout, Layout::new(16, 8));
    assert_eq!(layout.field("flag").expect("flag field").offset, 0);
    assert_eq!(layout.field("value").expect("value field").offset, 8);
}

#[test]
fn result_layout_reserves_tag_and_payload() {
    let layout = AbiType::Result(Box::new(AbiType::Bool), Box::new(AbiType::Int)).layout();

    assert_eq!(layout, Layout::new(16, 8));
}

#[test]
fn current_version_is_self_compatible() {
    assert!(current_abi_version().is_compatible_with(current_abi_version()));
}

#[test]
fn stable_header_is_link_compatible() {
    let header = current_header(AbiTarget::LinuxX86_64, Stability::Stable);
    header
        .ensure_link_compatible(AbiTarget::LinuxX86_64, true)
        .expect("stable header should be link-compatible");
}

#[test]
fn unstable_header_is_rejected_for_stable_linking() {
    let header = current_header(AbiTarget::LinuxX86_64, Stability::Experimental);
    let error = header
        .ensure_link_compatible(AbiTarget::LinuxX86_64, true)
        .expect_err("experimental headers should be rejected");

    assert!(error.message.contains("not allowed for external linking"));
}

#[test]
fn header_bytes_start_with_magic_and_version() {
    let header = current_header(AbiTarget::LinuxX86_64, Stability::Stable);
    let bytes = header.to_bytes();
    assert_eq!(&bytes[0..8], b"INSCRIBE");
    assert_eq!(bytes.len(), 24);
    let version = current_abi_version();
    assert_eq!(version, AbiVersion::new(0, 1, 0));
    assert_eq!(version.to_text().iter().collect::<String>(), "0.1.0");
}

#[test]
fn header_with_wrong_magic_is_refused() {
    let header = current_header(AbiTarget::LinuxX86_64, Stability::Stable);
    let mut bytes = header.to_bytes();
    bytes[0] = b'X';
    let decoded = AbiHeader::from_bytes(bytes).expect("the magic is not checked when decoding");
    assert!(!decoded.is_compatible_with_current());
    bytes[14] = 9;
    assert!(AbiHeader::from_bytes(bytes).is_none());
}

#[test]
fn link_check_rejects_other_target() {
    let header = current_header(AbiTarget::LinuxX86_64, Stability::Stable);
    assert!(header
        .ensure_link_compatible(AbiTarget::WindowsX86_64, false)
        .is_err());
    assert!(header
        .ensure_link_compatible(AbiTarget::LinuxX86_64, false)
        .is_ok());
}

#[test]
fn version_compatibility_needs_same_major_and_older_minor() {
    let current = AbiVersion::new(1, 4, 0);
    assert!(current.is_compatible_with(AbiVersion::new(1, 2, 9)));
    assert!(!current.is_compatible_with(AbiVersion::new(1, 5, 0)));
    assert!(!current.is_compatible_with(AbiVersion::new(2, 0, 0)));
}

#[test]
fn stability_levels() {
    assert!(Stability::Stable.is_stable());
    assert!(!Stability::Experimental.is_stable());
    assert!(!Stability::Internal.is_public());
    assert_eq!(Stability::Experimental.display_name(), "experimental");
}

#[test]
fn layouts_of_scalars_and_structs() {
    assert_eq!(AbiType::Unit.layout(), Layout::new(0, 1));
    assert_eq!(AbiType::Int.layout(), Layout::new(8, 8));
    assert_eq!(AbiType::Bool.layout(), Layout::new(1, 1));
    let nested = StructLayout::new(
        "Outer",
        vec![
            StructField {
                name: "a".to_string(),
                ty: AbiType::Bool,
            },
            StructField {
                name: "b".to_string(),
                ty: AbiType::Bool,
            },
        ],
    )
    .memory_layout();
    assert_eq!(nested.layout, Layout::new(2, 1));
    assert_eq!(nested.field("b").expect("b").offset, 1);
    assert!(nested.field("c").is_none());
}

#[test]
fn mlib_round_trips() {
    let exports = vec![MlibExport {
        name: "main".to_string(),
        kind: MlibExportKind::Function,
        address: 16,
        signature: Some(vec![1, 2, 3]),
    }];
    let file = MlibFile::new(AbiTarget::LinuxX86_64, exports, vec![0x90, 0xc3], vec![7]);
    let bytes = file.to_bytes();
    assert_eq!(&bytes[0..4], b"MLIB");
    let decoded = MlibFile::from_bytes(&bytes).expect("library should decode");
    assert_eq!(decoded, file);
    assert_eq!(decoded.code, vec![0x90, 0xc3]);
}

#[test]
fn checked_reading_refuses_overflowing_headers() {
    let file = MlibFile::new(AbiTarget::LinuxX86_64, Vec::new(), vec![0xc3], Vec::new());
    let mut bytes = file.to_bytes();
    assert_eq!(MlibFile::from_bytes_checked(&bytes), Some(file));
    assert!(MlibFile::from_bytes_checked(&bytes[..40]).is_none());
    for byte in &mut bytes[62..70] {
        *byte = 0xff;
    }
    bytes[70] = 1;
    assert!(MlibFile::from_bytes_checked(&bytes).is_none());
}
