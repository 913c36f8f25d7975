use inscribe::abi::{AbiTarget, AbiType, CallingConvention, Stability, StructField, StructLayout};
use inscribe::ast::{Literal, Path, Pattern, PatternKind, Position, Span};
use inscribe::comptime::{
    is_whitespace, split_constructor_pattern, ComptimeError,
    InterpreterConfig,
};
use inscribe::ffi::{
    abi_type_eq, ExternBlock, ExternFunction, ExternParam, FfiTypeMap, OwnershipBridge,
    OwnershipPolicy, OwnershipRule, SandboxPolicy, SandboxedExternBlock,
};
use inscribe::hir::{literal_display, pattern_display};
use inscribe::text::{parse_i64, str_contains, str_eq_ignore_ascii_case};

fn int_param(name: &str) -> ExternParam {
    ExternParam {
        name: name.to_string(),
        ty: AbiType::Int,
    }
}

fn function(name: &str, params: Vec<ExternParam>, return_type: AbiType) -> ExternFunction {
    ExternFunction {
        name: name.to_string(),
        params,
        return_type,
        calling_convention: CallingConvention::C,
        stability: Stability::Stable,
    }
}

#[test]
fn validates_stable_extern_block() {
    let block = ExternBlock::stable_c(
        "math",
        AbiTarget::WindowsX86_64,
        vec![ExternFunction {
            name: "add".to_string(),
            params: vec![
                ExternParam {
                    name: "left".to_string(),
                    ty: AbiType::Int,
                },
                ExternParam {
                    name: "right".to_string(),
                    ty: AbiType::Int,
                },
            ],
            return_type: AbiType::Int,
            calling_convention: CallingConvention::C,
            stability: Stability::Stable,
        }],
    );

    block
        .validate_against(&FfiTypeMap::default())
        .expect("stable C ABI should validate");
}

#[test]
fn ownership_bridge_rejects_copying_pointers() {
    let function = ExternFunction {
        name: "consume_ptr".to_string(),
        params: vec![ExternParam {
            name: "ptr".to_string(),
            ty: AbiType::Pointer,
        }],
        return_type: AbiType::Unit,
        calling_convention: CallingConvention::C,
        stability: Stability::Stable,
    };
    let bridge = OwnershipBridge {
        params: vec![OwnershipRule {
            ty: AbiType::Pointer,
            policy: OwnershipPolicy::Copy,
        }],
        return_rule: None,
    };

    let error = bridge
        .validate_for(&function)
        .expect_err("copying pointers across FFI should be rejected");
    assert!(error.message.contains("pointer values"));
}

#[test]
fn sandbox_policy_rejects_nondeterministic_capabilities() {
    let block = ExternBlock::stable_c("sandbox", AbiTarget::LinuxX86_64, Vec::new());
    let sandboxed = SandboxedExternBlock {
        block,
        policy: SandboxPolicy {
            allow_network: true,
            ..SandboxPolicy::default()
        },
    };

    let error = sandboxed
        .validate()
        .expect_err("network access should violate deterministic sandboxing");
    assert!(error.message.contains("deterministic"));
}

#[test]
fn type_map_accepts_nested_struct_layouts() {
    let mut types = FfiTypeMap::default();
    types.insert(
        "Pair",
        AbiType::Struct(StructLayout::new(
            "Pair",
            vec![
                StructField {
                    name: "left".to_string(),
                    ty: AbiType::Int,
                },
                StructField {
                    name: "right".to_string(),
                    ty: AbiType::Int,
                },
            ],
        )),
    );

    assert!(types.supports_abi_type(
        types
            .resolve("Pair")
            .expect("custom type should be present")
    ));
}

#[test]
fn extern_blocks_report_their_faults() {
    let mut windows_only = function("f", vec![int_param("a")], AbiType::Int);
    windows_only.calling_convention = CallingConvention::Win64;
    let block = ExternBlock::stable_c("lib", AbiTarget::LinuxX86_64, vec![windows_only]);
    let error = block.validate().expect_err("a foreign convention is refused");
    assert!(error.message.starts_with("function `f` uses incompatible calling convention"));

    let mut experimental = function("g", Vec::new(), AbiType::Unit);
    experimental.stability = Stability::Experimental;
    let block = ExternBlock::stable_c("lib", AbiTarget::LinuxX86_64, vec![experimental]);
    assert_eq!(
        block.validate().unwrap_err().message,
        "function `g` is not stable enough for FFI export"
    );

    let fine = ExternBlock::stable_c(
        "lib",
        AbiTarget::LinuxX86_64,
        vec![function("f", vec![int_param("a")], AbiType::Int)],
    );
    assert_eq!(fine.validate(), Ok(()));
    assert_eq!(fine.header.calling_convention, CallingConvention::C);
    assert_eq!(fine.header.stability, Stability::Stable);
}

#[test]
fn type_maps_replace_and_compare() {
    let mut types = FfiTypeMap::default();
    assert!(types.resolve("int").is_some());
    assert!(types.resolve("Missing").is_none());
    assert_eq!(types.insert("Handle", AbiType::Pointer), None);
    assert_eq!(types.insert("Handle", AbiType::Int), Some(AbiType::Pointer));
    assert_eq!(types.resolve("Handle"), Some(&AbiType::Int));
    assert!(abi_type_eq(&AbiType::Int, &AbiType::Int));
    assert!(!abi_type_eq(&AbiType::Int, &AbiType::Bool));
    assert!(abi_type_eq(
        &AbiType::Result(Box::new(AbiType::Int), Box::new(AbiType::Error)),
        &AbiType::Result(Box::new(AbiType::Int), Box::new(AbiType::Error)),
    ));
}

#[test]
fn default_policies() {
    assert_eq!(
        SandboxPolicy::default(),
        SandboxPolicy {
            allow_filesystem: false,
            allow_network: false,
            allow_process: false,
            deterministic_only: true,
        }
    );
    let bridge = OwnershipBridge::default();
    assert!(bridge.params.is_empty());
    assert!(bridge.return_rule.is_none());
    let plain = function("f", Vec::new(), AbiType::Int);
    assert_eq!(bridge.validate_for(&plain), Ok(()));
    let with_param = function("f", vec![int_param("a")], AbiType::Int);
    assert_eq!(
        bridge.validate_for(&with_param).unwrap_err().message,
        "ownership bridge for `f` expects 1 params, found 0"
    );
}

#[test]
fn constructor_patterns_split_into_parts() {
    assert_eq!(
        split_constructor_pattern(" Some ( 1 , x ) ".trim()),
        Some(("Some".to_string(), vec!["1".to_string(), "x".to_string()]))
    );
    assert_eq!(
        split_constructor_pattern("Unit( )"),
        Some(("Unit".to_string(), Vec::new()))
    );
    assert_eq!(
        split_constructor_pattern("Pair(a,,b)"),
        Some((
            "Pair".to_string(),
            vec!["a".to_string(), String::new(), "b".to_string()]
        ))
    );
    assert_eq!(split_constructor_pattern("None"), None);
    assert_eq!(split_constructor_pattern("Some(1"), None);
}

#[test]
fn comptime_names_and_settings() {
    assert!(is_whitespace('\u{3000}'));
    assert!(!is_whitespace('x'));
    assert_eq!(
        InterpreterConfig::default(),
        InterpreterConfig {
            max_steps: 100_000,
            max_call_depth: 128,
        }
    );
    assert_eq!(ComptimeError::new("boom").message, "boom");
}

#[test]
fn patterns_are_displayed_as_source() {
    let span = Span::empty(Position::new(0, 1, 1));
    let path = Path::new(vec!["Shape".to_string(), "Rect".to_string()], span);
    let pattern = Pattern::new(
        PatternKind::Constructor {
            path,
            arguments: vec![
                Pattern::new(PatternKind::Binding("w".to_string()), span),
                Pattern::new(PatternKind::Wildcard, span),
                Pattern::new(PatternKind::Literal(Literal::Bool(true)), span),
            ],
        },
        span,
    );
    assert_eq!(pattern_display(&pattern), "Shape.Rect(w, _, true)");
    assert_eq!(literal_display(&Literal::Integer("42".to_string())), "42");
    assert_eq!(literal_display(&Literal::Bool(false)), "false");
}

#[test]
fn paths_and_spans() {
    let a = Span::new(Position::new(0, 1, 1), Position::new(2, 1, 3));
    let b = Span::new(Position::new(5, 1, 6), Position::new(9, 1, 10));
    assert_eq!(a.join(b), Span::new(a.start, b.end));
    let path = Path::new(vec!["io".to_string(), "file".to_string()], a);
    assert_eq!(path.first(), Some("io"));
    assert_eq!(path.last(), Some("file"));
    assert_eq!(path.segment_span(1), Some(a));
    assert_eq!(path.segment_span(2), None);
    let spans = Path::with_segment_spans(vec!["x".to_string()], vec![b], a);
    assert_eq!(spans.segment_span(0), Some(b));
}

#[test]
fn integers_parse_like_std() {
    assert_eq!(parse_i64("42"), Some(42));
    assert_eq!(parse_i64("+7"), Some(7));
    assert_eq!(parse_i64("-9223372036854775808"), Some(i64::MIN));
    assert_eq!(parse_i64("9223372036854775808"), None);
    assert_eq!(parse_i64("-"), None);
    assert_eq!(parse_i64(""), None);
    assert_eq!(parse_i64("1_000"), None);
    assert!(str_contains("native codegen", "code"));
    assert!(!str_contains("abc", "abcd"));
    assert!(str_eq_ignore_ascii_case("SmTl", "smtl"));
}
