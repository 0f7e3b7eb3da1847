use virtual_fs::detect::{
    contains_str, ExceptionOps, BROAD_PROBE, EXCEPTIONS_PROBE, WASM_DEFAULT_FEATURES, WASM_EXCEPTIONS,
    WASM_RELAXED_SIMD,
};
use wasmparser::WasmFeatures;
use virtual_fs::features::Features;

#[test]
fn default_features() {
    let default = Features::default();
    assert_eq!(
        default,
        Features {
            threads: true,
            reference_types: true,
            simd: true,
            bulk_memory: true,
            multi_value: true,
            tail_call: false,
            module_linking: false,
            multi_memory: false,
            memory64: false,
            exceptions: false,
            legacy_exceptions: false,
            relaxed_simd: false,
            extended_const: true,
            wide_arithmetic: false
        }
    );
}

#[test]
fn features_extend() {
    let all = Features::all();
    let mut target = Features::none();
    target.extend(&all);
    assert_eq!(target, all);
}

#[test]
fn enable_threads() {
    let mut features = Features::new();
    features.bulk_memory(false).threads(true);

    assert!(features.threads);
}

#[test]
fn enable_reference_types() {
    let mut features = Features::new();
    features.bulk_memory(false).reference_types(true);
    assert!(features.reference_types);
    assert!(features.bulk_memory);
}

#[test]
fn enable_simd() {
    let mut features = Features::new();
    features.simd(true);
    assert!(features.simd);
}

#[test]
fn enable_multi_value() {
    let mut features = Features::new();
    features.multi_value(true);
    assert!(features.multi_value);
}

#[test]
fn enable_bulk_memory() {
    let mut features = Features::new();
    features.bulk_memory(true);
    assert!(features.bulk_memory);
}

#[test]
fn disable_bulk_memory() {
    let mut features = Features::new();
    features
        .threads(true)
        .reference_types(true)
        .bulk_memory(false);
    assert!(!features.bulk_memory);
    assert!(!features.reference_types);
}

#[test]
fn enable_tail_call() {
    let mut features = Features::new();
    features.tail_call(true);
    assert!(features.tail_call);
}

#[test]
fn enable_module_linking() {
    let mut features = Features::new();
    features.module_linking(true);
    assert!(features.module_linking);
}

#[test]
fn enable_multi_memory() {
    let mut features = Features::new();
    features.multi_memory(true);
    assert!(features.multi_memory);
}

#[test]
fn enable_memory64() {
    let mut features = Features::new();
    features.memory64(true);
    assert!(features.memory64);
}

#[test]
fn all_and_none_are_uniform() {
    let all = Features::all();
    assert!(all.threads && all.reference_types && all.simd && all.bulk_memory && all.multi_value);
    assert!(all.tail_call && all.module_linking && all.multi_memory && all.memory64 && all.exceptions);
    assert!(all.legacy_exceptions && all.relaxed_simd && all.extended_const && all.wide_arithmetic);
    let none = Features::none();
    assert!(!none.threads && !none.reference_types && !none.simd && !none.bulk_memory && !none.multi_value);
    assert!(!none.tail_call && !none.module_linking && !none.multi_memory && !none.memory64 && !none.exceptions);
    assert!(!none.legacy_exceptions && !none.relaxed_simd && !none.extended_const && !none.wide_arithmetic);
}

#[test]
fn disabling_reference_types_keeps_bulk_memory() {
    let mut features = Features::new();
    features.reference_types(false);
    assert!(!features.reference_types);
    assert!(features.bulk_memory);
}

#[test]
fn remaining_setters_toggle_their_flag() {
    let mut f = Features::none();
    f.relaxed_simd(true).exceptions(true).wide_arithmetic(true).extended_const(true).legacy_exceptions(true);
    assert!(f.relaxed_simd && f.exceptions && f.wide_arithmetic && f.extended_const && f.legacy_exceptions);
    f.relaxed_simd(false).exceptions(false).wide_arithmetic(false).extended_const(false).legacy_exceptions(false);
    assert_eq!(f, Features::none());
}

#[test]
fn contains_features_of_itself_and_of_less() {
    let default = Features::default();
    let (ok, missing) = default.contains_features(&default);
    assert!(ok);
    assert!(missing.is_empty());
    let (ok, missing) = Features::all().contains_features(&default);
    assert!(ok);
    assert!(missing.is_empty());
    let (ok, missing) = default.contains_features(&Features::none());
    assert!(ok);
    assert!(missing.is_empty());
}

#[test]
fn contains_features_names_what_is_missing() {
    let mut have = Features::none();
    have.threads(true);
    let mut required = Features::none();
    required.threads(true).simd(true).memory64(true);
    let (ok, missing) = have.contains_features(&required);
    assert!(!ok);
    assert_eq!(missing, vec!["simd", "memory64"]);
}

#[test]
fn contains_features_reports_missing_wide_arithmetic() {
    let have = Features::none();
    let mut required = Features::none();
    required.wide_arithmetic(true);
    let (ok, missing) = have.contains_features(&required);
    assert!(!ok);
    assert_eq!(missing, vec!["wide_arithmetic"]);
}

#[test]
fn extend_is_a_union() {
    let mut a = Features::none();
    a.threads(true).exceptions(true);
    let mut b = Features::none();
    b.simd(true).exceptions(true);
    let mut ab = a.clone();
    ab.extend(&b);
    let mut ba = b.clone();
    ba.extend(&a);
    assert_eq!(ab, ba);
    assert!(ab.threads && ab.simd && ab.exceptions);
    assert!(!ab.memory64);
    let (ok, _) = ab.contains_features(&a);
    assert!(ok);
    let (ok, _) = ab.contains_features(&b);
    assert!(ok);
    let mut again = ab.clone();
    again.extend(&ab);
    assert_eq!(again, ab);
    let mut with_none = ab.clone();
    with_none.extend(&Features::none());
    assert_eq!(with_none, ab);
}

#[test]
fn substring_search() {
    assert!(contains_str("relaxed simd support is not enabled", "simd"));
    assert!(contains_str("abc", ""));
    assert!(contains_str("abc", "abc"));
    assert!(!contains_str("ab", "abc"));
    assert!(!contains_str("tail calls", "tail  call"));
}

#[test]
fn operators_decide_exception_features() {
    let legacy = ExceptionOps { legacy: true, try_table: false, throw: false };
    let f = Features::from_detection(legacy, Some("exception"), Some("threads"));
    let mut expected = Features::default();
    expected.exceptions(true).legacy_exceptions(true);
    assert_eq!(f, expected);

    let modern = ExceptionOps { legacy: false, try_table: true, throw: false };
    let f = Features::from_detection(modern, None, Some("memory64"));
    let mut expected = Features::default();
    expected.exceptions(true);
    assert_eq!(f, expected);
}

#[test]
fn validation_messages_reveal_features() {
    let none = ExceptionOps { legacy: false, try_table: false, throw: false };
    let f = Features::from_detection(none, Some("exceptions support is not enabled"), None);
    assert!(f.exceptions);
    let f = Features::from_detection(
        none,
        None,
        Some("tail calls support is not enabled; memory64; wide arithmetic; constant expression"),
    );
    assert!(f.tail_call && f.memory64 && f.wide_arithmetic && f.extended_const);
    assert!(!f.exceptions && !f.multi_memory);
    let f = Features::from_detection(none, None, Some("reference types support is not enabled"));
    assert!(f.reference_types && f.bulk_memory);
    let f = Features::from_detection(none, None, Some("relaxed simd support is not enabled"));
    assert!(f.relaxed_simd);
    assert_eq!(Features::from_detection(none, None, None), Features::default());
}

fn module_with_body(body: &[u8]) -> Vec<u8> {
    let mut bytes = vec![0x00, 0x61, 0x73, 0x6d, 0x01, 0x00, 0x00, 0x00];
    bytes.extend_from_slice(&[0x01, 0x04, 0x01, 0x60, 0x00, 0x00]);
    bytes.extend_from_slice(&[0x03, 0x02, 0x01, 0x00]);
    let mut code = vec![0x01, (body.len() + 1) as u8, 0x00];
    code.extend_from_slice(body);
    bytes.push(0x0a);
    bytes.push(code.len() as u8);
    bytes.extend_from_slice(&code);
    bytes
}

#[test]
fn detects_nothing_in_a_plain_module() {
    let none = ExceptionOps { legacy: false, try_table: false, throw: false };
    let module = module_with_body(&[0x0b]);
    assert_eq!(Features::detect_with_validation(none, &module), Features::default());
}

#[test]
fn detects_relaxed_simd_from_validation() {
    let none = ExceptionOps { legacy: false, try_table: false, throw: false };
    let mut body = vec![0xfd, 0x0c];
    body.extend_from_slice(&[0u8; 16]);
    body.extend_from_slice(&[0xfd, 0x0c]);
    body.extend_from_slice(&[0u8; 16]);
    body.extend_from_slice(&[0xfd, 0x80, 0x02, 0x1a, 0x0b]);
    let module = module_with_body(&body);
    let f = Features::detect_with_validation(none, &module);
    let mut expected = Features::default();
    expected.relaxed_simd(true);
    assert_eq!(f, expected);
}

#[test]
fn detects_exceptions_from_validation() {
    let none = ExceptionOps { legacy: false, try_table: false, throw: false };
    let module = module_with_body(&[0x1f, 0x40, 0x00, 0x0b, 0x0b]);
    let f = Features::detect_with_validation(none, &module);
    let mut expected = Features::default();
    expected.exceptions(true);
    assert_eq!(f, expected);
}

#[test]
fn default_proposals_validate_without_detection() {
    let none = ExceptionOps { legacy: false, try_table: false, throw: false };
    let body = [0x42, 0x00, 0x42, 0x00, 0x42, 0x00, 0x42, 0x00, 0xfc, 0x13, 0x1a, 0x1a, 0x0b];
    let module = module_with_body(&body);
    assert_eq!(Features::detect_with_validation(none, &module), Features::default());
}

#[test]
fn probe_feature_sets_match_wasmparser() {
    assert_eq!(WasmFeatures::default().bits(), WASM_DEFAULT_FEATURES);
    let mut probe = WasmFeatures::default();
    probe.set(WasmFeatures::BULK_MEMORY, true);
    probe.set(WasmFeatures::REFERENCE_TYPES, true);
    probe.set(WasmFeatures::SIMD, true);
    probe.set(WasmFeatures::MULTI_VALUE, true);
    probe.set(WasmFeatures::THREADS, true);
    probe.set(WasmFeatures::TAIL_CALL, true);
    probe.set(WasmFeatures::MULTI_MEMORY, true);
    probe.set(WasmFeatures::MEMORY64, true);
    probe.set(WasmFeatures::EXCEPTIONS, false);
    assert_eq!(probe.bits(), EXCEPTIONS_PROBE);
    let mut broad = WasmFeatures::default();
    broad.set(WasmFeatures::EXCEPTIONS, true);
    broad.set(WasmFeatures::BULK_MEMORY, true);
    broad.set(WasmFeatures::REFERENCE_TYPES, true);
    broad.set(WasmFeatures::SIMD, true);
    broad.set(WasmFeatures::MULTI_VALUE, true);
    broad.set(WasmFeatures::THREADS, true);
    broad.set(WasmFeatures::TAIL_CALL, true);
    broad.set(WasmFeatures::MULTI_MEMORY, true);
    broad.set(WasmFeatures::MEMORY64, true);
    broad.set(WasmFeatures::RELAXED_SIMD, false);
    assert_eq!(broad.bits(), BROAD_PROBE);
    assert_eq!(WasmFeatures::EXCEPTIONS.bits(), WASM_EXCEPTIONS);
    assert_eq!(WasmFeatures::RELAXED_SIMD.bits(), WASM_RELAXED_SIMD);
}

#[test]
fn detect_from_wasm_scans_operators() {
    let module = module_with_body(&[0x1f, 0x40, 0x00, 0x0b, 0x0b]);
    let mut expected = Features::default();
    expected.exceptions(true);
    assert_eq!(Features::detect_from_wasm(&module).unwrap(), expected);

    let plain = module_with_body(&[0x0b]);
    assert_eq!(Features::detect_from_wasm(&plain).unwrap(), Features::default());

    assert!(Features::detect_from_wasm(b"\0asm\x01\0\0\0\x0a\xff").is_err());
}

#[test]
fn legacy_exception_operators_are_detected() {
    // `try` (empty block type) `end`, then the function's `end`.
    let module = module_with_body(&[0x06, 0x40, 0x0b, 0x0b]);
    let mut expected = Features::default();
    expected.exceptions(true).legacy_exceptions(true);
    assert_eq!(Features::detect_from_wasm(&module).unwrap(), expected);
}
