use vstd::prelude::*;
use wasmparser::{BinaryReaderError, Operator, Parser, Payload, Validator, WasmFeatures};
use crate::features::{default_features, Features};

verus! {

/// Which exception-handling operators the code of a module uses.
#[derive(Clone, Copy, Debug, PartialEq, Eq, Structural)]
pub struct ExceptionOps {
    /// `try`, `catch`, `catch_all`, `rethrow` or `delegate` (the legacy proposal).
    pub legacy: bool,
    /// `try_table`.
    pub try_table: bool,
    /// `throw` or `throw_ref`.
    pub throw: bool,
}

/// An operator of a module's code, as far as exception handling tells
/// operators apart.
#[derive(Clone, Copy, Debug, PartialEq, Eq, Structural)]
pub enum CodeOp {
    Try,
    Catch,
    Rethrow,
    Delegate,
    CatchAll,
    TryTable,
    Throw,
    ThrowRef,
    Other,
}

#[verifier::external_type_specification]
#[verifier::external_body]
pub struct ExBinaryReaderError(BinaryReaderError);

/// The operators of every function body of a module (nested modules
/// included), in the order wasmparser parses them, or `None` when parsing the
/// module fails.
pub uninterp spec fn wasm_code_ops(bytes: Seq<u8>) -> Option<Seq<CodeOp>>;

/// `Parser::parse_all`, then `FunctionBody::get_operators_reader` on each
/// code section entry: every operator of the module's code, told apart as far
/// as exception handling goes, or the parse error met first.
#[verifier::external_body]
fn code_ops(wasm_bytes: &[u8]) -> (r: Result<Vec<CodeOp>, BinaryReaderError>)
    ensures
        r is Ok <==> wasm_code_ops(wasm_bytes@) is Some,
        r matches Ok(v) ==> wasm_code_ops(wasm_bytes@) == Some(v@),
{
    let mut ops = Vec::new();
    for payload in Parser::new(0).parse_all(wasm_bytes) {
        if let Payload::CodeSectionEntry(body) = payload? {
            for op in body.get_operators_reader()? {
                ops.push(match op? {
                    Operator::Try { .. } => CodeOp::Try, Operator::Catch { .. } => CodeOp::Catch,
                    Operator::Rethrow { .. } => CodeOp::Rethrow, Operator::Delegate { .. } => CodeOp::Delegate,
                    Operator::CatchAll => CodeOp::CatchAll, Operator::TryTable { .. } => CodeOp::TryTable,
                    Operator::Throw { .. } => CodeOp::Throw, Operator::ThrowRef => CodeOp::ThrowRef, _ => CodeOp::Other,
                });
            }
        }
    }
    Ok(ops)
}

/// An operator of the legacy exception-handling proposal.
pub open spec fn is_legacy_op(o: CodeOp) -> bool {
    o is Try || o is Catch || o is Rethrow || o is Delegate || o is CatchAll
}

/// An operator that throws.
pub open spec fn is_throw_op(o: CodeOp) -> bool {
    o is Throw || o is ThrowRef
}

/// Which exception operators a sequence of operators uses.
pub open spec fn exception_ops_of(ops: Seq<CodeOp>) -> ExceptionOps {
    ExceptionOps {
        legacy: exists|i: int| 0 <= i < ops.len() && is_legacy_op(#[trigger] ops[i]),
        try_table: exists|i: int| 0 <= i < ops.len() && #[trigger] ops[i] == CodeOp::TryTable,
        throw: exists|i: int| 0 <= i < ops.len() && is_throw_op(#[trigger] ops[i]),
    }
}

/// Which exception operators `ops` uses.
pub fn exception_ops(ops: &Vec<CodeOp>) -> (r: ExceptionOps)
    ensures
        r == exception_ops_of(ops@),
{
    let mut legacy = false;
    let mut try_table = false;
    let mut throw = false;
    let mut i: usize = 0;
    while i < ops.len()
        invariant
            i <= ops@.len(),
            legacy == exists|j: int| 0 <= j < i && is_legacy_op(#[trigger] ops@[j]),
            try_table == exists|j: int| 0 <= j < i && #[trigger] ops@[j] == CodeOp::TryTable,
            throw == exists|j: int| 0 <= j < i && is_throw_op(#[trigger] ops@[j]),
        decreases ops@.len() - i,
    {
        let o = ops[i];
        match o {
            CodeOp::Try | CodeOp::Catch | CodeOp::Rethrow | CodeOp::Delegate | CodeOp::CatchAll => {
                legacy = true;
            },
            CodeOp::TryTable => {
                try_table = true;
            },
            CodeOp::Throw | CodeOp::ThrowRef => {
                throw = true;
            },
            CodeOp::Other => {},
        }
        proof {
            assert(ops@[i as int] == o);
        }
        i = i + 1;
    }
    ExceptionOps { legacy, try_table, throw }
}

/// wasmparser's `WasmFeatures::REFERENCE_TYPES` bits.
pub const WASM_REFERENCE_TYPES: u64 = (1u64 << 3) | (1u64 << 34);

/// wasmparser's `WasmFeatures::MULTI_VALUE` bit.
pub const WASM_MULTI_VALUE: u64 = 1u64 << 4;

/// wasmparser's `WasmFeatures::BULK_MEMORY` bits.
pub const WASM_BULK_MEMORY: u64 = (1u64 << 5) | (1u64 << 35);

/// wasmparser's `WasmFeatures::SIMD` bit.
pub const WASM_SIMD: u64 = 1u64 << 6;

/// wasmparser's `WasmFeatures::RELAXED_SIMD` bit.
pub const WASM_RELAXED_SIMD: u64 = 1u64 << 7;

/// wasmparser's `WasmFeatures::THREADS` bit.
pub const WASM_THREADS: u64 = 1u64 << 8;

/// wasmparser's `WasmFeatures::TAIL_CALL` bit.
pub const WASM_TAIL_CALL: u64 = 1u64 << 10;

/// wasmparser's `WasmFeatures::MULTI_MEMORY` bit.
pub const WASM_MULTI_MEMORY: u64 = 1u64 << 12;

/// wasmparser's `WasmFeatures::EXCEPTIONS` bit.
pub const WASM_EXCEPTIONS: u64 = 1u64 << 13;

/// wasmparser's `WasmFeatures::MEMORY64` bit.
pub const WASM_MEMORY64: u64 = 1u64 << 14;

/// The bits of wasmparser's `WasmFeatures::default()`: every proposal it
/// enables by default.
pub const WASM_DEFAULT_FEATURES: u64 = 0x16c0d0bfdffu64;

/// The proposals enabled when probing whether a module needs exceptions: the
/// defaults with bulk memory, reference types, SIMD, multi-value, threads,
/// tail calls, multi-memory and memory64 on, and exceptions off.
pub const EXCEPTIONS_PROBE: u64 = (WASM_DEFAULT_FEATURES | WASM_BULK_MEMORY | WASM_REFERENCE_TYPES | WASM_SIMD
    | WASM_MULTI_VALUE | WASM_THREADS | WASM_TAIL_CALL | WASM_MULTI_MEMORY | WASM_MEMORY64) & !WASM_EXCEPTIONS;

/// The proposals enabled when probing a module with (almost) everything on:
/// the defaults with exceptions and the probed proposals on, and relaxed SIMD
/// off.
pub const BROAD_PROBE: u64 = (WASM_DEFAULT_FEATURES | WASM_EXCEPTIONS | WASM_BULK_MEMORY | WASM_REFERENCE_TYPES
    | WASM_SIMD | WASM_MULTI_VALUE | WASM_THREADS | WASM_TAIL_CALL | WASM_MULTI_MEMORY | WASM_MEMORY64)
    & !WASM_RELAXED_SIMD;

/// Whether `needle` occurs in `hay`.
pub open spec fn has_substring(hay: Seq<char>, needle: Seq<char>) -> bool {
    exists|i: int| 0 <= i && i + needle.len() <= hay.len() && #[trigger] hay.subrange(i, i + needle.len()) == needle
}

/// The message of the first error wasmparser's validator reports on `bytes`
/// with the proposals in `features` (by their bits) enabled, or `None` when the
/// module is valid.
pub uninterp spec fn wasm_validation_error(features: u64, bytes: Seq<u8>) -> Option<Seq<char>>;

/// The Unicode lower-case form of a string.
pub uninterp spec fn unicode_lowercase(s: Seq<char>) -> Seq<char>;

/// `WasmFeatures::default().bits()`: the proposals wasmparser enables by
/// default, as the source of the version in use lists them.
#[verifier::external_body]
fn wasm_default_feature_bits() -> (r: u64)
    ensures
        r == WASM_DEFAULT_FEATURES,
{
    WasmFeatures::default().bits()
}

/// `Validator::new_with_features` then `validate_all`: the text of the error
/// that validating `bytes` with the proposals in `features` reports, if any.
#[verifier::external_body]
fn first_validation_error(features: u64, bytes: &[u8]) -> (r: Option<String>)
    ensures
        match r {
            Some(s) => wasm_validation_error(features, bytes@) == Some(s@),
            None => wasm_validation_error(features, bytes@) is None,
        },
{
    let mut validator = Validator::new_with_features(WasmFeatures::from_bits_retain(features));
    match validator.validate_all(bytes) {
        Ok(_) => None,
        Err(e) => Some(e.to_string()),
    }
}

/// `str::to_lowercase`.
#[verifier::external_body]
fn lowercase(s: &str) -> (r: String)
    ensures
        r@ == unicode_lowercase(s@),
{
    s.to_lowercase()
}

/// Whether `needle` occurs in `hay`.
pub fn contains_str(hay: &str, needle: &str) -> (r: bool)
    ensures
        r == has_substring(hay@, needle@),
{
    let n = hay.unicode_len();
    let m = needle.unicode_len();
    if m == 0 {
        assert(hay@.subrange(0, 0 + needle@.len() as int) =~= needle@);
        return true;
    }
    if m > n {
        proof {
            assert forall|i: int| 0 <= i && i + m <= n implies #[trigger] hay@.subrange(i, i + m) != needle@ by {}
        }
        return false;
    }
    let mut i: usize = 0;
    while i <= n - m
        invariant
            n == hay@.len(),
            m == needle@.len(),
            0 < m <= n,
            i <= n - m + 1,
            forall|k: int| 0 <= k < i ==> #[trigger] hay@.subrange(k, k + m) != needle@,
        decreases n - m + 1 - i,
    {
        let mut j: usize = 0;
        let mut same = true;
        while j < m
            invariant
                n == hay@.len(),
                m == needle@.len(),
                i + m <= n,
                j <= m,
                same ==> forall|t: int| 0 <= t < j ==> hay@[i + t] == needle@[t],
                !same ==> hay@.subrange(i as int, i + m) != needle@,
            decreases m - j,
        {
            if hay.get_char(i + j) != needle.get_char(j) {
                assert(hay@.subrange(i as int, i + m)[j as int] != needle@[j as int]);
                same = false;
            }
            j = j + 1;
        }
        if same {
            assert(hay@.subrange(i as int, i + m) =~= needle@);
            return true;
        }
        i = i + 1;
    }
    false
}

/// The features set from the exception operators a module's code uses: the
/// defaults, with exceptions enabled when any exception operator is used, and
/// legacy exceptions too when a legacy one is.
pub open spec fn operator_features(ops: ExceptionOps) -> Features {
    let f = default_features();
    if ops.legacy {
        Features { exceptions: true, legacy_exceptions: true, ..f }
    } else if ops.try_table || ops.throw {
        Features { exceptions: true, ..f }
    } else {
        f
    }
}

/// The features a (lower-case) validation error message reveals, added to
/// `f`. Reference types bring bulk memory along; SIMD is only looked for when
/// the message does not reveal relaxed SIMD that `f` lacks.
pub open spec fn message_features(f: Features, m: Seq<char>) -> Features {
    let relaxed = has_substring(m, "relaxed simd"@) && !f.relaxed_simd;
    let reference = has_substring(m, "reference type"@);
    Features {
        exceptions: f.exceptions || has_substring(m, "exception"@) || has_substring(m, "try/catch"@),
        bulk_memory: f.bulk_memory || has_substring(m, "bulk memory"@) || reference,
        reference_types: f.reference_types || reference,
        relaxed_simd: f.relaxed_simd || relaxed,
        simd: f.simd || (!relaxed && has_substring(m, "simd"@)),
        multi_value: f.multi_value || has_substring(m, "multi value"@) || has_substring(m, "multiple values"@),
        threads: f.threads || has_substring(m, "thread"@) || has_substring(m, "shared memory"@),
        tail_call: f.tail_call || has_substring(m, "tail call"@),
        module_linking: f.module_linking || has_substring(m, "module linking"@),
        multi_memory: f.multi_memory || has_substring(m, "multi memory"@),
        memory64: f.memory64 || has_substring(m, "memory64"@),
        wide_arithmetic: f.wide_arithmetic || has_substring(m, "wide arithmetic"@),
        extended_const: f.extended_const || has_substring(m, "constant expression"@),
        legacy_exceptions: f.legacy_exceptions,
    }
}

/// The features detected for a module: those its exception operators call
/// for; when it uses none, those that validating it reveals. `probe` is the
/// error validating with exceptions off reports (an "exception" in it enables
/// exceptions), `broad` the lower-cased error validating with nearly
/// everything on reports.
pub open spec fn detected_features(ops: ExceptionOps, probe: Option<Seq<char>>, broad: Option<Seq<char>>) -> Features {
    let f = operator_features(ops);
    if ops.legacy || ops.try_table || ops.throw {
        f
    } else {
        let f1 = match probe {
            Some(m) => if has_substring(m, "exception"@) {
                Features { exceptions: true, ..f }
            } else {
                f
            },
            None => f,
        };
        match broad {
            Some(m) => message_features(f1, m),
            None => f1,
        }
    }
}

/// Whether `o` is an exception-handling operator of any proposal.
pub open spec fn is_exception_op(o: CodeOp) -> bool {
    !(o is Other)
}

/// A module whose code uses any exception-handling operator (`throw`,
/// `throw_ref`, `try_table` or a legacy one) is detected as needing
/// exceptions, and one using a legacy operator as needing legacy exceptions
/// too; what validation reports then changes nothing.
pub proof fn law_exception_ops_enable_exceptions(
    ops: Seq<CodeOp>,
    i: int,
    probe: Option<Seq<char>>,
    broad: Option<Seq<char>>,
    probe2: Option<Seq<char>>,
    broad2: Option<Seq<char>>,
)
    requires
        0 <= i < ops.len(),
        is_exception_op(ops[i]),
    ensures
        detected_features(exception_ops_of(ops), probe, broad).exceptions,
        is_legacy_op(ops[i]) ==> detected_features(exception_ops_of(ops), probe, broad).legacy_exceptions,
        detected_features(exception_ops_of(ops), probe, broad) == detected_features(exception_ops_of(ops), probe2, broad2),
{
    let e = exception_ops_of(ops);
    if is_legacy_op(ops[i]) {
        assert(e.legacy);
    } else if ops[i] == CodeOp::TryTable {
        assert(e.try_table);
    } else {
        assert(is_throw_op(ops[i]));
        assert(e.throw);
    }
}

impl Features {
    /// The features detected for a module from the exception operators its
    /// code uses and the errors validating it reported: `probe` with
    /// exceptions off, `broad` (lower case) with nearly everything on. The
    /// errors only count when no exception operator is used.
    pub fn from_detection(ops: ExceptionOps, probe: Option<&str>, broad: Option<&str>) -> (r: Features)
        ensures
            r == detected_features(
                ops,
                match probe {
                    Some(s) => Some(s@),
                    None => None,
                },
                match broad {
                    Some(s) => Some(s@),
                    None => None,
                },
            ),
    {
        let mut features = Features::new();
        if ops.legacy {
            features.exceptions(true);
            features.legacy_exceptions(true);
        } else if ops.try_table || ops.throw {
            features.exceptions(true);
        }
        if ops.legacy || ops.try_table || ops.throw {
            return features;
        }
        match probe {
            Some(m) => {
                if contains_str(m, "exception") {
                    features.exceptions(true);
                }
            },
            None => {},
        }
        match broad {
            Some(m) => {
                features.add_from_message(m);
            },
            None => {},
        }
        features
    }

    /// Adds the features a lower-case validation error message reveals.
    fn add_from_message(&mut self, m: &str)
        ensures
            *final(self) == message_features(*old(self), m@),
    {
        let exceptions = contains_str(m, "exception") || contains_str(m, "try/catch");
        let bulk_memory = contains_str(m, "bulk memory");
        let reference_types = contains_str(m, "reference type");
        let relaxed_simd = contains_str(m, "relaxed simd") && !self.relaxed_simd;
        let simd = !relaxed_simd && contains_str(m, "simd");
        let multi_value = contains_str(m, "multi value") || contains_str(m, "multiple values");
        let threads = contains_str(m, "thread") || contains_str(m, "shared memory");
        let tail_call = contains_str(m, "tail call");
        let module_linking = contains_str(m, "module linking");
        let multi_memory = contains_str(m, "multi memory");
        let memory64 = contains_str(m, "memory64");
        let wide_arithmetic = contains_str(m, "wide arithmetic");
        let extended_const = contains_str(m, "constant expression");
        *self = Features {
            threads: self.threads || threads,
            reference_types: self.reference_types || reference_types,
            simd: self.simd || simd,
            bulk_memory: self.bulk_memory || bulk_memory || reference_types,
            multi_value: self.multi_value || multi_value,
            tail_call: self.tail_call || tail_call,
            module_linking: self.module_linking || module_linking,
            multi_memory: self.multi_memory || multi_memory,
            memory64: self.memory64 || memory64,
            exceptions: self.exceptions || exceptions,
            legacy_exceptions: self.legacy_exceptions,
            relaxed_simd: self.relaxed_simd || relaxed_simd,
            extended_const: self.extended_const || extended_const,
            wide_arithmetic: self.wide_arithmetic || wide_arithmetic,
        };
    }

    /// Detects the features a module needs from the exception operators its
    /// code uses (found by scanning it) and, when it uses none, from what
    /// wasmparser's validator reports on it.
    pub fn detect_with_validation(ops: ExceptionOps, wasm_bytes: &[u8]) -> (r: Features)
        ensures
            r == detected_features(
                ops,
                wasm_validation_error(EXCEPTIONS_PROBE, wasm_bytes@),
                match wasm_validation_error(BROAD_PROBE, wasm_bytes@) {
                    Some(m) => Some(unicode_lowercase(m)),
                    None => None,
                },
            ),
    {
        if ops.legacy || ops.try_table || ops.throw {
            return Features::from_detection(ops, None, None);
        }
        let default_bits = wasm_default_feature_bits();
        let probe_bits = (default_bits | WASM_BULK_MEMORY | WASM_REFERENCE_TYPES | WASM_SIMD | WASM_MULTI_VALUE
            | WASM_THREADS | WASM_TAIL_CALL | WASM_MULTI_MEMORY | WASM_MEMORY64) & !WASM_EXCEPTIONS;
        let broad_bits = (default_bits | WASM_EXCEPTIONS | WASM_BULK_MEMORY | WASM_REFERENCE_TYPES | WASM_SIMD
            | WASM_MULTI_VALUE | WASM_THREADS | WASM_TAIL_CALL | WASM_MULTI_MEMORY | WASM_MEMORY64)
            & !WASM_RELAXED_SIMD;
        let probe = first_validation_error(probe_bits, wasm_bytes);
        let broad = match first_validation_error(broad_bits, wasm_bytes) {
            Some(m) => Some(lowercase(m.as_str())),
            None => None,
        };
        let p = match &probe {
            Some(s) => Some(s.as_str()),
            None => None,
        };
        let b = match &broad {
            Some(s) => Some(s.as_str()),
            None => None,
        };
        Features::from_detection(ops, p, b)
    }

    /// Detects the WebAssembly features a module requires: from the exception
    /// operators its code uses, and, when it uses none, from what validating
    /// it reports. Fails when the module cannot be parsed.
    pub fn detect_from_wasm(wasm_bytes: &[u8]) -> (r: Result<Features, BinaryReaderError>)
        ensures
            r is Ok <==> wasm_code_ops(wasm_bytes@) is Some,
            r matches Ok(f) ==> f == detected_features(
                exception_ops_of(wasm_code_ops(wasm_bytes@)->Some_0),
                wasm_validation_error(EXCEPTIONS_PROBE, wasm_bytes@),
                match wasm_validation_error(BROAD_PROBE, wasm_bytes@) {
                    Some(m) => Some(unicode_lowercase(m)),
                    None => None,
                },
            ),
    {
        let ops = code_ops(wasm_bytes)?;
        let found = exception_ops(&ops);
        Ok(Features::detect_with_validation(found, wasm_bytes))
    }
}

} // verus!
