use vstd::prelude::*;

verus! {

/// Controls which experimental WebAssembly features will be enabled.
/// Features usually have a corresponding WebAssembly proposal.
#[derive(Clone, Debug, PartialEq, Eq, Hash, Structural)]
pub struct Features {
    /// Threads proposal should be enabled
    pub threads: bool,
    /// Reference Types proposal should be enabled
    pub reference_types: bool,
    /// SIMD proposal should be enabled
    pub simd: bool,
    /// Bulk Memory proposal should be enabled
    pub bulk_memory: bool,
    /// Multi Value proposal should be enabled
    pub multi_value: bool,
    /// Tail call proposal should be enabled
    pub tail_call: bool,
    /// Module Linking proposal should be enabled
    pub module_linking: bool,
    /// Multi Memory proposal should be enabled
    pub multi_memory: bool,
    /// 64-bit Memory proposal should be enabled
    pub memory64: bool,
    /// Wasm exceptions proposal should be enabled
    pub exceptions: bool,
    /// Legacy Wasm exceptions proposal (Phase 1) should be enabled
    pub legacy_exceptions: bool,
    /// Relaxed SIMD proposal should be enabled
    pub relaxed_simd: bool,
    /// Extended constant expressions proposal should be enabled
    pub extended_const: bool,
    /// Wide Arithmetic proposal should be enabled
    pub wide_arithmetic: bool,
}

/// The feature set where every flag has the value `b`.
pub open spec fn uniform_features(b: bool) -> Features {
    Features {
        threads: b,
        reference_types: b,
        simd: b,
        bulk_memory: b,
        multi_value: b,
        tail_call: b,
        module_linking: b,
        multi_memory: b,
        memory64: b,
        exceptions: b,
        legacy_exceptions: b,
        relaxed_simd: b,
        extended_const: b,
        wide_arithmetic: b,
    }
}

/// The default feature set: the standardized proposals that are on by default.
pub open spec fn default_features() -> Features {
    Features {
        threads: true,
        reference_types: true,
        simd: true,
        bulk_memory: true,
        multi_value: true,
        tail_call: false,
        module_linking: false,
        multi_memory: false,
        memory64: false,
        exceptions: false,
        legacy_exceptions: false,
        relaxed_simd: false,
        extended_const: true,
        wide_arithmetic: false,
    }
}

/// `f` with reference types set to `enable`; enabling them enables bulk
/// memory too, which they depend on.
pub open spec fn with_reference_types(f: Features, enable: bool) -> Features {
    Features { reference_types: enable, bulk_memory: enable || f.bulk_memory, ..f }
}

/// `f` with bulk memory set to `enable`; disabling it disables reference
/// types too, which depend on it.
pub open spec fn with_bulk_memory(f: Features, enable: bool) -> Features {
    Features { bulk_memory: enable, reference_types: enable && f.reference_types, ..f }
}

/// Reference types are only on together with bulk memory.
pub open spec fn dependencies_hold(f: Features) -> bool {
    f.reference_types ==> f.bulk_memory
}

/// Every feature enabled in `b` is enabled in `a` (as a set, `b` is a subset of `a`).
pub open spec fn includes(a: Features, b: Features) -> bool {
    &&& b.threads ==> a.threads
    &&& b.reference_types ==> a.reference_types
    &&& b.simd ==> a.simd
    &&& b.bulk_memory ==> a.bulk_memory
    &&& b.multi_value ==> a.multi_value
    &&& b.tail_call ==> a.tail_call
    &&& b.module_linking ==> a.module_linking
    &&& b.multi_memory ==> a.multi_memory
    &&& b.memory64 ==> a.memory64
    &&& b.exceptions ==> a.exceptions
    &&& b.legacy_exceptions ==> a.legacy_exceptions
    &&& b.relaxed_simd ==> a.relaxed_simd
    &&& b.extended_const ==> a.extended_const
    &&& b.wide_arithmetic ==> a.wide_arithmetic
}

/// The feature set enabling every feature enabled in either set.
pub open spec fn union(a: Features, b: Features) -> Features {
    Features {
        threads: a.threads || b.threads,
        reference_types: a.reference_types || b.reference_types,
        simd: a.simd || b.simd,
        bulk_memory: a.bulk_memory || b.bulk_memory,
        multi_value: a.multi_value || b.multi_value,
        tail_call: a.tail_call || b.tail_call,
        module_linking: a.module_linking || b.module_linking,
        multi_memory: a.multi_memory || b.multi_memory,
        memory64: a.memory64 || b.memory64,
        exceptions: a.exceptions || b.exceptions,
        legacy_exceptions: a.legacy_exceptions || b.legacy_exceptions,
        relaxed_simd: a.relaxed_simd || b.relaxed_simd,
        extended_const: a.extended_const || b.extended_const,
        wide_arithmetic: a.wide_arithmetic || b.wide_arithmetic,
    }
}

/// `seq![name]` when `missing` holds, the empty sequence otherwise.
pub open spec fn name_if(missing: bool, name: Seq<char>) -> Seq<Seq<char>> {
    if missing {
        seq![name]
    } else {
        Seq::empty()
    }
}

/// The names of the features that `required` enables and `have` does not,
/// in the order in which they are reported.
pub open spec fn missing_feature_names(have: Features, required: Features) -> Seq<Seq<char>> {
    name_if(required.simd && !have.simd, "simd"@)
        + name_if(required.bulk_memory && !have.bulk_memory, "bulk_memory"@)
        + name_if(required.reference_types && !have.reference_types, "reference_types"@)
        + name_if(required.threads && !have.threads, "threads"@)
        + name_if(required.multi_value && !have.multi_value, "multi_value"@)
        + name_if(required.exceptions && !have.exceptions, "exceptions"@)
        + name_if(required.legacy_exceptions && !have.legacy_exceptions, "legacy_exceptions"@)
        + name_if(required.tail_call && !have.tail_call, "tail_call"@)
        + name_if(required.module_linking && !have.module_linking, "module_linking"@)
        + name_if(required.multi_memory && !have.multi_memory, "multi_memory"@)
        + name_if(required.memory64 && !have.memory64, "memory64"@)
        + name_if(required.relaxed_simd && !have.relaxed_simd, "relaxed_simd"@)
        + name_if(required.extended_const && !have.extended_const, "extended_const"@)
        + name_if(required.wide_arithmetic && !have.wide_arithmetic, "wide_arithmetic"@)
}

/// Pushes `name` onto `names` when `missing` holds.
fn push_if_missing(names: &mut Vec<&'static str>, missing: bool, name: &'static str)
    ensures
        final(names)@.map_values(|s: &str| s@) == old(names)@.map_values(|s: &str| s@) + name_if(
            missing,
            name@,
        ),
{
    if missing {
        names.push(name);
    }
    assert(final(names)@.map_values(|s: &str| s@) =~= old(names)@.map_values(|s: &str| s@) + name_if(missing, name@));
}

impl Features {
    /// Create a new feature set with the default features enabled.
    pub fn new() -> (r: Self)
        ensures
            r == default_features(),
    {
        Self {
            threads: true,
            reference_types: true,
            simd: true,
            bulk_memory: true,
            multi_value: true,
            tail_call: false,
            module_linking: false,
            multi_memory: false,
            memory64: false,
            exceptions: false,
            legacy_exceptions: false,
            relaxed_simd: false,
            wide_arithmetic: false,
            extended_const: true,
        }
    }

    /// Create a new feature set with all features enabled.
    pub fn all() -> (r: Self)
        ensures
            r == uniform_features(true),
    {
        Self {
            threads: true,
            reference_types: true,
            simd: true,
            bulk_memory: true,
            multi_value: true,
            tail_call: true,
            module_linking: true,
            multi_memory: true,
            memory64: true,
            exceptions: true,
            legacy_exceptions: true,
            relaxed_simd: true,
            extended_const: true,
            wide_arithmetic: true,
        }
    }

    /// Create a new feature set with all features disabled.
    pub fn none() -> (r: Self)
        ensures
            r == uniform_features(false),
    {
        Self {
            threads: false,
            reference_types: false,
            simd: false,
            bulk_memory: false,
            multi_value: false,
            tail_call: false,
            module_linking: false,
            multi_memory: false,
            memory64: false,
            exceptions: false,
            legacy_exceptions: false,
            relaxed_simd: false,
            extended_const: false,
            wide_arithmetic: false,
        }
    }

    /// Configures whether the WebAssembly threads proposal will be enabled.
    ///
    /// This is `true` by default.
    pub fn threads(&mut self, enable: bool) -> (r: &mut Self)
        ensures
            *r == (Features { threads: enable, ..*old(self) }),
            *final(self) == *final(r),
    {
        self.threads = enable;
        self
    }

    /// Configures whether the WebAssembly SIMD proposal will be enabled.
    ///
    /// This is `true` by default.
    pub fn simd(&mut self, enable: bool) -> (r: &mut Self)
        ensures
            *r == (Features { simd: enable, ..*old(self) }),
            *final(self) == *final(r),
    {
        self.simd = enable;
        self
    }

    /// Configures whether the WebAssembly reference types proposal will be
    /// enabled. Enabling reference types also enables bulk memory, which it
    /// depends on.
    ///
    /// This is `true` by default.
    pub fn reference_types(&mut self, enable: bool) -> (r: &mut Self)
        ensures
            *r == with_reference_types(*old(self), enable),
            *final(self) == *final(r),
        decreases (if enable { 1nat } else { 0nat }),
    {
        self.reference_types = enable;
        if enable {
            self.bulk_memory(true);
        }
        self
    }

    /// Configures whether the WebAssembly bulk memory operations proposal will
    /// be enabled. Disabling bulk memory also disables reference types, which
    /// depend on it.
    ///
    /// This is `true` by default.
    pub fn bulk_memory(&mut self, enable: bool) -> (r: &mut Self)
        ensures
            *r == with_bulk_memory(*old(self), enable),
            *final(self) == *final(r),
        decreases (if enable { 0nat } else { 1nat }),
    {
        self.bulk_memory = enable;
        if !enable {
            self.reference_types(false);
        }
        self
    }

    /// Configures whether the WebAssembly Relaxed SIMD proposal will be enabled.
    ///
    /// This is `false` by default.
    pub fn relaxed_simd(&mut self, enable: bool) -> (r: &mut Self)
        ensures
            *r == (Features { relaxed_simd: enable, ..*old(self) }),
            *final(self) == *final(r),
    {
        self.relaxed_simd = enable;
        self
    }

    /// Configures whether the WebAssembly multi-value proposal will be enabled.
    ///
    /// This is `true` by default.
    pub fn multi_value(&mut self, enable: bool) -> (r: &mut Self)
        ensures
            *r == (Features { multi_value: enable, ..*old(self) }),
            *final(self) == *final(r),
    {
        self.multi_value = enable;
        self
    }

    /// Configures whether the WebAssembly tail-call proposal will be enabled.
    ///
    /// This is `false` by default.
    pub fn tail_call(&mut self, enable: bool) -> (r: &mut Self)
        ensures
            *r == (Features { tail_call: enable, ..*old(self) }),
            *final(self) == *final(r),
    {
        self.tail_call = enable;
        self
    }

    /// Configures whether the WebAssembly module linking proposal will be enabled.
    ///
    /// This is `false` by default.
    pub fn module_linking(&mut self, enable: bool) -> (r: &mut Self)
        ensures
            *r == (Features { module_linking: enable, ..*old(self) }),
            *final(self) == *final(r),
    {
        self.module_linking = enable;
        self
    }

    /// Configures whether the WebAssembly multi-memory proposal will be enabled.
    ///
    /// This is `false` by default.
    pub fn multi_memory(&mut self, enable: bool) -> (r: &mut Self)
        ensures
            *r == (Features { multi_memory: enable, ..*old(self) }),
            *final(self) == *final(r),
    {
        self.multi_memory = enable;
        self
    }

    /// Configures whether the WebAssembly 64-bit memory proposal will be enabled.
    ///
    /// This is `false` by default.
    pub fn memory64(&mut self, enable: bool) -> (r: &mut Self)
        ensures
            *r == (Features { memory64: enable, ..*old(self) }),
            *final(self) == *final(r),
    {
        self.memory64 = enable;
        self
    }

    /// Configures whether the WebAssembly exception-handling proposal will be enabled.
    ///
    /// This is `false` by default.
    pub fn exceptions(&mut self, enable: bool) -> (r: &mut Self)
        ensures
            *r == (Features { exceptions: enable, ..*old(self) }),
            *final(self) == *final(r),
    {
        self.exceptions = enable;
        self
    }

    /// Configures whether the WebAssembly wide arithmetic proposal will be enabled.
    ///
    /// This is `false` by default.
    pub fn wide_arithmetic(&mut self, enable: bool) -> (r: &mut Self)
        ensures
            *r == (Features { wide_arithmetic: enable, ..*old(self) }),
            *final(self) == *final(r),
    {
        self.wide_arithmetic = enable;
        self
    }

    /// Configures whether the WebAssembly Extended Constant Expressions proposal will be enabled.
    ///
    /// This is `true` by default.
    pub fn extended_const(&mut self, enable: bool) -> (r: &mut Self)
        ensures
            *r == (Features { extended_const: enable, ..*old(self) }),
            *final(self) == *final(r),
    {
        self.extended_const = enable;
        self
    }

    /// Configures whether the WebAssembly legacy exception-handling proposal (Phase 1) will be enabled.
    ///
    /// This is `false` by default.
    pub fn legacy_exceptions(&mut self, enable: bool) -> (r: &mut Self)
        ensures
            *r == (Features { legacy_exceptions: enable, ..*old(self) }),
            *final(self) == *final(r),
    {
        self.legacy_exceptions = enable;
        self
    }

    /// Checks whether this feature set contains every feature enabled in
    /// `required`. Returns whether it does, together with the names of the
    /// required features that this set lacks.
    pub fn contains_features(&self, required: &Self) -> (r: (bool, Vec<&'static str>))
        ensures
            r.1@.map_values(|s: &str| s@) == missing_feature_names(*self, *required),
            r.0 == (r.1@.len() == 0),
            r.0 == includes(*self, *required),
    {
        let mut unsupported: Vec<&'static str> = Vec::new();
        assert(unsupported@.map_values(|s: &str| s@) =~= Seq::<Seq<char>>::empty());
        push_if_missing(&mut unsupported, required.simd && !self.simd, "simd");
        push_if_missing(&mut unsupported, required.bulk_memory && !self.bulk_memory, "bulk_memory");
        push_if_missing(
            &mut unsupported,
            required.reference_types && !self.reference_types,
            "reference_types",
        );
        push_if_missing(&mut unsupported, required.threads && !self.threads, "threads");
        push_if_missing(&mut unsupported, required.multi_value && !self.multi_value, "multi_value");
        push_if_missing(&mut unsupported, required.exceptions && !self.exceptions, "exceptions");
        push_if_missing(
            &mut unsupported,
            required.legacy_exceptions && !self.legacy_exceptions,
            "legacy_exceptions",
        );
        push_if_missing(&mut unsupported, required.tail_call && !self.tail_call, "tail_call");
        push_if_missing(
            &mut unsupported,
            required.module_linking && !self.module_linking,
            "module_linking",
        );
        push_if_missing(
            &mut unsupported,
            required.multi_memory && !self.multi_memory,
            "multi_memory",
        );
        push_if_missing(&mut unsupported, required.memory64 && !self.memory64, "memory64");
        push_if_missing(
            &mut unsupported,
            required.relaxed_simd && !self.relaxed_simd,
            "relaxed_simd",
        );
        push_if_missing(
            &mut unsupported,
            required.extended_const && !self.extended_const,
            "extended_const",
        );
        push_if_missing(
            &mut unsupported,
            required.wide_arithmetic && !self.wide_arithmetic,
            "wide_arithmetic",
        );
        proof {
            lemma_missing_names_empty_iff_includes(*self, *required);
        }
        (unsupported.len() == 0, unsupported)
    }

    /// Extends this feature set with another set: afterwards it enables every
    /// feature that either set enabled.
    pub fn extend(&mut self, other: &Self)
        ensures
            *final(self) == union(*old(self), *other),
    {
        let Self {
            threads,
            reference_types,
            simd,
            bulk_memory,
            multi_value,
            tail_call,
            module_linking,
            multi_memory,
            memory64,
            exceptions,
            legacy_exceptions,
            relaxed_simd,
            extended_const,
            wide_arithmetic,
        } = other;

        *self = Self {
            threads: self.threads || *threads,
            reference_types: self.reference_types || *reference_types,
            simd: self.simd || *simd,
            bulk_memory: self.bulk_memory || *bulk_memory,
            multi_value: self.multi_value || *multi_value,
            tail_call: self.tail_call || *tail_call,
            module_linking: self.module_linking || *module_linking,
            multi_memory: self.multi_memory || *multi_memory,
            memory64: self.memory64 || *memory64,
            exceptions: self.exceptions || *exceptions,
            legacy_exceptions: self.legacy_exceptions || *legacy_exceptions,
            relaxed_simd: self.relaxed_simd || *relaxed_simd,
            extended_const: self.extended_const || *extended_const,
            wide_arithmetic: self.wide_arithmetic || *wide_arithmetic,
        };
    }
}

impl Default for Features {
    fn default() -> (r: Self)
        ensures
            r == default_features(),
    {
        Self::new()
    }
}

/// The list of missing feature names is empty exactly when every required
/// feature is present.
#[verifier::rlimit(50)]
pub proof fn lemma_missing_names_empty_iff_includes(have: Features, required: Features)
    ensures
        (missing_feature_names(have, required).len() == 0) == includes(have, required),
{
    let r = required;
    let h = have;
    let p0 = name_if(r.simd && !h.simd, "simd"@);
    assert(p0.len() == if r.simd && !h.simd { 1int } else { 0int });
    let p1 = name_if(r.bulk_memory && !h.bulk_memory, "bulk_memory"@);
    assert(p1.len() == if r.bulk_memory && !h.bulk_memory { 1int } else { 0int });
    let p2 = name_if(r.reference_types && !h.reference_types, "reference_types"@);
    assert(p2.len() == if r.reference_types && !h.reference_types { 1int } else { 0int });
    let p3 = name_if(r.threads && !h.threads, "threads"@);
    assert(p3.len() == if r.threads && !h.threads { 1int } else { 0int });
    let p4 = name_if(r.multi_value && !h.multi_value, "multi_value"@);
    assert(p4.len() == if r.multi_value && !h.multi_value { 1int } else { 0int });
    let p5 = name_if(r.exceptions && !h.exceptions, "exceptions"@);
    assert(p5.len() == if r.exceptions && !h.exceptions { 1int } else { 0int });
    let p6 = name_if(r.legacy_exceptions && !h.legacy_exceptions, "legacy_exceptions"@);
    assert(p6.len() == if r.legacy_exceptions && !h.legacy_exceptions { 1int } else { 0int });
    let p7 = name_if(r.tail_call && !h.tail_call, "tail_call"@);
    assert(p7.len() == if r.tail_call && !h.tail_call { 1int } else { 0int });
    let p8 = name_if(r.module_linking && !h.module_linking, "module_linking"@);
    assert(p8.len() == if r.module_linking && !h.module_linking { 1int } else { 0int });
    let p9 = name_if(r.multi_memory && !h.multi_memory, "multi_memory"@);
    assert(p9.len() == if r.multi_memory && !h.multi_memory { 1int } else { 0int });
    let p10 = name_if(r.memory64 && !h.memory64, "memory64"@);
    assert(p10.len() == if r.memory64 && !h.memory64 { 1int } else { 0int });
    let p11 = name_if(r.relaxed_simd && !h.relaxed_simd, "relaxed_simd"@);
    assert(p11.len() == if r.relaxed_simd && !h.relaxed_simd { 1int } else { 0int });
    let p12 = name_if(r.extended_const && !h.extended_const, "extended_const"@);
    assert(p12.len() == if r.extended_const && !h.extended_const { 1int } else { 0int });
    let p13 = name_if(r.wide_arithmetic && !h.wide_arithmetic, "wide_arithmetic"@);
    assert(p13.len() == if r.wide_arithmetic && !h.wide_arithmetic { 1int } else { 0int });
    let a0 = p0;
    let a1 = a0 + p1;
    assert(a1.len() == a0.len() + p1.len());
    let a2 = a1 + p2;
    assert(a2.len() == a1.len() + p2.len());
    let a3 = a2 + p3;
    assert(a3.len() == a2.len() + p3.len());
    let a4 = a3 + p4;
    assert(a4.len() == a3.len() + p4.len());
    let a5 = a4 + p5;
    assert(a5.len() == a4.len() + p5.len());
    let a6 = a5 + p6;
    assert(a6.len() == a5.len() + p6.len());
    let a7 = a6 + p7;
    assert(a7.len() == a6.len() + p7.len());
    let a8 = a7 + p8;
    assert(a8.len() == a7.len() + p8.len());
    let a9 = a8 + p9;
    assert(a9.len() == a8.len() + p9.len());
    let a10 = a9 + p10;
    assert(a10.len() == a9.len() + p10.len());
    let a11 = a10 + p11;
    assert(a11.len() == a10.len() + p11.len());
    let a12 = a11 + p12;
    assert(a12.len() == a11.len() + p12.len());
    let a13 = a12 + p13;
    assert(a13.len() == a12.len() + p13.len());
    assert(missing_feature_names(have, required) === a13);

}

/// Extending a set with another yields a set that contains both.
pub proof fn law_extend_contains_both(a: Features, b: Features)
    ensures
        includes(union(a, b), a),
        includes(union(a, b), b),
{
}

/// Extending is commutative, associative and idempotent.
pub proof fn law_extend_is_commutative_associative_idempotent(a: Features, b: Features, c: Features)
    ensures
        union(a, b) == union(b, a),
        union(union(a, b), c) == union(a, union(b, c)),
        union(a, a) == a,
{
}

/// The empty feature set is the identity of extending, and the full set absorbs
/// every other set.
pub proof fn law_extend_identity_and_absorption(a: Features)
    ensures
        union(a, uniform_features(false)) == a,
        union(uniform_features(false), a) == a,
        union(a, uniform_features(true)) == uniform_features(true),
{
}

/// The smallest set containing two sets is their union: any set containing
/// both contains their union.
pub proof fn law_extend_is_least_upper_bound(a: Features, b: Features, c: Features)
    requires
        includes(c, a),
        includes(c, b),
    ensures
        includes(c, union(a, b)),
{
}

/// Containment of feature sets is reflexive and transitive; every set contains
/// the empty set and is contained in the full set.
pub proof fn law_contains_is_a_preorder(a: Features, b: Features, c: Features)
    ensures
        includes(a, a),
        includes(a, b) && includes(b, c) ==> includes(a, c),
        includes(a, uniform_features(false)),
        includes(uniform_features(true), a),
        includes(a, b) && includes(b, a) ==> a == b,
{
}

/// Reference types never end up on without bulk memory: the default, full and
/// empty sets keep to it, and so does toggling either of the two and
/// extending one set that keeps to it by another.
pub proof fn law_reference_types_need_bulk_memory(f: Features, g: Features, enable: bool)
    requires
        dependencies_hold(f),
        dependencies_hold(g),
    ensures
        dependencies_hold(default_features()),
        dependencies_hold(uniform_features(enable)),
        dependencies_hold(with_reference_types(f, enable)),
        dependencies_hold(with_bulk_memory(f, enable)),
        dependencies_hold(union(f, g)),
{
}

} // verus!
