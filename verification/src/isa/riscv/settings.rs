//! RISC-V Settings.
//!
//! The settings group `riscv`: four booleans saying which extensions the CPU
//! supports, one saying whether to use the `M` instructions, and the
//! predicate `full_float`, computed when the flags are made.

use vstd::prelude::*;
use crate::settings::{self, bool_setting, set_bool_outcome, set_outcome, shared_view, Builder, BuilderView};
use crate::settings::detail::{
    bit_set, descriptor_fits, group_text, lemma_with_bit, set_bit_of, setting_index,
    setting_index_from, test_bit, with_bit, Descriptor, DescriptorView, Detail, Template,
    TemplateView,
};

verus! {

/// The `riscv` settings group: five booleans stored in the bits of one byte,
/// `enable_m` on by default.
pub open spec fn riscv_template() -> TemplateView {
    TemplateView {
        name: "riscv"@,
        descriptors: seq![
            DescriptorView { name: "supports_m"@, offset: 0, detail: Detail::Bool { bit: 0 } },
            DescriptorView { name: "supports_a"@, offset: 0, detail: Detail::Bool { bit: 1 } },
            DescriptorView { name: "supports_f"@, offset: 0, detail: Detail::Bool { bit: 2 } },
            DescriptorView { name: "supports_d"@, offset: 0, detail: Detail::Bool { bit: 3 } },
            DescriptorView { name: "enable_m"@, offset: 0, detail: Detail::Bool { bit: 4 } },
        ],
        enumerators: Seq::empty(),
        defaults: seq![0x10u8],
    }
}

/// The `riscv` settings read from the bytes `bytes`.
pub open spec fn riscv_view(bytes: Seq<u8>) -> BuilderView {
    BuilderView { template: riscv_template(), bytes }
}

/// The bit of the predicate `full_float`, the first after the settings.
pub open spec fn full_float_bit() -> u8 {
    5
}

/// Whether the predicate `full_float` is set in the bytes `bytes`.
pub open spec fn full_float_of(bytes: Seq<u8>) -> bool {
    bit_set(bytes[0], full_float_bit())
}

/// Where each `riscv` setting is found, and that every setting of the group
/// is a boolean in a bit of the first byte below the predicate's.
pub proof fn lemma_riscv_lookup()
    ensures
        setting_index(riscv_template().descriptors, "supports_m"@) == Some(0nat),
        setting_index(riscv_template().descriptors, "supports_a"@) == Some(1nat),
        setting_index(riscv_template().descriptors, "supports_f"@) == Some(2nat),
        setting_index(riscv_template().descriptors, "supports_d"@) == Some(3nat),
        setting_index(riscv_template().descriptors, "enable_m"@) == Some(4nat),
        riscv_template().well_formed(),
        forall|i: int|
            0 <= i < riscv_template().descriptors.len() ==> (#[trigger] riscv_template().descriptors[i]).offset
                == 0 && riscv_template().descriptors[i].detail == (Detail::Bool { bit: i as u8 }),
{
    reveal_strlit("supports_m");
    reveal_strlit("supports_a");
    reveal_strlit("supports_f");
    reveal_strlit("supports_d");
    reveal_strlit("enable_m");
    assert("supports_m"@.len() == 10);
    assert("supports_a"@.len() == 10);
    assert("supports_f"@.len() == 10);
    assert("supports_d"@.len() == 10);
    assert("enable_m"@.len() == 8);
    assert("supports_m"@[9] == 'm');
    assert("supports_a"@[9] == 'a');
    assert("supports_f"@[9] == 'f');
    assert("supports_d"@[9] == 'd');
    let d = riscv_template().descriptors;
    assert(setting_index_from(d, "supports_a"@, 0) == setting_index_from(d, "supports_a"@, 1));
    assert(setting_index_from(d, "supports_f"@, 0) == setting_index_from(d, "supports_f"@, 1));
    assert(setting_index_from(d, "supports_f"@, 1) == setting_index_from(d, "supports_f"@, 2));
    assert(setting_index_from(d, "supports_d"@, 0) == setting_index_from(d, "supports_d"@, 1));
    assert(setting_index_from(d, "supports_d"@, 1) == setting_index_from(d, "supports_d"@, 2));
    assert(setting_index_from(d, "supports_d"@, 2) == setting_index_from(d, "supports_d"@, 3));
    assert(setting_index_from(d, "enable_m"@, 0) == setting_index_from(d, "enable_m"@, 1));
    assert(setting_index_from(d, "enable_m"@, 1) == setting_index_from(d, "enable_m"@, 2));
    assert(setting_index_from(d, "enable_m"@, 2) == setting_index_from(d, "enable_m"@, 3));
    assert(setting_index_from(d, "enable_m"@, 3) == setting_index_from(d, "enable_m"@, 4));
    let t = riscv_template();
    assert forall|i: int| 0 <= i < t.descriptors.len() implies descriptor_fits(
        t,
        #[trigger] t.descriptors[i],
    ) && t.descriptors[i].offset == 0 && t.descriptors[i].detail == (Detail::Bool {
        bit: i as u8,
    }) by {
        assert(0 <= i < 5);
    }
}

/// The template of the `riscv` settings group.
fn riscv_template_exec() -> (t: Template)
    ensures
        t@ == riscv_template(),
{
    let t = Template {
        name: String::from_str("riscv"),
        descriptors: vec![
            Descriptor {
                name: String::from_str("supports_m"),
                offset: 0,
                detail: Detail::Bool { bit: 0 },
            },
            Descriptor {
                name: String::from_str("supports_a"),
                offset: 0,
                detail: Detail::Bool { bit: 1 },
            },
            Descriptor {
                name: String::from_str("supports_f"),
                offset: 0,
                detail: Detail::Bool { bit: 2 },
            },
            Descriptor {
                name: String::from_str("supports_d"),
                offset: 0,
                detail: Detail::Bool { bit: 3 },
            },
            Descriptor {
                name: String::from_str("enable_m"),
                offset: 0,
                detail: Detail::Bool { bit: 4 },
            },
        ],
        enumerators: Vec::new(),
        defaults: vec![0x10u8],
    };
    proof {
        assert(t@.descriptors =~= riscv_template().descriptors);
        assert(t@.enumerators =~= riscv_template().enumerators);
        assert(t@.defaults =~= riscv_template().defaults);
    }
    t
}

/// Create a `settings::Builder` for the riscv settings group, with every
/// setting at its default.
pub fn builder() -> (b: Builder)
    ensures
        b@.template == riscv_template(),
        b@.bytes == riscv_template().defaults,
        b@.well_formed(),
        !full_float_of(b@.bytes),
{
    proof {
        lemma_riscv_lookup();
        assert(0x10u8 & (1u8 << 5u8) == 0) by (bit_vector);
    }
    Builder::new(riscv_template_exec())
}

/// Flags group `riscv`.
pub struct Flags {
    bytes: Vec<u8>,
}

impl View for Flags {
    type V = Seq<u8>;

    closed spec fn view(&self) -> Seq<u8> {
        self.bytes@
    }
}

impl Flags {
    #[verifier::type_invariant]
    spec fn sized(self) -> bool {
        self.bytes@.len() == 1
    }

    /// Create flags riscv settings group.
    ///
    /// The flags hold the settings of the builder's byte, and the predicate
    /// `full_float` holds when the shared `enable_simd` and the settings
    /// `supports_f` and `supports_d` all do (or when the builder's byte
    /// already had its bit, which no builder that [`builder`] made and that
    /// was then set has: see [`lemma_set_keeps_predicate_clear`]).
    pub fn new(shared: &settings::Flags, builder: Builder) -> (f: Flags)
        requires
            builder@.template.name == "riscv"@,
            builder@.bytes.len() == 1,
        ensures
            f@.len() == 1,
            f@[0] == (if bool_setting(shared_view(shared@), "enable_simd"@) == Some(true) && bit_set(
                builder@.bytes[0],
                2,
            ) && bit_set(builder@.bytes[0], 3) {
                with_bit(builder@.bytes[0], full_float_bit(), true)
            } else {
                builder@.bytes[0]
            }),
            forall|name: Seq<char>| #[trigger]
                bool_setting(riscv_view(f@), name) == bool_setting(riscv_view(builder@.bytes), name),
            full_float_of(f@) == ((bool_setting(shared_view(shared@), "enable_simd"@) == Some(true)
                && bool_setting(riscv_view(builder@.bytes), "supports_f"@) == Some(true)
                && bool_setting(riscv_view(builder@.bytes), "supports_d"@) == Some(true))
                || full_float_of(builder@.bytes)),
    {
        let bvec = builder.state_for("riscv");
        let mut byte = bvec[0];
        proof {
            lemma_riscv_lookup();
        }
        // The predicate `full_float`, in the bit after the settings.
        if shared.enable_simd() && test_bit(byte, 2) && test_bit(byte, 3) {
            byte = set_bit_of(byte, 5, true);
        }
        let f = Flags { bytes: vec![byte] };
        proof {
            let old_byte = builder@.bytes[0];
            assert(f@[0] == byte);
            assert forall|k: u8| k < 5 implies bit_set(byte, k) == bit_set(old_byte, k) by {
                lemma_with_bit(old_byte, 5, true, k);
            }
            lemma_with_bit(old_byte, 5, true, 5);
            assert forall|name: Seq<char>| #[trigger]
                bool_setting(riscv_view(f@), name) == bool_setting(riscv_view(builder@.bytes), name) by {
                lemma_setting_index_in(riscv_template().descriptors, name);
            }
        }
        f
    }

    /// Dynamic numbered predicate getter.
    pub fn numbered_predicate(&self, p: usize) -> (r: bool)
        requires
            p < 8,
        ensures
            r == bit_set(self@[0], p as u8),
    {
        proof {
            use_type_invariant(self);
        }
        test_bit(self.bytes[0], p as u8)
    }

    /// CPU supports the 'M' extension (mul/div)
    pub fn supports_m(&self) -> (r: bool)
        ensures
            Some(r) == bool_setting(riscv_view(self@), "supports_m"@),
    {
        proof {
            lemma_riscv_lookup();
        }
        self.numbered_predicate(0)
    }

    /// CPU supports the 'A' extension (atomics)
    pub fn supports_a(&self) -> (r: bool)
        ensures
            Some(r) == bool_setting(riscv_view(self@), "supports_a"@),
    {
        proof {
            lemma_riscv_lookup();
        }
        self.numbered_predicate(1)
    }

    /// CPU supports the 'F' extension (float)
    pub fn supports_f(&self) -> (r: bool)
        ensures
            Some(r) == bool_setting(riscv_view(self@), "supports_f"@),
    {
        proof {
            lemma_riscv_lookup();
        }
        self.numbered_predicate(2)
    }

    /// CPU supports the 'D' extension (double)
    pub fn supports_d(&self) -> (r: bool)
        ensures
            Some(r) == bool_setting(riscv_view(self@), "supports_d"@),
    {
        proof {
            lemma_riscv_lookup();
        }
        self.numbered_predicate(3)
    }

    /// Enable the use of 'M' instructions if available
    pub fn enable_m(&self) -> (r: bool)
        ensures
            Some(r) == bool_setting(riscv_view(self@), "enable_m"@),
    {
        proof {
            lemma_riscv_lookup();
        }
        self.numbered_predicate(4)
    }

    /// Computed predicate `shared.enable_simd && supports_f && supports_d`.
    pub fn full_float(&self) -> (r: bool)
        ensures
            r == full_float_of(self@),
    {
        self.numbered_predicate(5)
    }

    /// The settings as text: `[riscv]`, then one line `name = value` for
    /// each setting, in order. Predicates are not part of it.
    pub fn to_string(&self) -> (s: String)
        ensures
            s@ == group_text(riscv_template(), self@),
    {
        proof {
            use_type_invariant(self);
            lemma_riscv_lookup();
        }
        riscv_template_exec().format_group(self.bytes.as_slice())
    }
}

/// Setting a `riscv` setting, by value or by text, leaves the bit of the
/// predicate `full_float` clear, so flags made from a builder that
/// [`builder`] made and that was then set have `full_float` exactly when the
/// shared `enable_simd`, `supports_f` and `supports_d` all hold.
pub proof fn lemma_set_keeps_predicate_clear(b: BuilderView, name: Seq<char>, value: Seq<char>, flag: bool)
    requires
        b.template == riscv_template(),
        b.well_formed(),
        !full_float_of(b.bytes),
    ensures
        !full_float_of(set_bool_outcome(b, name, flag).1.bytes),
        !full_float_of(set_outcome(b, name, value).1.bytes),
{
    lemma_riscv_lookup();
    lemma_setting_index_in(riscv_template().descriptors, name);
    if let Some(i) = setting_index(riscv_template().descriptors, name) {
        let d = riscv_template().descriptors[i as int];
        assert(d.detail == (Detail::Bool { bit: i as u8 }));
        lemma_with_bit(b.bytes[0], i as u8, flag, 5);
        lemma_with_bit(b.bytes[0], i as u8, true, 5);
        lemma_with_bit(b.bytes[0], i as u8, false, 5);
    }
}

/// The setting that a name finds, if any, is one of the group's.
proof fn lemma_setting_index_in(descriptors: Seq<DescriptorView>, name: Seq<char>)
    ensures
        setting_index(descriptors, name) matches Some(i) ==> i < descriptors.len(),
{
    crate::settings::lemma_setting_index_bounds(descriptors, name, 0);
}

} // verus!
