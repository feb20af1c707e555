//! Implementation details of the settings groups: how each setting is
//! stored in a group's bytes, and how a group is printed.

use vstd::prelude::*;
use crate::text::{decimal, push_decimal};

verus! {

/// How a setting is stored in the bytes of its group.
#[derive(Clone, Copy, PartialEq, Eq, Structural, Debug)]
pub enum Detail {
    /// A boolean setting: one bit of its byte.
    Bool { bit: u8 },
    /// A numerical setting: its whole byte.
    Num,
    /// An enumerated setting: its byte is the index of its value among the
    /// `last + 1` names that start at index `enumerators` of the template's
    /// names.
    Enum { last: u8, enumerators: u16 },
}

/// A setting of a group: its name, the byte it is stored in, and how.
pub struct Descriptor {
    pub name: String,
    pub offset: u32,
    pub detail: Detail,
}

/// A settings group: its name, its settings, the names of the values of its
/// enumerated settings, and the default bytes.
pub struct Template {
    pub name: String,
    pub descriptors: Vec<Descriptor>,
    pub enumerators: Vec<String>,
    pub defaults: Vec<u8>,
}

/// The model of a [`Descriptor`].
pub struct DescriptorView {
    pub name: Seq<char>,
    pub offset: nat,
    pub detail: Detail,
}

/// The model of a [`Template`].
pub struct TemplateView {
    pub name: Seq<char>,
    pub descriptors: Seq<DescriptorView>,
    pub enumerators: Seq<Seq<char>>,
    pub defaults: Seq<u8>,
}

impl View for Descriptor {
    type V = DescriptorView;

    open spec fn view(&self) -> DescriptorView {
        DescriptorView { name: self.name@, offset: self.offset as nat, detail: self.detail }
    }
}

impl View for Template {
    type V = TemplateView;

    open spec fn view(&self) -> TemplateView {
        TemplateView {
            name: self.name@,
            descriptors: self.descriptors@.map_values(|d: Descriptor| d@),
            enumerators: self.enumerators@.map_values(|s: String| s@),
            defaults: self.defaults@,
        }
    }
}

/// The setting `d` lies within the bytes of `t`, a boolean setting names a
/// bit of its byte, and the values of an enumerated one lie within the
/// names of `t`.
pub open spec fn descriptor_fits(t: TemplateView, d: DescriptorView) -> bool {
    &&& d.offset < t.defaults.len()
    &&& match d.detail {
        Detail::Bool { bit } => bit < 8,
        Detail::Num => true,
        Detail::Enum { last, enumerators } => enumerators + last + 1 <= t.enumerators.len(),
    }
}

impl TemplateView {
    /// Every setting of the group fits it.
    pub open spec fn well_formed(self) -> bool {
        forall|i: int| 0 <= i < self.descriptors.len() ==> descriptor_fits(self, #[trigger] self.descriptors[i])
    }
}

/// Bit `bit` of `byte` is set.
pub open spec fn bit_set(byte: u8, bit: u8) -> bool {
    byte & (1u8 << bit) != 0
}

/// `byte` with bit `bit` set to `value`.
pub open spec fn with_bit(byte: u8, bit: u8, value: bool) -> u8 {
    if value {
        byte | (1u8 << bit)
    } else {
        byte & !(1u8 << bit)
    }
}

/// Setting a bit gives it the value set and leaves the other bits as they
/// were.
pub proof fn lemma_with_bit(byte: u8, bit: u8, value: bool, other: u8)
    requires
        bit < 8,
        other < 8,
    ensures
        bit_set(with_bit(byte, bit, value), bit) == value,
        other != bit ==> bit_set(with_bit(byte, bit, value), other) == bit_set(byte, other),
{
    if value {
        assert((byte | (1u8 << bit)) & (1u8 << bit) != 0) by (bit_vector)
            requires
                bit < 8,
        ;
        assert(other != bit ==> (((byte | (1u8 << bit)) & (1u8 << other) != 0) == (byte & (1u8
            << other) != 0))) by (bit_vector)
            requires
                bit < 8,
                other < 8,
        ;
    } else {
        assert((byte & !(1u8 << bit)) & (1u8 << bit) == 0) by (bit_vector)
            requires
                bit < 8,
        ;
        assert(other != bit ==> (((byte & !(1u8 << bit)) & (1u8 << other) != 0) == (byte & (1u8
            << other) != 0))) by (bit_vector)
            requires
                bit < 8,
                other < 8,
        ;
    }
}

/// Sets bit `bit` of `byte` to `value`.
pub fn set_bit_of(byte: u8, bit: u8, value: bool) -> (r: u8)
    requires
        bit < 8,
    ensures
        r == with_bit(byte, bit, value),
{
    if value {
        byte | (1u8 << bit)
    } else {
        byte & !(1u8 << bit)
    }
}

/// Tests bit `bit` of `byte`.
pub fn test_bit(byte: u8, bit: u8) -> (r: bool)
    requires
        bit < 8,
    ensures
        r == bit_set(byte, bit),
{
    byte & (1u8 << bit) != 0
}

/// The index of the first setting of `descriptors`, from index `i` on, named
/// `name`.
pub open spec fn setting_index_from(descriptors: Seq<DescriptorView>, name: Seq<char>, i: nat) -> Option<nat>
    decreases descriptors.len() - i,
{
    if i >= descriptors.len() {
        None
    } else if descriptors[i as int].name == name {
        Some(i)
    } else {
        setting_index_from(descriptors, name, i + 1)
    }
}

/// The index of the first setting of `descriptors` named `name`.
pub open spec fn setting_index(descriptors: Seq<DescriptorView>, name: Seq<char>) -> Option<nat> {
    setting_index_from(descriptors, name, 0)
}

/// The index of the first of `names` that is `value`.
pub open spec fn name_index_from(names: Seq<Seq<char>>, value: Seq<char>, i: nat) -> Option<nat>
    decreases names.len() - i,
{
    if i >= names.len() {
        None
    } else if names[i as int] == value {
        Some(i)
    } else {
        name_index_from(names, value, i + 1)
    }
}

/// The names of the values of an enumerated setting.
pub open spec fn enum_names(t: TemplateView, last: u8, enumerators: u16) -> Seq<Seq<char>> {
    t.enumerators.subrange(enumerators as int, enumerators + last + 1)
}

/// How a setting stored as `detail` whose byte is `byte` is printed: a
/// boolean as `true` or `false`, a number in decimal, and an enumerated
/// value as its quoted name, or in decimal where its byte names none.
pub open spec fn toml_value(t: TemplateView, detail: Detail, byte: u8) -> Seq<char> {
    match detail {
        Detail::Bool { bit } => if bit_set(byte, bit) {
            "true"@
        } else {
            "false"@
        },
        Detail::Num => decimal(byte as nat),
        Detail::Enum { last, enumerators } => if byte <= last {
            "\""@ + t.enumerators[enumerators + byte] + "\""@
        } else {
            decimal(byte as nat)
        },
    }
}

/// The lines `name = value` of the first `n` settings of `t`, in order.
pub open spec fn settings_lines(t: TemplateView, bytes: Seq<u8>, n: nat) -> Seq<char>
    decreases n,
{
    if n == 0 {
        Seq::empty()
    } else {
        let d = t.descriptors[n - 1];
        settings_lines(t, bytes, (n - 1) as nat) + d.name + " = "@ + toml_value(
            t,
            d.detail,
            bytes[d.offset as int],
        ) + "\n"@
    }
}

/// How a group is printed: its name in brackets on a line, then one line
/// `name = value` for each setting, in order.
pub open spec fn group_text(t: TemplateView, bytes: Seq<u8>) -> Seq<char> {
    "["@ + t.name + "]\n"@ + settings_lines(t, bytes, t.descriptors.len())
}

impl Template {
    /// Appends how a setting stored as `detail` whose byte is `byte` is
    /// printed.
    pub fn format_toml_value(&self, detail: Detail, byte: u8, out: &mut String)
        requires
            match detail {
                Detail::Bool { bit } => bit < 8,
                Detail::Num => true,
                Detail::Enum { last, enumerators } => byte <= last ==> enumerators + last + 1
                    <= self.enumerators.len(),
            },
        ensures
            final(out)@ == old(out)@ + toml_value(self@, detail, byte),
    {
        match detail {
            Detail::Bool { bit } => {
                if test_bit(byte, bit) {
                    out.append("true");
                } else {
                    out.append("false");
                }
            },
            Detail::Num => push_decimal(out, byte as usize),
            Detail::Enum { last, enumerators } => {
                if byte <= last {
                    let k = enumerators as usize + byte as usize;
                    out.append("\"");
                    out.append(self.enumerators[k].as_str());
                    out.append("\"");
                    proof {
                        assert(final(out)@ =~= old(out)@ + toml_value(self@, detail, byte));
                    }
                } else {
                    push_decimal(out, byte as usize);
                }
            },
        }
    }

    /// How the group is printed with the bytes `bytes`.
    pub fn format_group(&self, bytes: &[u8]) -> (s: String)
        requires
            self@.well_formed(),
            bytes@.len() >= self@.defaults.len(),
        ensures
            s@ == group_text(self@, bytes@),
    {
        let mut s = String::new();
        s.append("[");
        s.append(self.name.as_str());
        s.append("]\n");
        let mut i: usize = 0;
        while i < self.descriptors.len()
            invariant
                i <= self.descriptors.len(),
                self@.well_formed(),
                bytes@.len() >= self@.defaults.len(),
                s@ == "["@ + self@.name + "]\n"@ + settings_lines(self@, bytes@, i as nat),
            decreases self.descriptors.len() - i,
        {
            let d = &self.descriptors[i];
            proof {
                assert(descriptor_fits(self@, self@.descriptors[i as int]));
                assert(self@.descriptors[i as int] == d@);
            }
            let ghost before = s@;
            s.append(d.name.as_str());
            s.append(" = ");
            self.format_toml_value(d.detail, bytes[d.offset as usize], &mut s);
            s.append("\n");
            proof {
                assert(s@ =~= "["@ + self@.name + "]\n"@ + settings_lines(self@, bytes@, (i + 1) as nat));
            }
            i = i + 1;
        }
        s
    }
}

} // verus!
