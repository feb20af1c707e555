//! Shared settings module.
//!
//! This module defines data structures to access the settings defined in the
//! shared settings group, and the `Builder` that collects the values of any
//! settings group before its flags are made.
//!
//! A setting is changed by name, with `set_bool` for a boolean setting or
//! with `set` and the text of a value for a setting of any kind. A setting
//! that is set reads back the value it was set to, and nothing else changes.

pub mod detail;

use vstd::prelude::*;
use self::detail::{
    bit_set, descriptor_fits, enum_names, group_text, name_index_from, set_bit_of,
    setting_index, setting_index_from, test_bit, with_bit, lemma_with_bit, Descriptor,
    DescriptorView, Detail, Template, TemplateView, toml_value,
};
use crate::text::{decimal, digit_char};

verus! {

/// An error produced when changing a setting.
#[derive(Debug, Clone, Copy, PartialEq, Eq, Structural)]
pub enum Error {
    /// No setting by this name exists.
    BadName,
    /// Type mismatch for setting (e.g., setting an enum setting as a bool).
    BadType,
    /// This is not a valid value for this setting.
    BadValue,
}

/// Generic interface for configuring settings.
pub trait Configurable {
    /// Set the string value of any setting by name.
    ///
    /// This can set any type of setting whether it is numeric, boolean, or enumerated.
    fn set(&mut self, name: &str, value: &str) -> Result<(), Error>;

    /// Set the value of a boolean setting by name.
    ///
    /// If the identified setting isn't a boolean, a `BadType` error is returned.
    fn set_bool(&mut self, name: &str, value: bool) -> Result<(), Error>;
}

/// The model of a [`Builder`]: the group's template and the current bytes.
pub struct BuilderView {
    pub template: TemplateView,
    pub bytes: Seq<u8>,
}

impl BuilderView {
    /// The template is well formed and the bytes are as many as its defaults.
    pub open spec fn well_formed(self) -> bool {
        self.template.well_formed() && self.bytes.len() == self.template.defaults.len()
    }
}

/// The value of the boolean setting `name`, if the group has a boolean
/// setting by that name.
pub open spec fn bool_setting(b: BuilderView, name: Seq<char>) -> Option<bool> {
    match setting_index(b.template.descriptors, name) {
        Some(i) => {
            let d = b.template.descriptors[i as int];
            match d.detail {
                Detail::Bool { bit } => Some(bit_set(b.bytes[d.offset as int], bit)),
                _ => None,
            }
        },
        None => None,
    }
}

/// The byte of the enumerated or numerical setting `name`, if the group has
/// one by that name.
pub open spec fn byte_setting(b: BuilderView, name: Seq<char>) -> Option<u8> {
    match setting_index(b.template.descriptors, name) {
        Some(i) => {
            let d = b.template.descriptors[i as int];
            match d.detail {
                Detail::Bool { .. } => None,
                _ => Some(b.bytes[d.offset as int]),
            }
        },
        None => None,
    }
}

/// `b` with byte `offset` replaced by `byte`.
pub open spec fn with_byte(b: BuilderView, offset: nat, byte: u8) -> BuilderView {
    BuilderView { template: b.template, bytes: b.bytes.update(offset as int, byte) }
}

/// What `set_bool(name, value)` returns, and the builder it leaves.
pub open spec fn set_bool_outcome(b: BuilderView, name: Seq<char>, value: bool) -> (
    Result<(), Error>,
    BuilderView,
) {
    match setting_index(b.template.descriptors, name) {
        None => (Err(Error::BadName), b),
        Some(i) => {
            let d = b.template.descriptors[i as int];
            match d.detail {
                Detail::Bool { bit } => (
                    Ok(()),
                    with_byte(b, d.offset, with_bit(b.bytes[d.offset as int], bit, value)),
                ),
                _ => (Err(Error::BadType), b),
            }
        },
    }
}

/// The boolean that the text `value` spells: `true`, `on`, `yes` or `1`,
/// or `false`, `off`, `no` or `0`.
pub open spec fn parse_bool_value(value: Seq<char>) -> Option<bool> {
    if value == "true"@ || value == "on"@ || value == "yes"@ || value == "1"@ {
        Some(true)
    } else if value == "false"@ || value == "off"@ || value == "no"@ || value == "0"@ {
        Some(false)
    } else {
        None
    }
}

/// `c` is a decimal digit.
pub open spec fn is_digit(c: char) -> bool {
    48 <= (c as u32) <= 57
}

/// The number that the decimal digits `s` spell.
pub open spec fn digits_value(s: Seq<char>) -> nat
    decreases s.len(),
{
    if s.len() == 0 {
        0
    } else {
        digits_value(s.drop_last()) * 10 + ((s.last() as u32) - 48) as nat
    }
}

/// The `u8` that the text `value` spells as `u8::from_str` reads it: an
/// optional `+`, then one or more decimal digits whose number fits in a `u8`.
pub open spec fn parse_u8_value(value: Seq<char>) -> Option<u8> {
    let digits = unsigned_digits(value);
    if digits.len() > 0 && all_digits(digits) && digits_value(digits) <= 255 {
        Some(digits_value(digits) as u8)
    } else {
        None
    }
}

/// `value` without the `+` it may start with.
pub open spec fn unsigned_digits(value: Seq<char>) -> Seq<char> {
    if value.len() > 0 && value[0] == '+' {
        value.drop_first()
    } else {
        value
    }
}

/// Every character of `s` is a decimal digit.
pub open spec fn all_digits(s: Seq<char>) -> bool {
    forall|i: int| 0 <= i < s.len() ==> is_digit(#[trigger] s[i])
}

/// What `set(name, value)` returns, and the builder it leaves.
pub open spec fn set_outcome(b: BuilderView, name: Seq<char>, value: Seq<char>) -> (
    Result<(), Error>,
    BuilderView,
) {
    match setting_index(b.template.descriptors, name) {
        None => (Err(Error::BadName), b),
        Some(i) => {
            let d = b.template.descriptors[i as int];
            match d.detail {
                Detail::Bool { bit } => match parse_bool_value(value) {
                    Some(v) => (
                        Ok(()),
                        with_byte(b, d.offset, with_bit(b.bytes[d.offset as int], bit, v)),
                    ),
                    None => (Err(Error::BadValue), b),
                },
                Detail::Num => match parse_u8_value(value) {
                    Some(n) => (Ok(()), with_byte(b, d.offset, n)),
                    None => (Err(Error::BadValue), b),
                },
                Detail::Enum { last, enumerators } => match name_index_from(
                    enum_names(b.template, last, enumerators),
                    value,
                    0,
                ) {
                    Some(k) => (Ok(()), with_byte(b, d.offset, k as u8)),
                    None => (Err(Error::BadValue), b),
                },
            }
        },
    }
}

/// `a` and `b` are the same text.
fn str_eq(a: &str, b: &str) -> (r: bool)
    ensures
        r == (a@ == b@),
{
    String::from_str(a) == String::from_str(b)
}

/// Reads a boolean value: `true`, `on`, `yes` or `1`, or `false`, `off`,
/// `no` or `0`.
fn parse_bool(value: &str) -> (r: Result<bool, Error>)
    ensures
        r == match parse_bool_value(value@) {
            Some(v) => Ok::<bool, Error>(v),
            None => Err(Error::BadValue),
        },
{
    if str_eq(value, "true") || str_eq(value, "on") || str_eq(value, "yes") || str_eq(value, "1") {
        Ok(true)
    } else if str_eq(value, "false") || str_eq(value, "off") || str_eq(value, "no") || str_eq(
        value,
        "0",
    ) {
        Ok(false)
    } else {
        Err(Error::BadValue)
    }
}

/// A number spelled by all-digit text is at least the number spelled by any
/// prefix of it.
proof fn lemma_digits_value_prefix(s: Seq<char>, k: int)
    requires
        0 <= k <= s.len(),
        forall|i: int| 0 <= i < s.len() ==> is_digit(#[trigger] s[i]),
    ensures
        digits_value(s.take(k)) <= digits_value(s),
    decreases s.len() - k,
{
    if k < s.len() {
        lemma_digits_value_prefix(s, k + 1);
        assert(s.take(k + 1).drop_last() =~= s.take(k));
    } else {
        assert(s.take(k) =~= s);
    }
}

/// Reads a `u8` as `u8::from_str` does: an optional `+`, then decimal digits.
fn parse_u8(value: &str) -> (r: Option<u8>)
    ensures
        r == parse_u8_value(value@),
{
    let len = value.unicode_len();
    let mut start: usize = 0;
    if len > 0 && value.get_char(0) == '+' {
        start = 1;
    }
    let ghost digits = unsigned_digits(value@);
    proof {
        assert(digits =~= value@.skip(start as int));
    }
    if start >= len {
        return None;
    }
    let mut n: u32 = 0;
    let mut i: usize = start;
    while i < len
        invariant
            len == value@.len(),
            start <= i <= len,
            digits =~= value@.skip(start as int),
            digits == unsigned_digits(value@),
            n <= 255,
            n == digits_value(digits.take(i - start)),
            forall|j: int| 0 <= j < i - start ==> is_digit(#[trigger] digits[j]),
        decreases len - i,
    {
        let c = value.get_char(i);
        let code = c as u32;
        if code < 48 || code > 57 {
            proof {
                assert(digits[i - start] == c);
                assert(!is_digit(digits[i - start]));
            }
            return None;
        }
        proof {
            assert(digits[i - start] == c);
            assert(digits.take(i - start + 1).drop_last() =~= digits.take(i - start));
            assert(digits.take(i - start + 1).last() == c);
        }
        let next = n * 10 + (code - 48);
        proof {
            assert(digits_value(digits.take(i - start + 1)) == next);
        }
        if next > 255 {
            proof {
                if all_digits(digits) {
                    lemma_digits_value_prefix(digits, i - start + 1);
                }
            }
            return None;
        }
        n = next;
        i = i + 1;
    }
    proof {
        assert(digits.take(i - start) =~= digits);
    }
    Some(n as u8)
}

/// Collect settings values based on a template.
pub struct Builder {
    template: Template,
    bytes: Vec<u8>,
}

impl View for Builder {
    type V = BuilderView;

    closed spec fn view(&self) -> BuilderView {
        BuilderView { template: self.template@, bytes: self.bytes@ }
    }
}

impl Builder {
    #[verifier::type_invariant]
    spec fn consistent(self) -> bool {
        self@.well_formed()
    }

    /// Create a new builder with defaults and names from the given template.
    pub fn new(tmpl: Template) -> (b: Builder)
        requires
            tmpl@.well_formed(),
        ensures
            b@.template == tmpl@,
            b@.bytes == tmpl@.defaults,
            b@.well_formed(),
    {
        let bytes = tmpl.defaults.clone();
        proof {
            assert(bytes@ =~= tmpl@.defaults);
        }
        Builder { template: tmpl, bytes }
    }

    /// Extract contents of builder once everything is configured.
    pub fn state_for(&self, name: &str) -> (state: &[u8])
        requires
            name@ == self@.template.name,
        ensures
            state@ == self@.bytes,
            self@.well_formed(),
    {
        proof {
            use_type_invariant(self);
        }
        self.bytes.as_slice()
    }

    /// Look up a descriptor by name: its byte and how the setting is stored.
    fn lookup(&self, name: &str) -> (r: Result<(usize, Detail), Error>)
        ensures
            match setting_index(self@.template.descriptors, name@) {
                None => r == Err::<(usize, Detail), Error>(Error::BadName),
                Some(i) => r == Ok::<(usize, Detail), Error>(
                    (
                        self@.template.descriptors[i as int].offset as usize,
                        self@.template.descriptors[i as int].detail,
                    ),
                ),
            },
    {
        let key = String::from_str(name);
        let mut i: usize = 0;
        while i < self.template.descriptors.len()
            invariant
                i <= self.template.descriptors.len(),
                key@ == name@,
                setting_index_from(self@.template.descriptors, name@, i as nat) == setting_index(
                    self@.template.descriptors,
                    name@,
                ),
            decreases self.template.descriptors.len() - i,
        {
            let d = &self.template.descriptors[i];
            proof {
                assert(self@.template.descriptors[i as int] == d@);
            }
            if d.name == key {
                return Ok((d.offset as usize, d.detail));
            }
            i = i + 1;
        }
        Err(Error::BadName)
    }

    /// Store `byte` as byte `offset`.
    fn set_byte(&mut self, offset: usize, byte: u8)
        requires
            offset < old(self)@.bytes.len(),
        ensures
            final(self)@ == with_byte(old(self)@, offset as nat, byte),
    {
        proof {
            use_type_invariant(&*self);
        }
        let mut bytes = self.bytes.clone();
        proof {
            assert(bytes@ =~= old(self)@.bytes);
        }
        bytes.set(offset, byte);
        self.bytes = bytes;
        proof {
            assert(self@.bytes =~= old(self)@.bytes.update(offset as int, byte));
        }
    }
}

impl Configurable for Builder {
    fn set_bool(&mut self, name: &str, value: bool) -> (r: Result<(), Error>)
        ensures
            (r, final(self)@) == set_bool_outcome(old(self)@, name@, value),
            final(self)@.well_formed(),
    {
        proof {
            use_type_invariant(&*self);
        }
        let (offset, detail) = self.lookup(name)?;
        proof {
            let i = setting_index(self@.template.descriptors, name@).unwrap();
            lemma_setting_index_bounds(self@.template.descriptors, name@, 0);
            assert(descriptor_fits(self@.template, self@.template.descriptors[i as int]));
        }
        match detail {
            Detail::Bool { bit } => {
                let byte = set_bit_of(self.bytes[offset], bit, value);
                self.set_byte(offset, byte);
                Ok(())
            },
            _ => Err(Error::BadType),
        }
    }

    fn set(&mut self, name: &str, value: &str) -> (r: Result<(), Error>)
        ensures
            (r, final(self)@) == set_outcome(old(self)@, name@, value@),
            final(self)@.well_formed(),
    {
        proof {
            use_type_invariant(&*self);
        }
        let (offset, detail) = self.lookup(name)?;
        proof {
            let i = setting_index(self@.template.descriptors, name@).unwrap();
            lemma_setting_index_bounds(self@.template.descriptors, name@, 0);
            assert(descriptor_fits(self@.template, self@.template.descriptors[i as int]));
        }
        match detail {
            Detail::Bool { bit } => {
                let v = parse_bool(value)?;
                let byte = set_bit_of(self.bytes[offset], bit, v);
                self.set_byte(offset, byte);
                Ok(())
            },
            Detail::Num => {
                match parse_u8(value) {
                    Some(n) => {
                        self.set_byte(offset, n);
                        Ok(())
                    },
                    None => Err(Error::BadValue),
                }
            },
            Detail::Enum { last, enumerators } => {
                match self.enum_index(value, last, enumerators) {
                    Some(k) => {
                        self.set_byte(offset, k);
                        Ok(())
                    },
                    None => Err(Error::BadValue),
                }
            },
        }
    }
}

impl Builder {
    /// The index of `value` among the names of the values of an enumerated
    /// setting.
    fn enum_index(&self, value: &str, last: u8, enumerators: u16) -> (r: Option<u8>)
        requires
            enumerators + last + 1 <= self@.template.enumerators.len(),
        ensures
            r == match name_index_from(enum_names(self@.template, last, enumerators), value@, 0) {
                Some(k) => Some(k as u8),
                None => None::<u8>,
            },
    {
        let ghost names = enum_names(self@.template, last, enumerators);
        let mut k: u8 = 0;
        loop
            invariant
                k <= last,
                enumerators + last + 1 <= self@.template.enumerators.len(),
                names == enum_names(self@.template, last, enumerators),
                name_index_from(names, value@, k as nat) == name_index_from(names, value@, 0),
            decreases last - k,
        {
            let idx = enumerators as usize + k as usize;
            proof {
                assert(names[k as int] == self@.template.enumerators[idx as int]);
                assert(self@.template.enumerators[idx as int] == self.template.enumerators@[idx as int]@);
            }
            if str_eq(self.template.enumerators[idx].as_str(), value) {
                return Some(k);
            }
            if k == last {
                proof {
                    assert(name_index_from(names, value@, (k + 1) as nat) == None::<nat>);
                }
                return None;
            }
            k = k + 1;
        }
    }
}

/// The index of the first setting named `name` lies within the settings.
pub proof fn lemma_setting_index_bounds(descriptors: Seq<DescriptorView>, name: Seq<char>, i: nat)
    ensures
        setting_index_from(descriptors, name, i) matches Some(k) ==> i <= k < descriptors.len()
            && descriptors[k as int].name == name,
    decreases descriptors.len() - i,
{
    if i < descriptors.len() && descriptors[i as int].name != name {
        lemma_setting_index_bounds(descriptors, name, i + 1);
    }
}


// ---------------------------------------------------------------------------
// What setting a value does.
// ---------------------------------------------------------------------------

/// Where the boolean setting `name` is stored: its byte and its bit.
pub open spec fn bool_location(b: BuilderView, name: Seq<char>) -> Option<(nat, u8)> {
    match setting_index(b.template.descriptors, name) {
        Some(i) => match b.template.descriptors[i as int].detail {
            Detail::Bool { bit } => Some((b.template.descriptors[i as int].offset, bit)),
            _ => None,
        },
        None => None,
    }
}

/// A boolean setting that is set reads back the value it was set to.
pub proof fn lemma_set_bool_reads_back(b: BuilderView, name: Seq<char>, value: bool)
    requires
        b.well_formed(),
        set_bool_outcome(b, name, value).0 is Ok,
    ensures
        bool_setting(set_bool_outcome(b, name, value).1, name) == Some(value),
        set_bool_outcome(b, name, value).1.well_formed(),
{
    lemma_setting_index_bounds(b.template.descriptors, name, 0);
    let i = setting_index(b.template.descriptors, name).unwrap();
    let d = b.template.descriptors[i as int];
    assert(descriptor_fits(b.template, d));
    if let Detail::Bool { bit } = d.detail {
        lemma_with_bit(b.bytes[d.offset as int], bit, value, bit);
    }
}

/// Setting a boolean leaves every boolean setting stored elsewhere as it
/// was.
pub proof fn lemma_set_bool_keeps_others(b: BuilderView, name: Seq<char>, value: bool, other: Seq<char>)
    requires
        b.well_formed(),
        bool_location(b, other) != bool_location(b, name),
    ensures
        bool_setting(set_bool_outcome(b, name, value).1, other) == bool_setting(b, other),
{
    lemma_setting_index_bounds(b.template.descriptors, name, 0);
    lemma_setting_index_bounds(b.template.descriptors, other, 0);
    if let Some(i) = setting_index(b.template.descriptors, name) {
        let d = b.template.descriptors[i as int];
        assert(descriptor_fits(b.template, d));
        if let Detail::Bool { bit } = d.detail {
            if let Some(j) = setting_index(b.template.descriptors, other) {
                let e = b.template.descriptors[j as int];
                assert(descriptor_fits(b.template, e));
                if let Detail::Bool { bit: other_bit } = e.detail {
                    if e.offset == d.offset {
                        lemma_with_bit(b.bytes[d.offset as int], bit, value, other_bit);
                    }
                }
            }
        }
    }
}

/// A setting that is not changed is left as it was, and so is the builder.
pub proof fn lemma_failed_set_changes_nothing(b: BuilderView, name: Seq<char>, value: Seq<char>, flag: bool)
    ensures
        set_outcome(b, name, value).0 is Err ==> set_outcome(b, name, value).1 == b,
        set_bool_outcome(b, name, flag).0 is Err ==> set_bool_outcome(b, name, flag).1 == b,
{
}

/// Setting a boolean setting by the text of a boolean does what setting it
/// to that boolean does.
pub proof fn lemma_set_text_of_bool(b: BuilderView, name: Seq<char>, value: Seq<char>)
    requires
        bool_setting(b, name) is Some,
        parse_bool_value(value) is Some,
    ensures
        set_outcome(b, name, value) == set_bool_outcome(b, name, parse_bool_value(value).unwrap()),
{
}

/// An enumerated setting that is set names the value it was set to, and a
/// numerical one holds the number.
pub proof fn lemma_set_reads_back(b: BuilderView, name: Seq<char>, value: Seq<char>)
    requires
        b.well_formed(),
        set_outcome(b, name, value).0 is Ok,
        bool_setting(b, name) is None,
    ensures
        match setting_index(b.template.descriptors, name) {
            Some(i) => match b.template.descriptors[i as int].detail {
                Detail::Enum { last, enumerators } => {
                    let byte = byte_setting(set_outcome(b, name, value).1, name).unwrap();
                    &&& byte <= last
                    &&& b.template.enumerators[enumerators + byte] == value
                },
                Detail::Num => byte_setting(set_outcome(b, name, value).1, name) == parse_u8_value(
                    value,
                ),
                Detail::Bool { .. } => false,
            },
            None => false,
        },
{
    lemma_setting_index_bounds(b.template.descriptors, name, 0);
    let i = setting_index(b.template.descriptors, name).unwrap();
    let d = b.template.descriptors[i as int];
    assert(descriptor_fits(b.template, d));
    if let Detail::Enum { last, enumerators } = d.detail {
        let names = enum_names(b.template, last, enumerators);
        lemma_name_index_found(names, value, 0);
        let k = name_index_from(names, value, 0).unwrap();
        assert(names[k as int] == b.template.enumerators[enumerators + k]);
    }
}

/// Each word of a boolean is read as that boolean.
pub proof fn lemma_bool_words()
    ensures
        parse_bool_value("true"@) == Some(true),
        parse_bool_value("on"@) == Some(true),
        parse_bool_value("yes"@) == Some(true),
        parse_bool_value("1"@) == Some(true),
        parse_bool_value("false"@) == Some(false),
        parse_bool_value("off"@) == Some(false),
        parse_bool_value("no"@) == Some(false),
        parse_bool_value("0"@) == Some(false),
{
    reveal_strlit("true");
    reveal_strlit("on");
    reveal_strlit("yes");
    reveal_strlit("1");
    reveal_strlit("false");
    reveal_strlit("off");
    reveal_strlit("no");
    reveal_strlit("0");
    assert("true"@.len() == 4);
    assert("on"@.len() == 2);
    assert("yes"@.len() == 3);
    assert("1"@.len() == 1);
    assert("false"@.len() == 5);
    assert("off"@.len() == 3);
    assert("no"@.len() == 2);
    assert("0"@.len() == 1);
    assert("off"@[0] != "yes"@[0]);
    assert("no"@[0] != "on"@[0]);
    assert("0"@[0] != "1"@[0]);
}

/// Setting a boolean setting by the text `true`, `on`, `yes` or `1`
/// succeeds and the setting reads back `true`; by `false`, `off`, `no` or
/// `0` it succeeds and reads back `false`.
pub proof fn lemma_set_bool_words(b: BuilderView, name: Seq<char>)
    requires
        b.well_formed(),
        bool_setting(b, name) is Some,
    ensures
        forall|w: Seq<char>|
            w == "true"@ || w == "on"@ || w == "yes"@ || w == "1"@ ==> #[trigger] set_outcome(
                b,
                name,
                w,
            ).0 == Ok::<(), Error>(()) && bool_setting(set_outcome(b, name, w).1, name) == Some(
                true,
            ),
        forall|w: Seq<char>|
            w == "false"@ || w == "off"@ || w == "no"@ || w == "0"@ ==> #[trigger] set_outcome(
                b,
                name,
                w,
            ).0 == Ok::<(), Error>(()) && bool_setting(set_outcome(b, name, w).1, name) == Some(
                false,
            ),
{
    lemma_bool_words();
    lemma_set_bool_reads_back(b, name, true);
    lemma_set_bool_reads_back(b, name, false);
    assert forall|w: Seq<char>| w == "true"@ || w == "on"@ || w == "yes"@ || w == "1"@ implies #[trigger] set_outcome(
        b,
        name,
        w,
    ).0 == Ok::<(), Error>(()) && bool_setting(set_outcome(b, name, w).1, name) == Some(true) by {
        lemma_set_text_of_bool(b, name, w);
    }
    assert forall|w: Seq<char>| w == "false"@ || w == "off"@ || w == "no"@ || w == "0"@ implies #[trigger] set_outcome(
        b,
        name,
        w,
    ).0 == Ok::<(), Error>(()) && bool_setting(set_outcome(b, name, w).1, name) == Some(false) by {
        lemma_set_text_of_bool(b, name, w);
    }
}

/// The decimal representation of a number is all digits, spelling that
/// number.
pub proof fn lemma_decimal_digits(n: nat)
    ensures
        all_digits(decimal(n)),
        digits_value(decimal(n)) == n,
        decimal(n).len() > 0,
        decimal(n)[0] != '+',
    decreases n,
{
    assert(digit_char(0) as u32 == 48);
    assert(digit_char(1) as u32 == 49);
    assert(digit_char(2) as u32 == 50);
    assert(digit_char(3) as u32 == 51);
    assert(digit_char(4) as u32 == 52);
    assert(digit_char(5) as u32 == 53);
    assert(digit_char(6) as u32 == 54);
    assert(digit_char(7) as u32 == 55);
    assert(digit_char(8) as u32 == 56);
    assert(digit_char(9) as u32 == 57);
    let d = decimal(n);
    if n < 10 {
        assert(d.drop_last() =~= Seq::<char>::empty());
        assert(d.last() == digit_char(n));
        assert(digits_value(d) == digits_value(d.drop_last()) * 10 + ((d.last() as u32) - 48) as nat);
    } else {
        lemma_decimal_digits(n / 10);
        assert(d.drop_last() =~= decimal(n / 10));
        assert(d.last() == digit_char(n % 10));
        assert(d[0] == decimal(n / 10)[0]);
        assert forall|i: int| 0 <= i < d.len() implies is_digit(#[trigger] d[i]) by {
            if i < d.len() - 1 {
                assert(d[i] == decimal(n / 10)[i]);
            }
        }
        assert(n == (n / 10) * 10 + n % 10);
    }
}

/// Every `u8`, written in decimal, with or without a leading `+`, is read
/// as itself.
pub proof fn lemma_parse_u8_decimal(n: u8)
    ensures
        parse_u8_value(decimal(n as nat)) == Some(n),
        parse_u8_value(seq!['+'] + decimal(n as nat)) == Some(n),
{
    lemma_decimal_digits(n as nat);
    assert(unsigned_digits(decimal(n as nat)) == decimal(n as nat));
    assert((seq!['+'] + decimal(n as nat)).drop_first() =~= decimal(n as nat));
    assert(unsigned_digits(seq!['+'] + decimal(n as nat)) == decimal(n as nat));
}

/// Setting a numerical setting to a `u8` written in decimal succeeds, and
/// the setting then holds that number.
pub proof fn lemma_set_number(b: BuilderView, name: Seq<char>, n: u8)
    requires
        b.well_formed(),
        setting_index(b.template.descriptors, name) matches Some(i) && b.template.descriptors[i as int].detail
            == Detail::Num,
    ensures
        set_outcome(b, name, decimal(n as nat)).0 == Ok::<(), Error>(()),
        byte_setting(set_outcome(b, name, decimal(n as nat)).1, name) == Some(n),
{
    lemma_parse_u8_decimal(n);
    lemma_setting_index_bounds(b.template.descriptors, name, 0);
    let i = setting_index(b.template.descriptors, name).unwrap();
    assert(descriptor_fits(b.template, b.template.descriptors[i as int]));
}

/// Once an enumerated setting is set to a value, the group prints it as
/// that value's quoted name; once a boolean setting is set, it prints as
/// `true` or `false` as it was set.
pub proof fn lemma_set_then_print(b: BuilderView, name: Seq<char>, value: Seq<char>, flag: bool)
    requires
        b.well_formed(),
        setting_index(b.template.descriptors, name) is Some,
    ensures
        ({
            let d = b.template.descriptors[setting_index(b.template.descriptors, name).unwrap() as int];
            let after = set_outcome(b, name, value).1;
            (d.detail is Enum && set_outcome(b, name, value).0 is Ok) ==> toml_value(
                after.template,
                d.detail,
                after.bytes[d.offset as int],
            ) == "\""@ + value + "\""@
        }),
        ({
            let d = b.template.descriptors[setting_index(b.template.descriptors, name).unwrap() as int];
            let after = set_bool_outcome(b, name, flag).1;
            d.detail is Bool ==> toml_value(after.template, d.detail, after.bytes[d.offset as int])
                == if flag {
                "true"@
            } else {
                "false"@
            }
        }),
{
    lemma_setting_index_bounds(b.template.descriptors, name, 0);
    let i = setting_index(b.template.descriptors, name).unwrap();
    let d = b.template.descriptors[i as int];
    assert(descriptor_fits(b.template, d));
    if let Detail::Enum { last, enumerators } = d.detail {
        if set_outcome(b, name, value).0 is Ok {
            lemma_set_reads_back(b, name, value);
        }
    }
    if let Detail::Bool { bit } = d.detail {
        lemma_with_bit(b.bytes[d.offset as int], bit, flag, bit);
    }
}

/// The index of the first of `names` that is `value` lies within `names`
/// and names `value`.
pub proof fn lemma_name_index_found(names: Seq<Seq<char>>, value: Seq<char>, i: nat)
    ensures
        name_index_from(names, value, i) matches Some(k) ==> i <= k < names.len() && names[k as int]
            == value,
    decreases names.len() - i,
{
    if i < names.len() && names[i as int] != value {
        lemma_name_index_found(names, value, i + 1);
    }
}

// ---------------------------------------------------------------------------
// The shared settings group.
// ---------------------------------------------------------------------------

/// The shared settings group: the optimization level, then four booleans
/// stored in the bits of the second byte.
pub open spec fn shared_template() -> TemplateView {
    TemplateView {
        name: "shared"@,
        descriptors: seq![
            DescriptorView {
                name: "opt_level"@,
                offset: 0,
                detail: Detail::Enum { last: 2, enumerators: 0 },
            },
            DescriptorView { name: "is_64bit"@, offset: 1, detail: Detail::Bool { bit: 0 } },
            DescriptorView { name: "enable_float"@, offset: 1, detail: Detail::Bool { bit: 1 } },
            DescriptorView { name: "enable_simd"@, offset: 1, detail: Detail::Bool { bit: 2 } },
            DescriptorView { name: "enable_atomics"@, offset: 1, detail: Detail::Bool { bit: 3 } },
        ],
        enumerators: seq!["default"@, "best"@, "fastest"@],
        defaults: seq![0x00u8, 0x0eu8],
    }
}

/// The shared settings group read from the bytes `bytes`.
pub open spec fn shared_view(bytes: Seq<u8>) -> BuilderView {
    BuilderView { template: shared_template(), bytes }
}

/// Where each shared setting is found.
pub proof fn lemma_shared_lookup()
    ensures
        setting_index(shared_template().descriptors, "opt_level"@) == Some(0nat),
        setting_index(shared_template().descriptors, "is_64bit"@) == Some(1nat),
        setting_index(shared_template().descriptors, "enable_float"@) == Some(2nat),
        setting_index(shared_template().descriptors, "enable_simd"@) == Some(3nat),
        setting_index(shared_template().descriptors, "enable_atomics"@) == Some(4nat),
        shared_template().well_formed(),
{
    reveal_strlit("opt_level");
    reveal_strlit("is_64bit");
    reveal_strlit("enable_float");
    reveal_strlit("enable_simd");
    reveal_strlit("enable_atomics");
    reveal_strlit("default");
    reveal_strlit("best");
    reveal_strlit("fastest");
    assert("opt_level"@.len() == 9);
    assert("is_64bit"@.len() == 8);
    assert("enable_float"@.len() == 12);
    assert("enable_simd"@.len() == 11);
    assert("enable_atomics"@.len() == 14);
    let d = shared_template().descriptors;
    assert(setting_index_from(d, "enable_atomics"@, 3) == setting_index_from(d, "enable_atomics"@, 4));
    assert(setting_index_from(d, "enable_atomics"@, 2) == setting_index_from(d, "enable_atomics"@, 3));
    assert(setting_index_from(d, "enable_atomics"@, 1) == setting_index_from(d, "enable_atomics"@, 2));
    assert(setting_index_from(d, "enable_simd"@, 2) == setting_index_from(d, "enable_simd"@, 3));
    assert(setting_index_from(d, "enable_simd"@, 1) == setting_index_from(d, "enable_simd"@, 2));
    assert(setting_index_from(d, "enable_float"@, 1) == setting_index_from(d, "enable_float"@, 2));
    assert(setting_index_from(d, "is_64bit"@, 0) == setting_index_from(d, "is_64bit"@, 1));
    assert(setting_index_from(d, "enable_float"@, 0) == setting_index_from(d, "enable_float"@, 1));
    assert(setting_index_from(d, "enable_simd"@, 0) == setting_index_from(d, "enable_simd"@, 1));
    assert(setting_index_from(d, "enable_atomics"@, 0) == setting_index_from(d, "enable_atomics"@, 1));
    let t = shared_template();
    assert forall|i: int| 0 <= i < t.descriptors.len() implies descriptor_fits(
        t,
        #[trigger] t.descriptors[i],
    ) by {
        assert(0 <= i < 5);
    }
}

/// The template of the shared settings group.
fn shared_template_exec() -> (t: Template)
    ensures
        t@ == shared_template(),
{
    let t = Template {
        name: String::from_str("shared"),
        descriptors: vec![
            Descriptor {
                name: String::from_str("opt_level"),
                offset: 0,
                detail: Detail::Enum { last: 2, enumerators: 0 },
            },
            Descriptor {
                name: String::from_str("is_64bit"),
                offset: 1,
                detail: Detail::Bool { bit: 0 },
            },
            Descriptor {
                name: String::from_str("enable_float"),
                offset: 1,
                detail: Detail::Bool { bit: 1 },
            },
            Descriptor {
                name: String::from_str("enable_simd"),
                offset: 1,
                detail: Detail::Bool { bit: 2 },
            },
            Descriptor {
                name: String::from_str("enable_atomics"),
                offset: 1,
                detail: Detail::Bool { bit: 3 },
            },
        ],
        enumerators: vec![
            String::from_str("default"),
            String::from_str("best"),
            String::from_str("fastest"),
        ],
        defaults: vec![0x00u8, 0x0eu8],
    };
    proof {
        assert(t@.descriptors =~= shared_template().descriptors);
        assert(t@.enumerators =~= shared_template().enumerators);
        assert(t@.defaults =~= shared_template().defaults);
    }
    t
}

/// Create a `settings::Builder` for the shared settings group, with every
/// setting at its default.
pub fn builder() -> (b: Builder)
    ensures
        b@.template == shared_template(),
        b@.bytes == shared_template().defaults,
        b@.well_formed(),
{
    proof {
        lemma_shared_lookup();
    }
    Builder::new(shared_template_exec())
}

/// Optimization level.
#[derive(Debug, Clone, Copy, PartialEq, Eq, Structural)]
pub enum OptLevel {
    /// Very profitable optimizations enabled, none slow.
    Default,
    /// Enable all optimizations.
    Best,
    /// Optimize for compile time by disabling most optimizations.
    Fastest,
}

/// The optimization level that the byte `byte` of the `opt_level` setting
/// names: the index of its value among `default`, `best` and `fastest`.
pub open spec fn opt_level_of(byte: u8) -> OptLevel {
    if byte == 0 {
        OptLevel::Default
    } else if byte == 1 {
        OptLevel::Best
    } else {
        OptLevel::Fastest
    }
}

/// Flags group `shared`.
pub struct Flags {
    bytes: Vec<u8>,
}

impl View for Flags {
    type V = Seq<u8>;

    closed spec fn view(&self) -> Seq<u8> {
        self.bytes@
    }
}

impl Flags {
    #[verifier::type_invariant]
    spec fn sized(self) -> bool {
        self.bytes@.len() == 2
    }

    /// Create flags shared settings group.
    pub fn new(builder: Builder) -> (f: Flags)
        requires
            builder@.template.name == "shared"@,
            builder@.bytes.len() == 2,
        ensures
            f@ == builder@.bytes,
    {
        let bvec = builder.state_for("shared");
        let bytes = vstd::slice::slice_to_vec(bvec);
        Flags { bytes }
    }

    /// Optimization level.
    pub fn opt_level(&self) -> (r: OptLevel)
        ensures
            Some(self@[0]) == byte_setting(shared_view(self@), "opt_level"@),
            r == opt_level_of(self@[0]),
    {
        proof {
            use_type_invariant(self);
            lemma_shared_lookup();
        }
        match self.bytes[0] {
            0 => OptLevel::Default,
            1 => OptLevel::Best,
            _ => OptLevel::Fastest,
        }
    }

    /// Enable 64-bit code generation.
    pub fn is_64bit(&self) -> (r: bool)
        ensures
            Some(r) == bool_setting(shared_view(self@), "is_64bit"@),
    {
        proof {
            use_type_invariant(self);
            lemma_shared_lookup();
        }
        test_bit(self.bytes[1], 0)
    }

    /// Enable the use of floating-point instructions.
    pub fn enable_float(&self) -> (r: bool)
        ensures
            Some(r) == bool_setting(shared_view(self@), "enable_float"@),
    {
        proof {
            use_type_invariant(self);
            lemma_shared_lookup();
        }
        test_bit(self.bytes[1], 1)
    }

    /// Enable the use of SIMD instructions.
    pub fn enable_simd(&self) -> (r: bool)
        ensures
            Some(r) == bool_setting(shared_view(self@), "enable_simd"@),
    {
        proof {
            use_type_invariant(self);
            lemma_shared_lookup();
        }
        test_bit(self.bytes[1], 2)
    }

    /// Enable the use of atomic instructions.
    pub fn enable_atomics(&self) -> (r: bool)
        ensures
            Some(r) == bool_setting(shared_view(self@), "enable_atomics"@),
    {
        proof {
            use_type_invariant(self);
            lemma_shared_lookup();
        }
        test_bit(self.bytes[1], 3)
    }

    /// The settings as text: `[shared]`, then one line `name = value` for
    /// each setting, in order.
    pub fn to_string(&self) -> (s: String)
        ensures
            s@ == group_text(shared_template(), self@),
    {
        proof {
            use_type_invariant(self);
            lemma_shared_lookup();
        }
        shared_template_exec().format_group(self.bytes.as_slice())
    }
}

} // verus!
