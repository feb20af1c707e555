//! Generates arbitrary values of component-model interface types, drawing
//! every choice from the bytes of an `arbitrary::Unstructured`.
//!
//! The interface types and values are described by [`ValType`] and [`Value`],
//! which mirror the shape of the component model's types and values. The
//! generated values are meant to be lifted and lowered unchanged, so every one
//! of them has the type it was generated for (see [`arbitrary_val`]).
//!
//! Only the generation of values is here. Running them through a component
//! instance (instantiating a component that imports and exports a function,
//! and checking that arguments and results cross it unchanged) needs a
//! component engine and the component declarations it instantiates, which
//! this crate does not have.

use vstd::prelude::*;
use arbitrary::Unstructured;
use arbitrary::Error as ArbitraryError;
use crate::text::{decimal, push_decimal, lemma_decimal_injective};

verus! {

/// Minimum length of an arbitrary list value generated for a test case
pub const MIN_LIST_LENGTH: u32 = 0;

/// Maximum length of an arbitrary list value generated for a test case
pub const MAX_LIST_LENGTH: u32 = 10;

/// The source of the bytes that every choice is drawn from, held opaque.
#[verifier::external_type_specification]
#[verifier::external_body]
pub struct ExUnstructured<'a>(Unstructured<'a>);

/// The error of `arbitrary`, held opaque; nothing here returns one.
#[verifier::external_type_specification]
#[verifier::external_body]
pub struct ExArbitraryError(ArbitraryError);

/// A component-model interface type.
pub enum ValType {
    Unit,
    Bool,
    S8,
    U8,
    S16,
    U16,
    S32,
    U32,
    S64,
    U64,
    Float32,
    Float64,
    Char,
    String,
    /// A list whose elements have the given type.
    List(Box<ValType>),
    /// A record: its fields, each a name and a type, in order.
    Record(Vec<(String, ValType)>),
    /// A tuple of the given types.
    Tuple(Vec<ValType>),
    /// A variant: its cases, each a name and a payload type, in order.
    Variant(Vec<(String, ValType)>),
    /// An enum with the given case names.
    Enum(Vec<String>),
    /// A union of the given types.
    Union(Vec<ValType>),
    /// An optional value of the given type.
    Option(Box<ValType>),
    /// Either an `ok` value of the first type or an `err` value of the second.
    Expected(Box<ValType>, Box<ValType>),
    /// A set of flags with the given names.
    Flags(Vec<String>),
}

/// A component-model value.
#[derive(Debug, PartialEq)]
pub enum Value {
    Unit,
    Bool(bool),
    S8(i8),
    U8(u8),
    S16(i16),
    U16(u16),
    S32(i32),
    U32(u32),
    S64(i64),
    U64(u64),
    /// A 32-bit float, by its bits.
    Float32(u32),
    /// A 64-bit float, by its bits.
    Float64(u64),
    Char(char),
    String(String),
    List(Vec<Value>),
    /// Field names with their values, in order.
    Record(Vec<(String, Value)>),
    Tuple(Vec<Value>),
    /// The name of the case and its payload.
    Variant(String, Box<Value>),
    /// The name of the case.
    Enum(String),
    /// The index of the case and its payload.
    Union(u32, Box<Value>),
    Option(Option<Box<Value>>),
    Expected(Result<Box<Value>, Box<Value>>),
    /// The names of the flags that are set.
    Flags(Vec<String>),
}

/// The mathematical model of a [`Value`]: strings by their characters and
/// vectors by their sequences.
pub enum ValueView {
    Unit,
    Bool(bool),
    S8(i8),
    U8(u8),
    S16(i16),
    U16(u16),
    S32(i32),
    U32(u32),
    S64(i64),
    U64(u64),
    Float32(u32),
    Float64(u64),
    Char(char),
    String(Seq<char>),
    List(Seq<ValueView>),
    Record(Seq<(Seq<char>, ValueView)>),
    Tuple(Seq<ValueView>),
    Variant(Seq<char>, Box<ValueView>),
    Enum(Seq<char>),
    Union(u32, Box<ValueView>),
    Option(Option<Box<ValueView>>),
    Expected(Result<Box<ValueView>, Box<ValueView>>),
    Flags(Seq<Seq<char>>),
}

/// The model of a sequence of values.
pub open spec fn view_values(s: Seq<Value>) -> Seq<ValueView>
    decreases s,
{
    if s.len() == 0 {
        Seq::empty()
    } else {
        view_values(s.drop_last()).push(view_value(s.last()))
    }
}

/// The model of a sequence of named values.
pub open spec fn view_named_values(s: Seq<(String, Value)>) -> Seq<(Seq<char>, ValueView)>
    decreases s,
{
    if s.len() == 0 {
        Seq::empty()
    } else {
        view_named_values(s.drop_last()).push((s.last().0@, view_value(s.last().1)))
    }
}

/// The model of a sequence of values has one value for each.
pub proof fn lemma_view_values_len(s: Seq<Value>)
    ensures
        view_values(s).len() == s.len(),
    decreases s.len(),
{
    if s.len() > 0 {
        lemma_view_values_len(s.drop_last());
    }
}

/// The model of a sequence of strings.
pub open spec fn view_strings(s: Seq<String>) -> Seq<Seq<char>> {
    s.map_values(|x: String| x@)
}

/// The model of a value.
pub open spec fn view_value(v: Value) -> ValueView
    decreases v,
{
    match v {
        Value::Unit => ValueView::Unit,
        Value::Bool(b) => ValueView::Bool(b),
        Value::S8(x) => ValueView::S8(x),
        Value::U8(x) => ValueView::U8(x),
        Value::S16(x) => ValueView::S16(x),
        Value::U16(x) => ValueView::U16(x),
        Value::S32(x) => ValueView::S32(x),
        Value::U32(x) => ValueView::U32(x),
        Value::S64(x) => ValueView::S64(x),
        Value::U64(x) => ValueView::U64(x),
        Value::Float32(x) => ValueView::Float32(x),
        Value::Float64(x) => ValueView::Float64(x),
        Value::Char(c) => ValueView::Char(c),
        Value::String(s) => ValueView::String(s@),
        Value::List(vs) => ValueView::List(view_values(vs@)),
        Value::Record(fs) => ValueView::Record(view_named_values(fs@)),
        Value::Tuple(vs) => ValueView::Tuple(view_values(vs@)),
        Value::Variant(name, payload) => ValueView::Variant(name@, Box::new(view_value(*payload))),
        Value::Enum(name) => ValueView::Enum(name@),
        Value::Union(d, payload) => ValueView::Union(d, Box::new(view_value(*payload))),
        Value::Option(o) => ValueView::Option(
            match o {
                Some(p) => Some(Box::new(view_value(*p))),
                None => None,
            },
        ),
        Value::Expected(r) => ValueView::Expected(
            match r {
                Ok(p) => Ok(Box::new(view_value(*p))),
                Err(p) => Err(Box::new(view_value(*p))),
            },
        ),
        Value::Flags(names) => ValueView::Flags(view_strings(names@)),
    }
}

impl View for Value {
    type V = ValueView;

    open spec fn view(&self) -> ValueView {
        view_value(*self)
    }
}


// ---------------------------------------------------------------------------
// The bytes of an `Unstructured`, and what its methods draw from them.
// ---------------------------------------------------------------------------

/// The bytes that `u` has not handed out yet, in order.
pub uninterp spec fn unstructured_data(u: Unstructured) -> Seq<u8>;

/// The integer whose little-endian encoding is the first `n` bytes of
/// `data`, where bytes past the end of `data` count as zero.
pub open spec fn le_value(data: Seq<u8>, n: nat) -> nat
    decreases n,
{
    if n == 0 || data.len() == 0 {
        0
    } else {
        data[0] as nat + 256 * le_value(data.drop_first(), (n - 1) as nat)
    }
}

/// What is left of `data` once its first `n` bytes, or all of it if it is
/// shorter, are taken.
pub open spec fn rest_after(data: Seq<u8>, n: nat) -> Seq<u8> {
    if n <= data.len() {
        data.skip(n as int)
    } else {
        Seq::empty()
    }
}

/// The code point that `char::arbitrary` draws from `data`: four bytes taken
/// modulo the code space, with surrogates moved below them.
pub open spec fn char_code(data: Seq<u8>) -> u32 {
    let c = le_value(data, 4) % 0x11_0000;
    if 0xD800 <= c < 0xE000 {
        (c - 0xD800) as u32
    } else {
        c as u32
    }
}

/// What `String::arbitrary` draws from `data`: the string, and the bytes left.
pub uninterp spec fn arbitrary_string_of(data: Seq<u8>) -> (Seq<char>, Seq<u8>);

/// The number of bytes that cover `delta`: the least `k` with
/// `delta >> (8 * k) == 0`.
pub open spec fn bytes_to_cover(delta: nat) -> nat
    decreases delta,
{
    if delta == 0 {
        0
    } else {
        1 + bytes_to_cover(delta / 256)
    }
}

/// The integer whose big-endian encoding is the first `n` bytes of `data`.
pub open spec fn be_value(data: Seq<u8>, n: nat) -> nat
    decreases n,
{
    if n == 0 {
        0
    } else {
        be_value(data, (n - 1) as nat) * 256 + data[n - 1] as nat
    }
}

/// What `Unstructured::int_in_range` over `usize` draws from `data` for the
/// range `lo..=hi`, and the bytes it leaves: it takes the bytes that cover
/// `hi - lo` (fewer where the data runs out), reads them big-endian, and
/// adds that number modulo the size of the range to `lo`.
#[verifier::opaque]
pub open spec fn usize_in_range(data: Seq<u8>, lo: usize, hi: usize) -> (usize, Seq<u8>) {
    let delta = (hi - lo) as nat;
    let n = if bytes_to_cover(delta) <= data.len() {
        bytes_to_cover(delta)
    } else {
        data.len()
    };
    ((lo + be_value(data, n) % (delta + 1)) as usize, data.skip(n as int))
}

/// A draw over `lo..=hi` lies in `lo..=hi`.
pub proof fn lemma_usize_in_range_bounds(data: Seq<u8>, lo: usize, hi: usize)
    requires
        lo <= hi,
    ensures
        lo <= usize_in_range(data, lo, hi).0 <= hi,
{
    reveal(usize_in_range);
    let delta = (hi - lo) as nat;
    let n = if bytes_to_cover(delta) <= data.len() {
        bytes_to_cover(delta)
    } else {
        data.len()
    };
    vstd::arithmetic::div_mod::lemma_mod_pos_bound(be_value(data, n) as int, (delta + 1) as int);
}

/// Every value of a range of at most 256 values, with more than one, is
/// drawn from the one byte of its offset from the start of the range: so a
/// generated variant, enum or union can be of any of its cases, and a list
/// of any length from `MIN_LIST_LENGTH` to `MAX_LIST_LENGTH`.
pub proof fn lemma_every_choice_drawable(lo: usize, hi: usize, k: usize, rest: Seq<u8>)
    requires
        lo < hi,
        hi - lo < 256,
        lo <= k <= hi,
    ensures
        usize_in_range(seq![(k - lo) as u8] + rest, lo, hi) == (k, rest),
{
    reveal(usize_in_range);
    let data = seq![(k - lo) as u8] + rest;
    let delta = (hi - lo) as nat;
    assert(bytes_to_cover(delta / 256) == 0);
    assert(bytes_to_cover(delta) == 1);
    let x = (k - lo) as usize;
    assert(x < 256 ==> (x as u8) as usize == x) by (bit_vector);
    assert(data[0] == x as u8);
    assert(be_value(data, 0) == 0);
    assert(be_value(data, 1) == (k - lo) as nat);
    vstd::arithmetic::div_mod::lemma_small_mod((k - lo) as nat, delta + 1);
    assert(data.skip(1) =~= rest);
}

/// `<bool as Arbitrary>::arbitrary`: the low bit of the next byte (`false`
/// once the data is used up); it takes that byte.
#[verifier::external_body]
fn arbitrary_bool(u: &mut Unstructured) -> (r: Result<bool, ArbitraryError>)
    ensures
        r == Ok::<bool, ArbitraryError>(le_value(unstructured_data(*old(u)), 1) % 2 == 1),
        unstructured_data(*final(u)) == rest_after(unstructured_data(*old(u)), 1),
{
    u.arbitrary::<bool>()
}

/// `<i8 as Arbitrary>::arbitrary`: the next byte (zero once the data is used
/// up), read as two's complement; it takes that byte.
#[verifier::external_body]
fn arbitrary_i8(u: &mut Unstructured) -> (r: Result<i8, ArbitraryError>)
    ensures
        r == Ok::<i8, ArbitraryError>(le_value(unstructured_data(*old(u)), 1) as i8),
        unstructured_data(*final(u)) == rest_after(unstructured_data(*old(u)), 1),
{
    u.arbitrary::<i8>()
}

/// `<u8 as Arbitrary>::arbitrary`: the next byte (zero once the data is used
/// up); it takes that byte.
#[verifier::external_body]
fn arbitrary_u8(u: &mut Unstructured) -> (r: Result<u8, ArbitraryError>)
    ensures
        r == Ok::<u8, ArbitraryError>(le_value(unstructured_data(*old(u)), 1) as u8),
        unstructured_data(*final(u)) == rest_after(unstructured_data(*old(u)), 1),
{
    u.arbitrary::<u8>()
}

/// `<i16 as Arbitrary>::arbitrary`: the next two bytes, little-endian and
/// zero-padded, read as two's complement; it takes them.
#[verifier::external_body]
fn arbitrary_i16(u: &mut Unstructured) -> (r: Result<i16, ArbitraryError>)
    ensures
        r == Ok::<i16, ArbitraryError>(le_value(unstructured_data(*old(u)), 2) as i16),
        unstructured_data(*final(u)) == rest_after(unstructured_data(*old(u)), 2),
{
    u.arbitrary::<i16>()
}

/// `<u16 as Arbitrary>::arbitrary`: the next two bytes, little-endian and
/// zero-padded; it takes them.
#[verifier::external_body]
fn arbitrary_u16(u: &mut Unstructured) -> (r: Result<u16, ArbitraryError>)
    ensures
        r == Ok::<u16, ArbitraryError>(le_value(unstructured_data(*old(u)), 2) as u16),
        unstructured_data(*final(u)) == rest_after(unstructured_data(*old(u)), 2),
{
    u.arbitrary::<u16>()
}

/// `<i32 as Arbitrary>::arbitrary`: the next four bytes, little-endian and
/// zero-padded, read as two's complement; it takes them.
#[verifier::external_body]
fn arbitrary_i32(u: &mut Unstructured) -> (r: Result<i32, ArbitraryError>)
    ensures
        r == Ok::<i32, ArbitraryError>(le_value(unstructured_data(*old(u)), 4) as i32),
        unstructured_data(*final(u)) == rest_after(unstructured_data(*old(u)), 4),
{
    u.arbitrary::<i32>()
}

/// `<u32 as Arbitrary>::arbitrary`: the next four bytes, little-endian and
/// zero-padded; it takes them.
#[verifier::external_body]
fn arbitrary_u32(u: &mut Unstructured) -> (r: Result<u32, ArbitraryError>)
    ensures
        r == Ok::<u32, ArbitraryError>(le_value(unstructured_data(*old(u)), 4) as u32),
        unstructured_data(*final(u)) == rest_after(unstructured_data(*old(u)), 4),
{
    u.arbitrary::<u32>()
}

/// `<i64 as Arbitrary>::arbitrary`: the next eight bytes, little-endian and
/// zero-padded, read as two's complement; it takes them.
#[verifier::external_body]
fn arbitrary_i64(u: &mut Unstructured) -> (r: Result<i64, ArbitraryError>)
    ensures
        r == Ok::<i64, ArbitraryError>(le_value(unstructured_data(*old(u)), 8) as i64),
        unstructured_data(*final(u)) == rest_after(unstructured_data(*old(u)), 8),
{
    u.arbitrary::<i64>()
}

/// `<u64 as Arbitrary>::arbitrary`: the next eight bytes, little-endian and
/// zero-padded; it takes them.
#[verifier::external_body]
fn arbitrary_u64(u: &mut Unstructured) -> (r: Result<u64, ArbitraryError>)
    ensures
        r == Ok::<u64, ArbitraryError>(le_value(unstructured_data(*old(u)), 8) as u64),
        unstructured_data(*final(u)) == rest_after(unstructured_data(*old(u)), 8),
{
    u.arbitrary::<u64>()
}

/// `<char as Arbitrary>::arbitrary`: the character of [`char_code`] of the
/// next four bytes; it takes them.
#[verifier::external_body]
fn arbitrary_char(u: &mut Unstructured) -> (r: Result<char, ArbitraryError>)
    ensures
        r == Ok::<char, ArbitraryError>(char_code(unstructured_data(*old(u))) as char),
        unstructured_data(*final(u)) == rest_after(unstructured_data(*old(u)), 4),
{
    u.arbitrary::<char>()
}

/// `<String as Arbitrary>::arbitrary`: it never fails; the string and the
/// bytes it leaves are [`arbitrary_string_of`] of the data.
#[verifier::external_body]
fn arbitrary_string(u: &mut Unstructured) -> (r: Result<String, ArbitraryError>)
    ensures
        r matches Ok(s) && s@ == arbitrary_string_of(unstructured_data(*old(u))).0,
        unstructured_data(*final(u)) == arbitrary_string_of(unstructured_data(*old(u))).1,
{
    u.arbitrary::<String>()
}

/// `Unstructured::int_in_range` over `usize`, which panics on an empty
/// range: it never fails, and the integer and the bytes it leaves are
/// [`usize_in_range`] of the data.
///
/// The generator draws every choice through this `usize` form. For its
/// ranges `0..=1` and `0..=10`, a draw takes one byte and reduces it modulo
/// the size of the range whatever the integer type, so it draws what the
/// `i32` form (for an option or an expected) and the `u32` form (for the
/// length that `arbitrary_loop` draws) draw.
#[verifier::external_body]
fn int_in_range(u: &mut Unstructured, lo: usize, hi: usize) -> (r: Result<usize, ArbitraryError>)
    requires
        lo <= hi,
    ensures
        r == Ok::<usize, ArbitraryError>(usize_in_range(unstructured_data(*old(u)), lo, hi).0),
        unstructured_data(*final(u)) == usize_in_range(unstructured_data(*old(u)), lo, hi).1,
{
    u.int_in_range(lo..=hi)
}


// ---------------------------------------------------------------------------
// Which types can be generated, and what is generated from which bytes.
// ---------------------------------------------------------------------------

/// The name that the generator gives case `i` of a variant or an enum: `C`
/// followed by `i` in decimal.
pub open spec fn case_label(i: nat) -> Seq<char> {
    seq!['C'] + decimal(i)
}

/// The first case named [`case_label`]`(d)` is case `d`'s type, for each
/// case `d`: the case that the generator names when it picks case `d` takes
/// the payload generated for case `d`.
pub open spec fn labelled_cases(cases: Seq<(String, ValType)>) -> bool {
    forall|d: int|
        0 <= d < cases.len() ==> named_type(cases, #[trigger] case_label(d as nat)) == Some(
            cases[d].1,
        )
}

/// Each of the labels [`case_label`]`(d)`, for `d` below the number of
/// names, is one of the names.
pub open spec fn labelled_names(names: Seq<String>) -> bool {
    forall|d: int| 0 <= d < names.len() ==> #[trigger] has_name(names, case_label(d as nat))
}

/// Every name of `set` is one of `names`.
pub open spec fn each_is_a_name(set: Seq<Seq<char>>, names: Seq<String>) -> bool {
    forall|j: int| 0 <= j < set.len() ==> #[trigger] has_name(names, set[j])
}

/// `name` is one of `names`.
pub open spec fn has_name(names: Seq<String>, name: Seq<char>) -> bool {
    exists|i: int| 0 <= i < names.len() && names[i]@ == name
}

/// A type that values can be generated for: variants, enums and unions have
/// at least one case, a union has at most `u32::MAX + 1` of them (a union
/// case is numbered by a `u32`), and the generator's name `C{d}` for the
/// case `d` it picks of a variant or an enum names a case of the right type
/// (as cases named `C0`, `C1`, ... in order do: see
/// [`lemma_cases_named_in_order`]).
pub open spec fn well_formed(ty: ValType) -> bool
    decreases ty, 0int,
{
    match ty {
        ValType::List(elem) => well_formed(*elem),
        ValType::Record(fields) => well_formed_fields(fields@),
        ValType::Tuple(tys) => well_formed_seq(tys@),
        ValType::Variant(cases) => {
            &&& cases@.len() > 0
            &&& labelled_cases(cases@)
            &&& well_formed_fields(cases@)
        },
        ValType::Enum(names) => names@.len() > 0 && labelled_names(names@),
        ValType::Union(tys) => 0 < tys@.len() <= u32::MAX as int + 1 && well_formed_seq(tys@),
        ValType::Option(t) => well_formed(*t),
        ValType::Expected(ok, err) => well_formed(*ok) && well_formed(*err),
        _ => true,
    }
}

/// Every type of the sequence is well formed.
pub open spec fn well_formed_seq(tys: Seq<ValType>) -> bool
    decreases tys, 0int,
{
    if tys.len() == 0 {
        true
    } else {
        well_formed(tys[0]) && well_formed_seq(tys.drop_first())
    }
}

/// Every type of the named sequence is well formed.
pub open spec fn well_formed_fields(fields: Seq<(String, ValType)>) -> bool
    decreases fields, 0int,
{
    if fields.len() == 0 {
        true
    } else {
        well_formed(fields[0].1) && well_formed_fields(fields.drop_first())
    }
}

/// Each type of a well-formed sequence is well formed.
proof fn lemma_well_formed_seq_index(tys: Seq<ValType>, i: int)
    requires
        well_formed_seq(tys),
        0 <= i < tys.len(),
    ensures
        well_formed(tys[i]),
    decreases i,
{
    if i > 0 {
        lemma_well_formed_seq_index(tys.drop_first(), i - 1);
    }
}

/// Each type of a well-formed named sequence is well formed.
proof fn lemma_well_formed_fields_index(fields: Seq<(String, ValType)>, i: int)
    requires
        well_formed_fields(fields),
        0 <= i < fields.len(),
    ensures
        well_formed(fields[i].1),
    decreases i,
{
    if i > 0 {
        lemma_well_formed_fields_index(fields.drop_first(), i - 1);
    }
}

/// The value that [`arbitrary_val`] generates for `ty` from `data`, and the
/// bytes it leaves.
pub open spec fn generate(ty: ValType, data: Seq<u8>) -> (ValueView, Seq<u8>)
    decreases ty, 0int,
{
    match ty {
        ValType::Unit => (ValueView::Unit, data),
        ValType::Bool => (ValueView::Bool(le_value(data, 1) % 2 == 1), rest_after(data, 1)),
        ValType::S8 => (ValueView::S8(le_value(data, 1) as i8), rest_after(data, 1)),
        ValType::U8 => (ValueView::U8(le_value(data, 1) as u8), rest_after(data, 1)),
        ValType::S16 => (ValueView::S16(le_value(data, 2) as i16), rest_after(data, 2)),
        ValType::U16 => (ValueView::U16(le_value(data, 2) as u16), rest_after(data, 2)),
        ValType::S32 => (ValueView::S32(le_value(data, 4) as i32), rest_after(data, 4)),
        ValType::U32 => (ValueView::U32(le_value(data, 4) as u32), rest_after(data, 4)),
        ValType::S64 => (ValueView::S64(le_value(data, 8) as i64), rest_after(data, 8)),
        ValType::U64 => (ValueView::U64(le_value(data, 8) as u64), rest_after(data, 8)),
        ValType::Float32 => (ValueView::Float32(le_value(data, 4) as u32), rest_after(data, 4)),
        ValType::Float64 => (ValueView::Float64(le_value(data, 8) as u64), rest_after(data, 8)),
        ValType::Char => (ValueView::Char(char_code(data) as char), rest_after(data, 4)),
        ValType::String => (
            ValueView::String(arbitrary_string_of(data).0),
            arbitrary_string_of(data).1,
        ),
        ValType::List(elem) => {
            let (n, rest) = usize_in_range(
                data,
                MIN_LIST_LENGTH as usize,
                MAX_LIST_LENGTH as usize,
            );
            let (vs, rest2) = generate_list(*elem, rest, n as nat);
            (ValueView::List(vs), rest2)
        },
        ValType::Record(fields) => {
            let (vs, rest) = generate_fields(fields@, data);
            (ValueView::Record(vs), rest)
        },
        ValType::Tuple(tys) => {
            let (vs, rest) = generate_seq(tys@, data);
            (ValueView::Tuple(vs), rest)
        },
        ValType::Variant(cases) => {
            let (d, rest) = usize_in_range(data, 0, (cases@.len() - 1) as usize);
            if d < cases@.len() {
                let (v, rest2) = generate(cases@[d as int].1, rest);
                (ValueView::Variant(case_label(d as nat), Box::new(v)), rest2)
            } else {
                (ValueView::Unit, rest)
            }
        },
        ValType::Enum(names) => {
            let (d, rest) = usize_in_range(data, 0, (names@.len() - 1) as usize);
            (ValueView::Enum(case_label(d as nat)), rest)
        },
        ValType::Union(tys) => {
            let (d, rest) = usize_in_range(data, 0, (tys@.len() - 1) as usize);
            if d < tys@.len() {
                let (v, rest2) = generate(tys@[d as int], rest);
                (ValueView::Union(d as u32, Box::new(v)), rest2)
            } else {
                (ValueView::Unit, rest)
            }
        },
        ValType::Option(t) => {
            let (d, rest) = usize_in_range(data, 0, 1);
            if d == 0 {
                (ValueView::Option(None), rest)
            } else {
                let (v, rest2) = generate(*t, rest);
                (ValueView::Option(Some(Box::new(v))), rest2)
            }
        },
        ValType::Expected(ok, err) => {
            let (d, rest) = usize_in_range(data, 0, 1);
            if d == 0 {
                let (v, rest2) = generate(*ok, rest);
                (ValueView::Expected(Ok(Box::new(v))), rest2)
            } else {
                let (v, rest2) = generate(*err, rest);
                (ValueView::Expected(Err(Box::new(v))), rest2)
            }
        },
        ValType::Flags(names) => {
            let (set, rest) = generate_flags(names@, data);
            (ValueView::Flags(set), rest)
        },
    }
}

/// `n` values of type `elem`, generated one after the other from `data`.
pub open spec fn generate_list(elem: ValType, data: Seq<u8>, n: nat) -> (Seq<ValueView>, Seq<u8>)
    decreases elem, n as int,
{
    if n == 0 {
        (Seq::empty(), data)
    } else {
        let (v, rest) = generate(elem, data);
        let (vs, rest2) = generate_list(elem, rest, (n - 1) as nat);
        (seq![v] + vs, rest2)
    }
}

/// One value of each type, generated in order from `data`.
pub open spec fn generate_seq(tys: Seq<ValType>, data: Seq<u8>) -> (Seq<ValueView>, Seq<u8>)
    decreases tys, 0int,
{
    if tys.len() == 0 {
        (Seq::empty(), data)
    } else {
        let (v, rest) = generate(tys[0], data);
        let (vs, rest2) = generate_seq(tys.drop_first(), rest);
        (seq![v] + vs, rest2)
    }
}

/// One value of each field's type, generated in order from `data`, each
/// with the field's name.
pub open spec fn generate_fields(fields: Seq<(String, ValType)>, data: Seq<u8>) -> (
    Seq<(Seq<char>, ValueView)>,
    Seq<u8>,
)
    decreases fields, 0int,
{
    if fields.len() == 0 {
        (Seq::empty(), data)
    } else {
        let (v, rest) = generate(fields[0].1, data);
        let (vs, rest2) = generate_fields(fields.drop_first(), rest);
        (seq![(fields[0].0@, v)] + vs, rest2)
    }
}

/// Whether the `i`-th `bool` drawn from `data` is true: the low bit of
/// byte `i`, and `false` past the end of the data.
pub open spec fn flag_drawn(data: Seq<u8>, i: int) -> bool {
    0 <= i < data.len() && data[i] % 2 == 1
}

/// The numbers, in increasing order, of the first `n` `bool`s drawn from
/// `data` that are true.
pub open spec fn drawn_flags(data: Seq<u8>, n: nat) -> Seq<int>
    decreases n,
{
    if n == 0 {
        Seq::empty()
    } else {
        let prev = drawn_flags(data, (n - 1) as nat);
        if flag_drawn(data, n - 1) {
            prev.push(n - 1)
        } else {
            prev
        }
    }
}

/// The flags that are set, and the bytes left: one `bool` is drawn for each
/// name, in order, and a name is set when its `bool` is true.
pub open spec fn generate_flags(names: Seq<String>, data: Seq<u8>) -> (Seq<Seq<char>>, Seq<u8>) {
    (
        drawn_flags(data, names.len()).map_values(|i: int| names[i]@),
        rest_after(data, names.len()),
    )
}

/// The true `bool`s among the first `n` drawn are numbered below `n`, in
/// increasing order, and every one of them is there.
pub proof fn lemma_drawn_flags(data: Seq<u8>, n: nat)
    ensures
        forall|j: int|
            0 <= j < drawn_flags(data, n).len() ==> 0 <= #[trigger] drawn_flags(data, n)[j] < n
                && flag_drawn(data, drawn_flags(data, n)[j]),
        forall|j: int, k: int|
            0 <= j < k < drawn_flags(data, n).len() ==> #[trigger] drawn_flags(data, n)[j]
                < #[trigger] drawn_flags(data, n)[k],
        forall|i: int|
            0 <= i < n && #[trigger] flag_drawn(data, i) ==> exists|j: int|
                0 <= j < drawn_flags(data, n).len() && drawn_flags(data, n)[j] == i,
    decreases n,
{
    if n > 0 {
        lemma_drawn_flags(data, (n - 1) as nat);
        let prev = drawn_flags(data, (n - 1) as nat);
        assert forall|i: int| 0 <= i < n && #[trigger] flag_drawn(data, i) implies exists|j: int|
            0 <= j < drawn_flags(data, n).len() && drawn_flags(data, n)[j] == i by {
            if i == n - 1 {
                assert(drawn_flags(data, n)[prev.len() as int] == i);
            } else {
                let j = choose|j: int| 0 <= j < prev.len() && prev[j] == i;
                assert(drawn_flags(data, n)[j] == i);
            }
        }
    }
}

/// The flags that a generated value sets are exactly the names whose
/// `bool` is drawn true, in the order of the names, each a name of the
/// type; and where the names are distinct, no flag is set twice.
pub proof fn lemma_generated_flags(names: Seq<String>, data: Seq<u8>)
    ensures
        ({
            let idx = drawn_flags(data, names.len());
            let set = generate_flags(names, data).0;
            &&& set.len() == idx.len()
            &&& forall|j: int|
                0 <= j < idx.len() ==> 0 <= #[trigger] idx[j] < names.len() && flag_drawn(data, idx[j])
                    && set[j] == names[idx[j]]@
            &&& forall|j: int, k: int| 0 <= j < k < idx.len() ==> #[trigger] idx[j] < #[trigger] idx[k]
            &&& forall|i: int|
                0 <= i < names.len() && #[trigger] flag_drawn(data, i) ==> exists|j: int|
                    0 <= j < idx.len() && idx[j] == i
            &&& (forall|a: int, b: int|
                0 <= a < b < names.len() ==> #[trigger] names[a]@ != #[trigger] names[b]@) ==> forall|
                j: int,
                k: int,
            | 0 <= j < k < set.len() ==> #[trigger] set[j] != #[trigger] set[k]
        }),
{
    lemma_drawn_flags(data, names.len());
    let idx = drawn_flags(data, names.len());
    let set = generate_flags(names, data).0;
    if forall|a: int, b: int|
        0 <= a < b < names.len() ==> #[trigger] names[a]@ != #[trigger] names[b]@ {
        assert forall|j: int, k: int| 0 <= j < k < set.len() implies #[trigger] set[j]
            != #[trigger] set[k] by {
            assert(idx[j] < idx[k]);
            assert(set[j] == names[idx[j]]@);
            assert(set[k] == names[idx[k]]@);
        }
    }
}

/// `generate_list` generates as many values as it is asked for.
pub proof fn lemma_generate_list_len(elem: ValType, data: Seq<u8>, n: nat)
    ensures
        generate_list(elem, data, n).0.len() == n,
    decreases n,
{
    if n > 0 {
        lemma_generate_list_len(elem, generate(elem, data).1, (n - 1) as nat);
    }
}

/// Any case of a variant of two to 256 cases is generated from the byte of
/// its number.
pub proof fn lemma_every_case_drawable(ty: ValType, d: usize, rest: Seq<u8>)
    requires
        ty matches ValType::Variant(cases) && 2 <= cases@.len() <= 256 && d < cases@.len(),
    ensures
        generate(ty, seq![d as u8] + rest).0 matches ValueView::Variant(name, _) && name
            == case_label(d as nat),
{
    if let ValType::Variant(cases) = ty {
        lemma_every_choice_drawable(0, (cases@.len() - 1) as usize, d, rest);
        assert(seq![(d - 0) as u8] + rest == seq![d as u8] + rest);
    }
}

/// Any case of an enum of two to 256 cases is generated from the byte of
/// its number.
pub proof fn lemma_every_enum_case_drawable(ty: ValType, d: usize, rest: Seq<u8>)
    requires
        ty matches ValType::Enum(names) && 2 <= names@.len() <= 256 && d < names@.len(),
    ensures
        generate(ty, seq![d as u8] + rest) == (ValueView::Enum(case_label(d as nat)), rest),
{
    if let ValType::Enum(names) = ty {
        lemma_every_choice_drawable(0, (names@.len() - 1) as usize, d, rest);
        assert(seq![(d - 0) as u8] + rest == seq![d as u8] + rest);
    }
}

/// Any case of a union of two to 256 cases is generated from the byte of
/// its number, with a payload of that case's type drawn from the bytes
/// after it.
pub proof fn lemma_every_union_case_drawable(ty: ValType, d: usize, rest: Seq<u8>)
    requires
        ty matches ValType::Union(tys) && 2 <= tys@.len() <= 256 && d < tys@.len(),
    ensures
        ty matches ValType::Union(tys) && generate(ty, seq![d as u8] + rest).0 == ValueView::Union(
            d as u32,
            Box::new(generate(tys@[d as int], rest).0),
        ),
{
    if let ValType::Union(tys) = ty {
        lemma_every_choice_drawable(0, (tys@.len() - 1) as usize, d, rest);
        assert(seq![(d - 0) as u8] + rest == seq![d as u8] + rest);
    }
}

/// An option is absent when its first byte is 0 and present, with a payload
/// drawn from the bytes after it, when its first byte is 1; likewise an
/// expected value is `ok` on 0 and `err` on 1.
pub proof fn lemma_option_and_expected_sides(ty: ValType, rest: Seq<u8>)
    ensures
        ty matches ValType::Option(t) ==> {
            &&& generate(ty, seq![0u8] + rest) == (ValueView::Option(None), rest)
            &&& generate(ty, seq![1u8] + rest).0 == ValueView::Option(
                Some(Box::new(generate(*t, rest).0)),
            )
        },
        ty matches ValType::Expected(ok, err) ==> {
            &&& generate(ty, seq![0u8] + rest).0 == ValueView::Expected(
                Ok(Box::new(generate(*ok, rest).0)),
            )
            &&& generate(ty, seq![1u8] + rest).0 == ValueView::Expected(
                Err(Box::new(generate(*err, rest).0)),
            )
        },
{
    lemma_every_choice_drawable(0, 1, 0, rest);
    lemma_every_choice_drawable(0, 1, 1, rest);
    assert(seq![(0usize - 0usize) as u8] + rest == seq![0u8] + rest);
    assert(seq![(1usize - 0usize) as u8] + rest == seq![1u8] + rest);
}

/// The flags of distinct names that a generated value sets are the names
/// `i` for which a `bool` generated from the bytes left after `i` draws is
/// `true`, in the order of the names; the flags take one byte per name.
pub proof fn lemma_flags_are_bools(names: Seq<String>, data: Seq<u8>)
    requires
        forall|a: int, b: int| 0 <= a < b < names.len() ==> #[trigger] names[a]@ != #[trigger] names[b]@,
    ensures
        forall|i: int|
            0 <= i < names.len() ==> (generate_flags(names, data).0.contains(#[trigger] names[i]@)
                <==> generate(ValType::Bool, rest_after(data, i as nat)).0 == ValueView::Bool(
                true,
            )),
        forall|j: int, k: int, a: int, b: int|
            0 <= j < k < generate_flags(names, data).0.len() && 0 <= a < names.len() && 0 <= b
                < names.len() && #[trigger] generate_flags(names, data).0[j] == #[trigger] names[a]@
                && #[trigger] generate_flags(names, data).0[k] == #[trigger] names[b]@ ==> a < b,
        generate_flags(names, data).1 == rest_after(data, names.len()),
{
    lemma_drawn_flags(data, names.len());
    let idx = drawn_flags(data, names.len());
    let set = generate_flags(names, data).0;
    assert forall|i: int| 0 <= i < names.len() implies (set.contains(#[trigger] names[i]@) <==> generate(
        ValType::Bool,
        rest_after(data, i as nat),
    ).0 == ValueView::Bool(true)) by {
        let cur = rest_after(data, i as nat);
        if i < data.len() {
            assert(cur[0] == data[i]);
            assert(le_value(cur.drop_first(), 0) == 0);
            assert(le_value(cur, 1) == data[i] as nat);
        } else {
            assert(cur.len() == 0);
        }
        if set.contains(names[i]@) {
            let j = choose|j: int| 0 <= j < set.len() && set[j] == names[i]@;
            assert(set[j] == names[idx[j]]@);
            if idx[j] != i {
                if idx[j] < i {
                    assert(names[idx[j]]@ != names[i]@);
                } else {
                    assert(names[i]@ != names[idx[j]]@);
                }
            }
        }
        if flag_drawn(data, i) {
            let j = choose|j: int| 0 <= j < idx.len() && idx[j] == i;
            assert(set[j] == names[i]@);
        }
    }
    assert forall|j: int, k: int, a: int, b: int|
        0 <= j < k < set.len() && 0 <= a < names.len() && 0 <= b < names.len() && #[trigger] set[j]
            == #[trigger] names[a]@ && #[trigger] set[k] == #[trigger] names[b]@ implies a < b by {
        assert(set[j] == names[idx[j]]@);
        assert(set[k] == names[idx[k]]@);
        assert(idx[j] < idx[k]);
        if a != idx[j] {
            if a < idx[j] {
                assert(names[a]@ != names[idx[j]]@);
            } else {
                assert(names[idx[j]]@ != names[a]@);
            }
        }
        if b != idx[k] {
            if b < idx[k] {
                assert(names[b]@ != names[idx[k]]@);
            } else {
                assert(names[idx[k]]@ != names[b]@);
            }
        }
    }
}

/// A list of any length from `MIN_LIST_LENGTH` to `MAX_LIST_LENGTH` is
/// generated from the byte of its length.
pub proof fn lemma_every_list_length_drawable(elem: ValType, k: usize, rest: Seq<u8>)
    requires
        MIN_LIST_LENGTH <= k <= MAX_LIST_LENGTH,
    ensures
        generate(ValType::List(Box::new(elem)), seq![k as u8] + rest).0 matches ValueView::List(vs)
            && vs.len() == k,
{
    lemma_every_choice_drawable(MIN_LIST_LENGTH as usize, MAX_LIST_LENGTH as usize, k, rest);
    assert(seq![(k - MIN_LIST_LENGTH as usize) as u8] + rest == seq![k as u8] + rest);
    lemma_generate_list_len(elem, rest, k as nat);
}

// ---------------------------------------------------------------------------
// Which values have which types.
// ---------------------------------------------------------------------------

/// The type of the first case named `name`, if there is one.
pub open spec fn named_type(cases: Seq<(String, ValType)>, name: Seq<char>) -> Option<ValType>
    decreases cases.len(),
{
    if cases.len() == 0 {
        None
    } else if cases[0].0@ == name {
        Some(cases[0].1)
    } else {
        named_type(cases.drop_first(), name)
    }
}

/// `v` is a value of type `ty`: what a component-model type asks
/// of a value before it accepts it.
pub open spec fn has_type(v: ValueView, ty: ValType) -> bool
    decreases v,
{
    match ty {
        ValType::Unit => v is Unit,
        ValType::Bool => v is Bool,
        ValType::S8 => v is S8,
        ValType::U8 => v is U8,
        ValType::S16 => v is S16,
        ValType::U16 => v is U16,
        ValType::S32 => v is S32,
        ValType::U32 => v is U32,
        ValType::S64 => v is S64,
        ValType::U64 => v is U64,
        ValType::Float32 => v is Float32,
        ValType::Float64 => v is Float64,
        ValType::Char => v is Char,
        ValType::String => v is String,
        ValType::List(elem) => match v {
            ValueView::List(vs) => all_have_type(vs, *elem),
            _ => false,
        },
        ValType::Record(fields) => match v {
            ValueView::Record(vs) => named_have_types(vs, fields@),
            _ => false,
        },
        ValType::Tuple(tys) => match v {
            ValueView::Tuple(vs) => each_has_type(vs, tys@),
            _ => false,
        },
        ValType::Variant(cases) => match v {
            ValueView::Variant(name, payload) => match named_type(cases@, name) {
                Some(t) => has_type(*payload, t),
                None => false,
            },
            _ => false,
        },
        ValType::Enum(names) => match v {
            ValueView::Enum(name) => has_name(names@, name),
            _ => false,
        },
        ValType::Union(tys) => match v {
            ValueView::Union(d, payload) => d < tys@.len() && has_type(*payload, tys@[d as int]),
            _ => false,
        },
        ValType::Option(t) => match v {
            ValueView::Option(None) => true,
            ValueView::Option(Some(payload)) => has_type(*payload, *t),
            _ => false,
        },
        ValType::Expected(ok, err) => match v {
            ValueView::Expected(Ok(payload)) => has_type(*payload, *ok),
            ValueView::Expected(Err(payload)) => has_type(*payload, *err),
            _ => false,
        },
        ValType::Flags(names) => match v {
            ValueView::Flags(set) => each_is_a_name(set, names@),
            _ => false,
        },
    }
}

/// Every value of `vs` has type `elem`.
pub open spec fn all_have_type(vs: Seq<ValueView>, elem: ValType) -> bool
    decreases vs,
{
    if vs.len() == 0 {
        true
    } else {
        all_have_type(vs.drop_last(), elem) && has_type(vs.last(), elem)
    }
}

/// `vs` has one value of each type of `tys`, in order.
pub open spec fn each_has_type(vs: Seq<ValueView>, tys: Seq<ValType>) -> bool
    decreases vs,
{
    &&& vs.len() == tys.len()
    &&& vs.len() == 0 || {
        &&& each_has_type(vs.drop_last(), tys.drop_last())
        &&& has_type(vs.last(), tys.last())
    }
}

/// `vs` has one value for each field of `fields`, in order, named as the
/// field and of its type.
pub open spec fn named_have_types(vs: Seq<(Seq<char>, ValueView)>, fields: Seq<(String, ValType)>) -> bool
    decreases vs,
{
    &&& vs.len() == fields.len()
    &&& vs.len() == 0 || {
        &&& named_have_types(vs.drop_last(), fields.drop_last())
        &&& vs.last().0 == fields.last().0@
        &&& has_type(vs.last().1, fields.last().1)
    }
}

/// Every list within `v` has between `MIN_LIST_LENGTH` and `MAX_LIST_LENGTH`
/// elements.
pub open spec fn lists_within(v: ValueView) -> bool
    decreases v,
{
    match v {
        ValueView::List(vs) => MIN_LIST_LENGTH <= vs.len() <= MAX_LIST_LENGTH
            && all_lists_within(vs),
        ValueView::Record(vs) => named_lists_within(vs),
        ValueView::Tuple(vs) => all_lists_within(vs),
        ValueView::Variant(_, payload) => lists_within(*payload),
        ValueView::Union(_, payload) => lists_within(*payload),
        ValueView::Option(Some(payload)) => lists_within(*payload),
        ValueView::Expected(Ok(payload)) => lists_within(*payload),
        ValueView::Expected(Err(payload)) => lists_within(*payload),
        _ => true,
    }
}

/// Every list within the values of `vs` is within the bounds.
pub open spec fn all_lists_within(vs: Seq<ValueView>) -> bool
    decreases vs,
{
    if vs.len() == 0 {
        true
    } else {
        all_lists_within(vs.drop_last()) && lists_within(vs.last())
    }
}

/// Every list within the named values of `vs` is within the bounds.
pub open spec fn named_lists_within(vs: Seq<(Seq<char>, ValueView)>) -> bool
    decreases vs,
{
    if vs.len() == 0 {
        true
    } else {
        named_lists_within(vs.drop_last()) && lists_within(vs.last().1)
    }
}

/// Cases named `C0`, `C1`, ... in order are labelled as the generator names
/// them, and so are enum names `C0`, `C1`, ... in order.
pub proof fn lemma_cases_named_in_order(cases: Seq<(String, ValType)>, names: Seq<String>)
    requires
        forall|i: int| 0 <= i < cases.len() ==> (#[trigger] cases[i]).0@ == case_label(i as nat),
        forall|i: int| 0 <= i < names.len() ==> (#[trigger] names[i])@ == case_label(i as nat),
    ensures
        labelled_cases(cases),
        labelled_names(names),
{
    assert forall|d: int| 0 <= d < cases.len() implies named_type(
        cases,
        #[trigger] case_label(d as nat),
    ) == Some(cases[d].1) by {
        assert forall|i: int| 0 <= i < cases.len() implies (#[trigger] cases[i]).0@ == case_label(
            0 + i as nat,
        ) by {
            assert(0 + i as nat == i as nat);
        }
        lemma_named_type_of_label(cases, 0, d);
        assert(0 + d as nat == d as nat);
    }
    assert forall|d: int| 0 <= d < names.len() implies #[trigger] has_name(
        names,
        case_label(d as nat),
    ) by {
        assert(names[d]@ == case_label(d as nat));
    }
}

/// In cases named `C{k}`, `C{k+1}`, ..., the case named `C{k+d}` is case `d`.
proof fn lemma_named_type_of_label(cases: Seq<(String, ValType)>, k: nat, d: int)
    requires
        0 <= d < cases.len(),
        forall|i: int| 0 <= i < cases.len() ==> (#[trigger] cases[i]).0@ == case_label(k + i as nat),
    ensures
        named_type(cases, case_label(k + d as nat)) == Some(cases[d].1),
    decreases d,
{
    if d > 0 {
        if cases[0].0@ == case_label(k + d as nat) {
            assert(case_label(k) == case_label(k + d as nat));
            assert(decimal(k) =~= case_label(k).drop_first());
            assert(decimal(k + d as nat) =~= case_label(k + d as nat).drop_first());
            lemma_decimal_injective(k, k + d as nat);
        }
        let rest = cases.drop_first();
        assert forall|i: int| 0 <= i < rest.len() implies (#[trigger] rest[i]).0@ == case_label(
            (k + 1) + i as nat,
        ) by {
            assert(rest[i] == cases[i + 1]);
        }
        lemma_named_type_of_label(rest, k + 1, d - 1);
        assert((k + 1) + (d - 1) as nat == k + d as nat);
    }
}

// ---------------------------------------------------------------------------
// The generator.
// ---------------------------------------------------------------------------

/// An integer of `lo..=hi` drawn from `input`, with its bounds.
fn draw_in_range(input: &mut Unstructured, lo: usize, hi: usize) -> (r: Result<usize, ArbitraryError>)
    requires
        lo <= hi,
    ensures
        r == Ok::<usize, ArbitraryError>(usize_in_range(unstructured_data(*old(input)), lo, hi).0),
        unstructured_data(*final(input)) == usize_in_range(unstructured_data(*old(input)), lo, hi).1,
        lo <= usize_in_range(unstructured_data(*old(input)), lo, hi).0 <= hi,
{
    proof {
        lemma_usize_in_range_bounds(unstructured_data(*input), lo, hi);
    }
    int_in_range(input, lo, hi)
}

/// The name of case `d`: `C` followed by `d` in decimal.
fn case_name(d: usize) -> (s: String)
    ensures
        s@ == case_label(d as nat),
{
    proof {
        reveal_strlit("C");
    }
    let mut s = String::from_str("C");
    push_decimal(&mut s, d);
    s
}

/// Generate an arbitrary instance of the specified type.
///
/// Every choice is drawn from `input`: the value generated, and the bytes
/// that it leaves in `input`, are those of [`generate`]. Generation never
/// fails, the value has the type `ty`, and every list in it has between
/// `MIN_LIST_LENGTH` and `MAX_LIST_LENGTH` elements.
pub fn arbitrary_val(ty: &ValType, input: &mut Unstructured) -> (r: Result<Value, ArbitraryError>)
    requires
        well_formed(*ty),
    ensures
        r matches Ok(v) && v@ == generate(*ty, unstructured_data(*old(input))).0,
        r matches Ok(v) && has_type(v@, *ty) && lists_within(v@),
        unstructured_data(*final(input)) == generate(*ty, unstructured_data(*old(input))).1,
    decreases ty, 0int,
{
    let ghost data = unstructured_data(*input);
    match ty {
        ValType::Unit => Ok(Value::Unit),
        ValType::Bool => Ok(Value::Bool(arbitrary_bool(input)?)),
        ValType::S8 => Ok(Value::S8(arbitrary_i8(input)?)),
        ValType::U8 => Ok(Value::U8(arbitrary_u8(input)?)),
        ValType::S16 => Ok(Value::S16(arbitrary_i16(input)?)),
        ValType::U16 => Ok(Value::U16(arbitrary_u16(input)?)),
        ValType::S32 => Ok(Value::S32(arbitrary_i32(input)?)),
        ValType::U32 => Ok(Value::U32(arbitrary_u32(input)?)),
        ValType::S64 => Ok(Value::S64(arbitrary_i64(input)?)),
        ValType::U64 => Ok(Value::U64(arbitrary_u64(input)?)),
        // An arbitrary float is the float of an arbitrary integer's bits, so
        // its bits are that integer.
        ValType::Float32 => Ok(Value::Float32(arbitrary_u32(input)?)),
        ValType::Float64 => Ok(Value::Float64(arbitrary_u64(input)?)),
        ValType::Char => Ok(Value::Char(arbitrary_char(input)?)),
        ValType::String => Ok(Value::String(arbitrary_string(input)?)),
        ValType::List(elem) => {
            let n = draw_in_range(input, MIN_LIST_LENGTH as usize, MAX_LIST_LENGTH as usize)?;
            let values = arbitrary_list(elem, n, input)?;
            proof {
                lemma_view_values_len(values@);
            }
            Ok(Value::List(values))
        },
        ValType::Record(fields) => Ok(Value::Record(arbitrary_fields(fields, input)?)),
        ValType::Tuple(tys) => Ok(Value::Tuple(arbitrary_seq(tys, input)?)),
        ValType::Variant(cases) => {
            let discriminant = draw_in_range(input, 0, cases.len() - 1)?;
            let name = case_name(discriminant);
            proof {
                lemma_well_formed_fields_index(cases@, discriminant as int);
            }
            let payload = arbitrary_val(&cases[discriminant].1, input)?;
            proof {
                let d = discriminant as int;
                assert(named_type(cases@, case_label(d as nat)) == Some(cases@[d].1));
            }
            Ok(Value::Variant(name, Box::new(payload)))
        },
        ValType::Enum(names) => {
            let discriminant = draw_in_range(input, 0, names.len() - 1)?;
            let name = case_name(discriminant);
            proof {
                let d = discriminant as int;
                assert(has_name(names@, case_label(d as nat)));
            }
            Ok(Value::Enum(name))
        },
        ValType::Union(tys) => {
            let discriminant = draw_in_range(input, 0, tys.len() - 1)?;
            proof {
                lemma_well_formed_seq_index(tys@, discriminant as int);
            }
            let payload = arbitrary_val(&tys[discriminant], input)?;
            Ok(Value::Union(discriminant as u32, Box::new(payload)))
        },
        ValType::Option(t) => {
            let discriminant = draw_in_range(input, 0, 1)?;
            if discriminant == 0 {
                Ok(Value::Option(None))
            } else {
                Ok(Value::Option(Some(Box::new(arbitrary_val(t, input)?))))
            }
        },
        ValType::Expected(ok, err) => {
            let discriminant = draw_in_range(input, 0, 1)?;
            if discriminant == 0 {
                Ok(Value::Expected(Ok(Box::new(arbitrary_val(ok, input)?))))
            } else {
                Ok(Value::Expected(Err(Box::new(arbitrary_val(err, input)?))))
            }
        },
        ValType::Flags(names) => {
            let set = arbitrary_flags(names, input)?;
            Ok(Value::Flags(set))
        },
    }
}

/// `n` values of type `elem`, generated one after the other: the loop that
/// `Unstructured::arbitrary_loop` runs once it has drawn its count.
fn arbitrary_list(elem: &ValType, n: usize, input: &mut Unstructured) -> (r: Result<
    Vec<Value>,
    ArbitraryError,
>)
    requires
        well_formed(*elem),
    ensures
        r matches Ok(vs) && view_values(vs@) == generate_list(
            *elem,
            unstructured_data(*old(input)),
            n as nat,
        ).0,
        unstructured_data(*final(input)) == generate_list(
            *elem,
            unstructured_data(*old(input)),
            n as nat,
        ).1,
        r matches Ok(vs) && vs@.len() == n && all_have_type(view_values(vs@), *elem)
            && all_lists_within(view_values(vs@)),
    decreases elem, 1int,
{
    let ghost data = unstructured_data(*input);
    let mut values: Vec<Value> = Vec::new();
    let mut k: usize = 0;
    while k < n
        invariant
            k <= n,
            well_formed(*elem),
            view_values(values@) + generate_list(*elem, unstructured_data(*input), (n - k) as nat).0
                == generate_list(*elem, data, n as nat).0,
            generate_list(*elem, unstructured_data(*input), (n - k) as nat).1 == generate_list(
                *elem,
                data,
                n as nat,
            ).1,
            values@.len() == k,
            all_have_type(view_values(values@), *elem),
            all_lists_within(view_values(values@)),
        decreases n - k,
    {
        let ghost before = values@;
        let ghost cur = unstructured_data(*input);
        let v = arbitrary_val(elem, input)?;
        values.push(v);
        proof {
            assert(values@.drop_last() =~= before);
            let rest = generate_list(*elem, unstructured_data(*input), (n - k - 1) as nat).0;
            assert(view_values(values@) + rest =~= view_values(before) + (seq![v@] + rest));
            assert(view_values(values@) == view_values(before).push(v@));
            assert(view_values(values@).drop_last() =~= view_values(before));
        }
        k = k + 1;
    }
    Ok(values)
}

/// One value of each type, generated in order.
fn arbitrary_seq(tys: &Vec<ValType>, input: &mut Unstructured) -> (r: Result<Vec<Value>, ArbitraryError>)
    requires
        well_formed_seq(tys@),
    ensures
        r matches Ok(vs) && view_values(vs@) == generate_seq(tys@, unstructured_data(*old(input))).0,
        unstructured_data(*final(input)) == generate_seq(tys@, unstructured_data(*old(input))).1,
        r matches Ok(vs) && each_has_type(view_values(vs@), tys@) && all_lists_within(
            view_values(vs@),
        ),
    decreases tys, 0int,
{
    let ghost data = unstructured_data(*input);
    let mut values: Vec<Value> = Vec::new();
    let mut i: usize = 0;
    proof {
        assert(tys@.skip(0) =~= tys@);
        assert(tys@.take(0) =~= Seq::<ValType>::empty());
    }
    while i < tys.len()
        invariant
            i <= tys.len(),
            well_formed_seq(tys@.skip(i as int)),
            view_values(values@) + generate_seq(tys@.skip(i as int), unstructured_data(*input)).0
                == generate_seq(tys@, data).0,
            generate_seq(tys@.skip(i as int), unstructured_data(*input)).1 == generate_seq(
                tys@,
                data,
            ).1,
            each_has_type(view_values(values@), tys@.take(i as int)),
            all_lists_within(view_values(values@)),
        decreases tys.len() - i,
    {
        let ghost before = values@;
        proof {
            assert(tys@.skip(i as int).drop_first() =~= tys@.skip(i + 1));
            assert(tys@.skip(i as int)[0] == tys@[i as int]);
        }
        let v = arbitrary_val(&tys[i], input)?;
        values.push(v);
        proof {
            assert(values@.drop_last() =~= before);
            let rest = generate_seq(tys@.skip(i + 1), unstructured_data(*input)).0;
            assert(view_values(values@) + rest =~= view_values(before) + (seq![v@] + rest));
            assert(tys@.take(i + 1).drop_last() =~= tys@.take(i as int));
            assert(view_values(values@).drop_last() =~= view_values(before));
        }
        i = i + 1;
    }
    proof {
        assert(tys@.take(i as int) =~= tys@);
        assert(tys@.skip(i as int) =~= Seq::<ValType>::empty());
        assert(view_values(values@) + Seq::<ValueView>::empty() =~= view_values(values@));
    }
    Ok(values)
}

/// One value of each field's type, generated in order, each with the
/// field's name.
fn arbitrary_fields(fields: &Vec<(String, ValType)>, input: &mut Unstructured) -> (r: Result<
    Vec<(String, Value)>,
    ArbitraryError,
>)
    requires
        well_formed_fields(fields@),
    ensures
        r matches Ok(vs) && view_named_values(vs@) == generate_fields(
            fields@,
            unstructured_data(*old(input)),
        ).0,
        unstructured_data(*final(input)) == generate_fields(
            fields@,
            unstructured_data(*old(input)),
        ).1,
        r matches Ok(vs) && named_have_types(view_named_values(vs@), fields@)
            && named_lists_within(view_named_values(vs@)),
    decreases fields, 0int,
{
    let ghost data = unstructured_data(*input);
    let mut values: Vec<(String, Value)> = Vec::new();
    let mut i: usize = 0;
    proof {
        assert(fields@.skip(0) =~= fields@);
        assert(fields@.take(0) =~= Seq::<(String, ValType)>::empty());
    }
    while i < fields.len()
        invariant
            i <= fields.len(),
            well_formed_fields(fields@.skip(i as int)),
            view_named_values(values@) + generate_fields(
                fields@.skip(i as int),
                unstructured_data(*input),
            ).0 == generate_fields(fields@, data).0,
            generate_fields(fields@.skip(i as int), unstructured_data(*input)).1
                == generate_fields(fields@, data).1,
            named_have_types(view_named_values(values@), fields@.take(i as int)),
            named_lists_within(view_named_values(values@)),
        decreases fields.len() - i,
    {
        let ghost before = values@;
        proof {
            assert(fields@.skip(i as int).drop_first() =~= fields@.skip(i + 1));
            assert(fields@.skip(i as int)[0] == fields@[i as int]);
        }
        let v = arbitrary_val(&fields[i].1, input)?;
        let name = fields[i].0.clone();
        values.push((name, v));
        proof {
            assert(values@.drop_last() =~= before);
            let rest = generate_fields(fields@.skip(i + 1), unstructured_data(*input)).0;
            assert(view_named_values(values@) + rest =~= view_named_values(before) + (seq![
                (fields@[i as int].0@, v@),
            ] + rest));
            assert(fields@.take(i + 1).drop_last() =~= fields@.take(i as int));
            assert(view_named_values(values@).drop_last() =~= view_named_values(before));
        }
        i = i + 1;
    }
    proof {
        assert(fields@.take(i as int) =~= fields@);
        assert(fields@.skip(i as int) =~= Seq::<(String, ValType)>::empty());
        assert(view_named_values(values@) + Seq::<(Seq<char>, ValueView)>::empty()
            =~= view_named_values(values@));
    }
    Ok(values)
}

/// The flags that are set: for each name in order, one arbitrary `bool`
/// decides whether it is.
fn arbitrary_flags(names: &Vec<String>, input: &mut Unstructured) -> (r: Result<
    Vec<String>,
    ArbitraryError,
>)
    ensures
        r matches Ok(set) && view_strings(set@) == generate_flags(
            names@,
            unstructured_data(*old(input)),
        ).0,
        unstructured_data(*final(input)) == generate_flags(
            names@,
            unstructured_data(*old(input)),
        ).1,
        r matches Ok(set) && each_is_a_name(view_strings(set@), names@),
{
    let ghost data = unstructured_data(*input);
    let mut set: Vec<String> = Vec::new();
    let mut i: usize = 0;
    proof {
        assert(rest_after(data, 0) =~= data);
        assert(view_strings(set@) =~= drawn_flags(data, 0).map_values(|k: int| names@[k]@));
    }
    while i < names.len()
        invariant
            i <= names.len(),
            unstructured_data(*input) == rest_after(data, i as nat),
            view_strings(set@) == drawn_flags(data, i as nat).map_values(|k: int| names@[k]@),
        decreases names.len() - i,
    {
        let ghost before = set@;
        let ghost cur = unstructured_data(*input);
        proof {
            if i < data.len() {
                assert(cur[0] == data[i as int]);
                assert(le_value(cur.drop_first(), 0) == 0);
                assert(le_value(cur, 1) == cur[0] as nat);
                assert(cur.skip(1) =~= data.skip(i + 1));
            }
        }
        let chosen = arbitrary_bool(input)?;
        proof {
            assert(chosen == flag_drawn(data, i as int));
            assert(unstructured_data(*input) =~= rest_after(data, (i + 1) as nat));
        }
        if chosen {
            set.push(names[i].clone());
            proof {
                assert(view_strings(set@) =~= view_strings(before).push(names@[i as int]@));
                assert(view_strings(set@) =~= drawn_flags(data, (i + 1) as nat).map_values(
                    |k: int| names@[k]@,
                ));
            }
        }
        i = i + 1;
    }
    proof {
        lemma_generated_flags(names@, data);
        let set_view = view_strings(set@);
        assert forall|j: int| 0 <= j < set_view.len() implies #[trigger] has_name(
            names@,
            set_view[j],
        ) by {
            let idx = drawn_flags(data, names@.len());
            assert(0 <= idx[j] < names@.len());
            assert(set_view[j] == names@[idx[j]]@);
        }
    }
    Ok(set)
}

} // verus!
