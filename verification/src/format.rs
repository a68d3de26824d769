//! The byte layout of values and stores, as specification functions.
//!
//! A value is one byte, whose top three bits name its kind, and its content:
//!
//! ```text
//! character   [0b000_00000] [integer of the code]
//! string      [0b001_00000] [UTF-8 bytes]
//! bytes       [0b010_00000] [the bytes]
//! boolean     [0b011_0000b]
//! number      [0b100_00000] [integer]
//! store       [0b101_00000] [store]
//! ```
//!
//! A store is a header and, by the version in it, one of two bodies:
//!
//! ```text
//! header      [10 bytes of title] [0] [6 bytes of version] [0]
//! keyed       "SIZE" [0] [count] [0]
//!             count times: [length of key] [length of value] [key]
//!             count times: [value]
//! array       [count]
//!             count times: [value]
//! ```
//!
//! Counts and lengths are integers. A string and bytes do not say where
//! they end. In a keyed store the block of keys says it for them. In an
//! array nothing does: the values stand back to back, and a decoder that
//! comes upon a string or bytes there refuses to go on.
//!
//! A keyed store has no order of its own, but its bytes do. A *layout* is a
//! store with the order of its entries fixed, at every depth: the encoders
//! write some layout of what they are given, and the decoders read a layout
//! back. `spec_ser_*` say which bytes a layout has, `spec_deser_*` say what
//! the decoders make of any bytes at all.
use crate::integer::{spec_deser, Integer, IntegerSerError, SignedState};
use crate::store::{StoreError, StoreView};
use crate::text::utf8_error;
use crate::values::{ValueSerError, ValueTy, ValueView};
use crate::version::{spec_from_bytes, Version};
use vstd::prelude::*;
use vstd::utf8::{decode_utf8, encode_utf8, is_scalar, valid_utf8};

verus! {

/// A value with the order of every nested keyed store fixed.
pub enum ValueLayout {
    Ch(char),
    String(Seq<char>),
    Binary(Seq<u8>),
    Bool(bool),
    Int(Integer),
    Store(StoreLayout),
}

/// One entry of a keyed store.
pub struct EntryLayout {
    pub key: Seq<char>,
    pub value: ValueLayout,
}

/// A store with the order of its entries fixed, at every depth.
pub enum StoreLayout {
    Dict(Seq<EntryLayout>),
    Array(Seq<ValueLayout>),
}

/// What the block of keys says of one entry: its key, and how many bytes
/// its value takes in the block of values.
pub struct KeyRecord {
    pub key: Seq<char>,
    pub value_len: nat,
}

/// The key under which a keyed store keeps the values pushed to it.
pub open spec fn array_key() -> Seq<char> {
    seq!['A', 'r', 'r', 'a', 'y']
}

/// The map that results from inserting the pairs one after the other.
pub open spec fn map_of(pairs: Seq<(Seq<char>, ValueView)>) -> Map<Seq<char>, ValueView>
    decreases pairs.len(),
{
    if pairs.len() == 0 {
        Map::empty()
    } else {
        map_of(pairs.drop_last()).insert(pairs.last().0, pairs.last().1)
    }
}

impl View for ValueLayout {
    type V = ValueView;

    /// The value, with the order forgotten.
    open spec fn view(&self) -> ValueView
        decreases self,
    {
        match self {
            ValueLayout::Ch(c) => ValueView::Ch(*c),
            ValueLayout::String(s) => ValueView::String(*s),
            ValueLayout::Binary(b) => ValueView::Binary(*b),
            ValueLayout::Bool(b) => ValueView::Bool(*b),
            ValueLayout::Int(i) => ValueView::Int(*i),
            ValueLayout::Store(s) => ValueView::Store(s.view()),
        }
    }
}

/// Each entry as a key and the value with its order forgotten.
pub open spec fn entry_pairs(entries: Seq<EntryLayout>) -> Seq<(Seq<char>, ValueView)>
    decreases entries,
{
    Seq::new(
        entries.len(),
        |i: int|
            if 0 <= i < entries.len() {
                (entries[i].key, entries[i].value.view())
            } else {
                (Seq::empty(), ValueView::Bool(false))
            },
    )
}

/// Each item with its order forgotten.
pub open spec fn item_views(items: Seq<ValueLayout>) -> Seq<ValueView>
    decreases items,
{
    Seq::new(
        items.len(),
        |i: int|
            if 0 <= i < items.len() {
                items[i].view()
            } else {
                ValueView::Bool(false)
            },
    )
}

impl View for StoreLayout {
    type V = StoreView;

    /// The store, with the order forgotten. Of two entries with one key the
    /// later one counts.
    open spec fn view(&self) -> StoreView
        decreases self,
    {
        match self {
            StoreLayout::Dict(entries) => StoreView::Dict(map_of(entry_pairs(*entries))),
            StoreLayout::Array(items) => StoreView::Array(item_views(*items)),
        }
    }
}

/// Whether the reserved key, if this is a keyed store that has it, holds an
/// array.
pub open spec fn reserved_ok(s: StoreView) -> bool {
    s matches StoreView::Dict(m) ==> (m.dom().contains(array_key()) ==> m[array_key()]
        matches ValueView::Store(StoreView::Array(_)))
}

/// Whether the reserved key holds an array wherever it occurs, at any depth.
pub open spec fn wf_value(v: ValueView) -> bool
    decreases v,
{
    match v {
        ValueView::Store(s) => wf_store(s),
        _ => true,
    }
}

/// Whether the reserved key holds an array wherever it occurs, at any depth.
pub open spec fn wf_store(s: StoreView) -> bool
    decreases s,
{
    match s {
        StoreView::Dict(m) => m.dom().finite() && reserved_ok(s) && forall|k: Seq<char>|
            m.dom().finite() && m.dom().contains(k) ==> wf_value(#[trigger] m[k]),
        StoreView::Array(a) => forall|i: int| 0 <= i < a.len() ==> wf_value(#[trigger] a[i]),
    }
}

/// Whether every count and length in the layout fits `usize`, at any depth.
pub open spec fn sized_value(l: ValueLayout) -> bool
    decreases l,
{
    spec_ser_value(l).len() <= usize::MAX && (l matches ValueLayout::Store(s) ==> sized_store(s))
}

/// Whether every count and length in the layout fits `usize`, at any depth.
pub open spec fn sized_store(s: StoreLayout) -> bool
    decreases s,
{
    match s {
        StoreLayout::Dict(entries) => entries.len() <= usize::MAX && forall|i: int|
            0 <= i < entries.len() ==> encode_utf8(entries[i].key).len() <= usize::MAX
                && sized_value(#[trigger] entries[i].value),
        StoreLayout::Array(items) => items.len() <= usize::MAX && forall|i: int|
            0 <= i < items.len() ==> sized_value(#[trigger] items[i]),
    }
}

/// Whether every string and every run of bytes in the value has its length
/// written somewhere: none stands directly in an array, at any depth.
pub open spec fn lengths_known_value(v: ValueView) -> bool
    decreases v,
{
    match v {
        ValueView::Store(s) => lengths_known_store(s),
        _ => true,
    }
}

/// Whether every string and every run of bytes in the store has its length
/// written somewhere: none stands directly in an array, at any depth.
pub open spec fn lengths_known_store(s: StoreView) -> bool
    decreases s,
{
    match s {
        StoreView::Dict(m) => forall|k: Seq<char>|
            m.dom().finite() && m.dom().contains(k) ==> lengths_known_value(#[trigger] m[k]),
        StoreView::Array(a) => forall|i: int|
            0 <= i < a.len() ==> !(a[i] is String) && !(a[i] is Binary) && lengths_known_value(
                #[trigger] a[i],
            ),
    }
}

/// Whether no keyed store of the layout names a key twice, at any depth.
pub open spec fn keys_distinct_value(l: ValueLayout) -> bool
    decreases l,
{
    l matches ValueLayout::Store(s) ==> keys_distinct_store(s)
}

/// Whether no keyed store of the layout names a key twice, at any depth.
pub open spec fn keys_distinct_store(s: StoreLayout) -> bool
    decreases s,
{
    match s {
        StoreLayout::Dict(entries) => (forall|i: int, j: int|
            0 <= i < j < entries.len() ==> (#[trigger] entries[i]).key != (
            #[trigger] entries[j]).key) && forall|i: int|
            0 <= i < entries.len() ==> keys_distinct_value(#[trigger] entries[i].value),
        StoreLayout::Array(items) => forall|i: int|
            0 <= i < items.len() ==> keys_distinct_value(#[trigger] items[i]),
    }
}

/// Whether the decoders read the layout back: in every keyed store of it
/// the reserved key holds an array, and no array of it holds a string or
/// bytes directly.
pub open spec fn valid_value(l: ValueLayout) -> bool
    decreases l,
{
    l matches ValueLayout::Store(s) ==> valid_store(s)
}

/// Whether the decoders read the layout back: in every keyed store of it
/// the reserved key holds an array, and no array of it holds a string or
/// bytes directly.
pub open spec fn valid_store(s: StoreLayout) -> bool
    decreases s,
{
    match s {
        StoreLayout::Dict(entries) => reserved_ok(s@) && forall|i: int|
            0 <= i < entries.len() ==> valid_value(#[trigger] entries[i].value),
        StoreLayout::Array(items) => forall|i: int|
            0 <= i < items.len() ==> !(items[i] is String) && !(items[i] is Binary)
                && valid_value(#[trigger] items[i]),
    }
}

/// Whether `l` is the value `v` with the entries of its keyed stores in
/// some order, each once, with lengths that fit; and one that the decoders
/// read back, if `v` respects the reserved key and has no string or bytes
/// directly in an array.
pub open spec fn lays_out_value(l: ValueLayout, v: ValueView) -> bool {
    l@ == v && sized_value(l) && keys_distinct_value(l) && (wf_value(v) && lengths_known_value(v)
        ==> valid_value(l))
}

/// Whether `o` is the store `s` with the entries of its keyed stores in
/// some order, each once, with lengths that fit; and one that the decoders
/// read back, if `s` respects the reserved key and has no string or bytes
/// directly in an array.
pub open spec fn lays_out_store(o: StoreLayout, s: StoreView) -> bool {
    o@ == s && sized_store(o) && keys_distinct_store(o) && (wf_store(s) && lengths_known_store(s)
        ==> valid_store(o))
}

/// Whether `b` is what some ordering of `v` is encoded as.
pub open spec fn encodes_value(v: ValueView, b: Seq<u8>) -> bool {
    exists|l: ValueLayout| lays_out_value(l, v) && b == spec_ser_value(l)
}

/// Whether `b` is what some ordering of `s` is encoded as.
pub open spec fn encodes_store(s: StoreView, b: Seq<u8>) -> bool {
    exists|o: StoreLayout| lays_out_store(o, s) && b == spec_ser_store(o)
}

/// The only layout of a value that is no store.
pub open spec fn flat_layout(v: ValueView) -> ValueLayout {
    match v {
        ValueView::Ch(c) => ValueLayout::Ch(c),
        ValueView::String(s) => ValueLayout::String(s),
        ValueView::Binary(b) => ValueLayout::Binary(b),
        ValueView::Bool(b) => ValueLayout::Bool(b),
        ValueView::Int(i) => ValueLayout::Int(i),
        ValueView::Store(_) => ValueLayout::Bool(false),
    }
}

/// The outcome of a run of items when `acc`, read from `used` bytes, came
/// before what `r` says of the rest.
pub open spec fn prefixed<T, E>(acc: Seq<T>, used: nat, r: Result<(Seq<T>, nat), E>) -> Result<
    (Seq<T>, nat),
    E,
> {
    match r {
        Ok((items, n)) => Ok((acc + items, used + n)),
        Err(e) => Err(e),
    }
}

/// The ten bytes that open every encoded store.
pub open spec fn magic() -> Seq<u8> {
    seq![68u8, 65u8, 68u8, 68u8, 89u8, 83u8, 84u8, 79u8, 82u8, 69u8]
}

/// The label in front of the entry count of a keyed store.
pub open spec fn size_label() -> Seq<u8> {
    seq![83u8, 73u8, 90u8, 69u8]
}

/// The eighteen bytes in front of a store of the given version.
pub open spec fn header(v: Version) -> Seq<u8> {
    magic() + seq![0u8] + v.spec_bytes() + seq![0u8]
}

/// The first byte of a value: the kind in the top three bits, the niche in
/// the other five.
pub open spec fn tag_byte(ty: ValueTy, niche: u8) -> u8 {
    (ty.spec_id() * 32 + niche) as u8
}

/// The encoding of a length or a count.
pub open spec fn spec_ser_len(n: nat) -> Seq<u8> {
    (Integer { signed_state: SignedState::Positive, magnitude: n as u128 }).spec_ser()
}

/// Reads a length or a count: an integer that must fit `usize`. Yields the
/// number and how many bytes it took.
#[verifier::opaque]
pub open spec fn spec_deser_len(b: Seq<u8>) -> Result<(nat, nat), IntegerSerError> {
    match spec_deser(b) {
        Err(e) => Err(e),
        Ok((i, n)) => if i.signed_state is Positive && i.magnitude <= usize::MAX {
            Ok((i.magnitude as nat, n))
        } else {
            Err(IntegerSerError::OutOfRange)
        },
    }
}

/// `b` without its first `n` bytes; nothing when it has fewer.
pub open spec fn tail(b: Seq<u8>, n: nat) -> Seq<u8> {
    if n <= b.len() {
        b.skip(n as int)
    } else {
        Seq::empty()
    }
}

/// The bytes of a value.
pub open spec fn spec_ser_value(l: ValueLayout) -> Seq<u8>
    decreases l,
{
    match l {
        ValueLayout::Ch(c) => seq![tag_byte(ValueTy::Ch, 0)] + spec_ser_len(c as nat),
        ValueLayout::String(s) => seq![tag_byte(ValueTy::String, 0)] + encode_utf8(s),
        ValueLayout::Binary(b) => seq![tag_byte(ValueTy::Binary, 0)] + b,
        ValueLayout::Bool(b) => seq![
            tag_byte(
                ValueTy::Bool,
                if b {
                    1
                } else {
                    0
                },
            ),
        ],
        ValueLayout::Int(i) => seq![tag_byte(ValueTy::Int, 0)] + i.spec_ser(),
        ValueLayout::Store(s) => seq![tag_byte(ValueTy::Store, 0)] + spec_ser_store(s),
    }
}

/// The bytes of each value of a keyed store, in order.
pub open spec fn entry_parts(entries: Seq<EntryLayout>) -> Seq<Seq<u8>>
    decreases entries,
{
    Seq::new(
        entries.len(),
        |i: int|
            if 0 <= i < entries.len() {
                spec_ser_value(entries[i].value)
            } else {
                Seq::empty()
            },
    )
}

/// The bytes of each value of an array, in order.
pub open spec fn item_parts(items: Seq<ValueLayout>) -> Seq<Seq<u8>>
    decreases items,
{
    Seq::new(
        items.len(),
        |i: int|
            if 0 <= i < items.len() {
                spec_ser_value(items[i])
            } else {
                Seq::empty()
            },
    )
}

/// What the block of keys holds for one entry: the length of the key, the
/// length of the value, the key.
pub open spec fn key_record_bytes(key: Seq<char>, value_len: nat) -> Seq<u8> {
    spec_ser_len(encode_utf8(key).len()) + spec_ser_len(value_len) + encode_utf8(key)
}

/// The keys of the entries, in order.
pub open spec fn entry_keys(entries: Seq<EntryLayout>) -> Seq<Seq<char>> {
    Seq::new(entries.len(), |i: int| entries[i].key)
}

/// The records of the block of keys, one for each key and part.
pub open spec fn key_records(keys: Seq<Seq<char>>, parts: Seq<Seq<u8>>) -> Seq<Seq<u8>> {
    Seq::new(keys.len(), |i: int| key_record_bytes(keys[i], parts[i].len()))
}

/// What stands between the header of a keyed store and its block of keys:
/// the label `SIZE` and the entry count, each with a zero byte behind it.
pub open spec fn dict_head(count: nat) -> Seq<u8> {
    size_label() + seq![0u8] + spec_ser_len(count) + seq![0u8]
}

/// The bytes of a keyed store with the given keys, whose values have the
/// given bytes: the header, the label `SIZE`, the entry count between two
/// zero bytes, the block of keys and the block of values.
#[verifier::opaque]
pub open spec fn dict_bytes(keys: Seq<Seq<char>>, parts: Seq<Seq<u8>>) -> Seq<u8> {
    header(Version::V0_1_0) + dict_head(keys.len()) + key_records(keys, parts).flatten()
        + parts.flatten()
}

/// The bytes of an array whose values have the given bytes: the header, the
/// entry count, and the values back to back.
#[verifier::opaque]
pub open spec fn array_bytes(parts: Seq<Seq<u8>>) -> Seq<u8> {
    header(Version::V0_2_0) + spec_ser_len(parts.len()) + parts.flatten()
}

/// The bytes of a store.
pub open spec fn spec_ser_store(s: StoreLayout) -> Seq<u8>
    decreases s,
{
    match s {
        StoreLayout::Dict(entries) => dict_bytes(entry_keys(entries), entry_parts(entries)),
        StoreLayout::Array(items) => array_bytes(item_parts(items)),
    }
}

/// The kind that the top three bits of a first byte name.
pub open spec fn spec_ty_of(first: u8) -> Result<ValueTy, ValueSerError> {
    let tag = first / 32;
    if tag == 0 {
        Ok(ValueTy::Ch)
    } else if tag == 1 {
        Ok(ValueTy::String)
    } else if tag == 2 {
        Ok(ValueTy::Binary)
    } else if tag == 3 {
        Ok(ValueTy::Bool)
    } else if tag == 4 {
        Ok(ValueTy::Int)
    } else if tag == 5 {
        Ok(ValueTy::Store)
    } else {
        Err(ValueSerError::InvalidType(tag))
    }
}

/// What decoding the content of a character from the front of `b` yields.
#[verifier::opaque]
pub open spec fn spec_deser_ch(b: Seq<u8>) -> Result<(ValueLayout, nat), ValueSerError> {
    match spec_deser(b) {
        Err(e) => Err(ValueSerError::IntegerSerFailure(e)),
        Ok((i, n)) => if !(i.signed_state is Positive && i.magnitude <= u32::MAX) {
            Err(ValueSerError::IntegerSerFailure(IntegerSerError::OutOfRange))
        } else if !is_scalar(i.magnitude as u32) {
            Err(ValueSerError::InvalidCharacter)
        } else {
            Ok((ValueLayout::Ch(i.magnitude as u32 as char), n))
        },
    }
}

/// What decoding the content of a number from the front of `b` yields.
#[verifier::opaque]
pub open spec fn spec_deser_int(b: Seq<u8>) -> Result<(ValueLayout, nat), ValueSerError> {
    match spec_deser(b) {
        Err(e) => Err(ValueSerError::IntegerSerFailure(e)),
        Ok((i, n)) => Ok((ValueLayout::Int(i), n)),
    }
}

/// What a boolean, a string or bytes come to, given the first byte and the
/// content behind it.
#[verifier::opaque]
pub open spec fn spec_resolve(ty: ValueTy, first: u8, content: Seq<u8>) -> Result<
    ValueLayout,
    ValueSerError,
> {
    match ty {
        ValueTy::Bool => if content.len() == 0 {
            Ok(ValueLayout::Bool(first % 32 > 0))
        } else {
            Err(ValueSerError::UnexpectedContent)
        },
        ValueTy::String => if valid_utf8(content) {
            Ok(ValueLayout::String(decode_utf8(content)))
        } else {
            Err(ValueSerError::NonUTF8String(utf8_error(content)))
        },
        _ => Ok(ValueLayout::Binary(content)),
    }
}

/// The same outcome, counting the first byte of the value in.
pub open spec fn behind_tag<E>(r: Result<(ValueLayout, nat), E>) -> Result<(ValueLayout, nat), E> {
    match r {
        Ok((l, n)) => Ok((l, n + 1)),
        Err(e) => Err(e),
    }
}

/// What decoding a value announced with `len` bytes from the front of `b`
/// yields: the value and the number of bytes used, or the failure.
///
/// A character, a number and a nested store say themselves where they end,
/// and `len` is not consulted for them beyond being positive.
pub open spec fn spec_deser_value(b: Seq<u8>, len: nat) -> Result<
    (ValueLayout, nat),
    ValueSerError,
>
    decreases b.len(), 0nat, 0nat,
{
    if len == 0 {
        Err(ValueSerError::Empty)
    } else if b.len() == 0 {
        Err(ValueSerError::NotEnoughBytes)
    } else {
        match spec_ty_of(b[0]) {
            Err(e) => Err(e),
            Ok(ValueTy::Ch) => behind_tag(spec_deser_ch(tail(b, 1))),
            Ok(ValueTy::Int) => behind_tag(spec_deser_int(tail(b, 1))),
            Ok(ValueTy::Store) => match spec_deser_store(tail(b, 1)) {
                Err(e) => Err(ValueSerError::Store(Box::new(e))),
                Ok((s, n)) => Ok((ValueLayout::Store(s), n + 1)),
            },
            Ok(ty) => if b.len() < len {
                Err(ValueSerError::NotEnoughBytes)
            } else {
                match spec_resolve(ty, b[0], b.subrange(1, len as int)) {
                    Err(e) => Err(e),
                    Ok(l) => Ok((l, len)),
                }
            },
        }
    }
}

/// What reading the header of a store from the front of `b` yields: the
/// version and the number of bytes used. The ten bytes of the title and the
/// zero bytes are stepped over without being looked at.
#[verifier::opaque]
pub open spec fn spec_deser_header(b: Seq<u8>) -> Result<(Version, nat), StoreError> {
    if b.len() < 11 {
        Err(StoreError::NotEnoughBytes)
    } else {
        match spec_from_bytes(tail(b, 11)) {
            Err(e) => Err(StoreError::VersionError(e)),
            Ok(v) => if b.len() < 18 {
                Err(StoreError::NotEnoughBytes)
            } else {
                Ok((v, 18))
            },
        }
    }
}

/// What reading the label `SIZE` and the entry count of a keyed store, each
/// with the byte behind it, yields: the count and the number of bytes used.
/// The label and the two bytes are stepped over without being looked at.
#[verifier::opaque]
pub open spec fn spec_deser_dict_head(b: Seq<u8>) -> Result<(nat, nat), StoreError> {
    if b.len() < 5 {
        Err(StoreError::NotEnoughBytes)
    } else {
        match spec_deser_len(tail(b, 5)) {
            Err(e) => Err(StoreError::IntegerError(e)),
            Ok((count, n)) => if tail(tail(b, 5), n).len() < 1 {
                Err(StoreError::NotEnoughBytes)
            } else {
                Ok((count, 5 + n + 1))
            },
        }
    }
}

/// What decoding a store from the front of `b` yields: the store and the
/// number of bytes used, or the failure.
pub open spec fn spec_deser_store(b: Seq<u8>) -> Result<(StoreLayout, nat), StoreError>
    decreases b.len(), 3nat, 0nat,
{
    match spec_deser_header(b) {
        Err(e) => Err(e),
        Ok((Version::V0_1_0, n)) => match spec_deser_dict(tail(b, n)) {
            Err(e) => Err(e),
            Ok((entries, m)) => Ok((StoreLayout::Dict(entries), n + m)),
        },
        Ok((Version::V0_2_0, n)) => match spec_deser_array(tail(b, n)) {
            Err(e) => Err(e),
            Ok((items, m)) => Ok((StoreLayout::Array(items), n + m)),
        },
    }
}

/// What decoding the part of a keyed store behind its header yields: the
/// entries in the order read, and the number of bytes used. The store is
/// refused if its reserved key ends up holding anything but an array.
pub open spec fn spec_deser_dict(b: Seq<u8>) -> Result<(Seq<EntryLayout>, nat), StoreError>
    decreases b.len(), 2nat, 0nat,
{
    match spec_deser_dict_head(b) {
        Err(e) => Err(e),
        Ok((count, n1)) => match spec_deser_keys(tail(b, n1), count) {
            Err(e) => Err(e),
            Ok((records, n2)) => match spec_deser_values(tail(tail(b, n1), n2), records) {
                Err(e) => Err(e),
                Ok((entries, n3)) => if reserved_ok(StoreLayout::Dict(entries)@) {
                    Ok((entries, n1 + n2 + n3))
                } else {
                    Err(StoreError::FoundArrayKeyThatWasntArray)
                },
            },
        },
    }
}

/// What decoding the part of an array behind its header yields.
pub open spec fn spec_deser_array(b: Seq<u8>) -> Result<(Seq<ValueLayout>, nat), StoreError>
    decreases b.len(), 2nat, 0nat,
{
    match spec_deser_len(b) {
        Err(e) => Err(StoreError::IntegerError(e)),
        Ok((count, n1)) => match spec_deser_items(tail(b, n1), count) {
            Err(e) => Err(e),
            Ok((items, n2)) => Ok((items, n1 + n2)),
        },
    }
}

/// What decoding one record of the block of keys yields.
#[verifier::opaque]
pub open spec fn spec_deser_key(b: Seq<u8>) -> Result<(KeyRecord, nat), StoreError> {
    match spec_deser_len(b) {
        Err(e) => Err(StoreError::IntegerError(e)),
        Ok((key_len, n1)) => match spec_deser_len(tail(b, n1)) {
            Err(e) => Err(StoreError::IntegerError(e)),
            Ok((value_len, n2)) => {
                let b2 = tail(tail(b, n1), n2);
                if b2.len() < key_len {
                    Err(StoreError::NotEnoughBytes)
                } else if !valid_utf8(b2.take(key_len as int)) {
                    Err(StoreError::StringEncoding(utf8_error(b2.take(key_len as int))))
                } else {
                    Ok(
                        (
                            KeyRecord { key: decode_utf8(b2.take(key_len as int)), value_len },
                            n1 + n2 + key_len,
                        ),
                    )
                }
            },
        },
    }
}

/// What decoding `count` records of the block of keys yields.
pub open spec fn spec_deser_keys(b: Seq<u8>, count: nat) -> Result<(Seq<KeyRecord>, nat), StoreError>
    decreases count,
{
    if count == 0 {
        Ok((Seq::empty(), 0))
    } else {
        match spec_deser_key(b) {
            Err(e) => Err(e),
            Ok((record, n)) => match spec_deser_keys(tail(b, n), (count - 1) as nat) {
                Err(e) => Err(e),
                Ok((records, m)) => Ok((seq![record] + records, n + m)),
            },
        }
    }
}

/// What decoding the block of values yields, one value for each record.
pub open spec fn spec_deser_values(b: Seq<u8>, records: Seq<KeyRecord>) -> Result<
    (Seq<EntryLayout>, nat),
    StoreError,
>
    decreases b.len(), 1nat, records.len(),
{
    if records.len() == 0 {
        Ok((Seq::empty(), 0))
    } else {
        match spec_deser_value(b, records[0].value_len) {
            Err(e) => Err(StoreError::ValueError(e)),
            Ok((value, n)) => match spec_deser_values(tail(b, n), records.drop_first()) {
                Err(e) => Err(e),
                Ok((entries, m)) => Ok(
                    (seq![EntryLayout { key: records[0].key, value }] + entries, n + m),
                ),
            },
        }
    }
}

/// What decoding a value with no length announced, as it stands in an
/// array, from the front of `b` yields.
///
/// A boolean is its first byte; a character, a number and a nested store
/// say themselves where they end. A string and bytes do not, and are
/// refused.
pub open spec fn spec_deser_item(b: Seq<u8>) -> Result<(ValueLayout, nat), ValueSerError>
    decreases b.len(), 0nat, 1nat,
{
    if b.len() == 0 {
        Err(ValueSerError::NotEnoughBytes)
    } else {
        match spec_ty_of(b[0]) {
            Err(e) => Err(e),
            Ok(ValueTy::String) => Err(ValueSerError::UnknownLength),
            Ok(ValueTy::Binary) => Err(ValueSerError::UnknownLength),
            Ok(_) => spec_deser_value(b, 1),
        }
    }
}

/// What decoding `count` values of an array, back to back, yields.
pub open spec fn spec_deser_items(b: Seq<u8>, count: nat) -> Result<
    (Seq<ValueLayout>, nat),
    StoreError,
>
    decreases b.len(), 1nat, count,
{
    if count == 0 {
        Ok((Seq::empty(), 0))
    } else {
        match spec_deser_item(b) {
            Err(e) => Err(StoreError::ValueError(e)),
            Ok((value, n)) => match spec_deser_items(tail(b, n), (count - 1) as nat) {
                Err(e) => Err(e),
                Ok((items, m)) => Ok((seq![value] + items, n + m)),
            },
        }
    }
}

} // verus!
