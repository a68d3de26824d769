//! Decoding undoes encoding.
//!
//! The proofs follow the layout: a length, a key record, a block of records,
//! a block of values, a value, a store. Whatever follows the encoded bytes is
//! left alone, which is what lets the pieces be put together.
use crate::format::{
    array_bytes, dict_bytes, dict_head, entry_keys, entry_parts, header, item_parts,
    key_record_bytes, key_records, reserved_ok, sized_store, sized_value,
    spec_deser_array, spec_deser_ch, spec_deser_dict, spec_deser_dict_head, spec_deser_header,
    spec_deser_int, spec_deser_item, spec_deser_items, spec_deser_key, spec_deser_keys,
    spec_deser_len, spec_ty_of,
    spec_deser_store, spec_deser_value, spec_deser_values, spec_resolve, spec_ser_len,
    spec_ser_store, spec_ser_value, tail, valid_store, valid_value, EntryLayout,
    KeyRecord, StoreLayout, ValueLayout,
};
use crate::integer::{lemma_deser_ser, Integer, IntegerSerError, SignedState};
use crate::store::StoreError;
use crate::values::{ValueSerError, ValueTy};
use crate::version::Version;
use vstd::prelude::*;
use vstd::utf8::{
    char_is_scalar, char_u32_cast, encode_utf8, encode_utf8_decode_utf8, encode_utf8_valid_utf8,
};

verus! {

/// The records that the block of keys holds for the given keys and parts.
pub open spec fn records_for(keys: Seq<Seq<char>>, parts: Seq<Seq<u8>>) -> Seq<KeyRecord> {
    Seq::new(keys.len(), |i: int| KeyRecord { key: keys[i], value_len: parts[i].len() })
}

/// Whether decoding the bytes of `l`, with `rest` behind them, gives `l`
/// back and stops in front of `rest`.
pub open spec fn value_decodes_at(l: ValueLayout, rest: Seq<u8>) -> bool {
    spec_deser_value(spec_ser_value(l) + rest, spec_ser_value(l).len()) == Ok::<
        (ValueLayout, nat),
        ValueSerError,
    >((l, spec_ser_value(l).len()))
}

/// Whether decoding the bytes of `l` gives `l` back, whatever follows them.
pub open spec fn value_decodes(l: ValueLayout) -> bool {
    forall|rest: Seq<u8>| #[trigger] value_decodes_at(l, rest)
}

/// Whether each key and each part has a length that fits `usize`.
pub open spec fn lengths_fit(keys: Seq<Seq<char>>, parts: Seq<Seq<u8>>) -> bool {
    keys.len() == parts.len() && forall|i: int|
        0 <= i < keys.len() ==> encode_utf8(#[trigger] keys[i]).len() <= usize::MAX
            && parts[i].len() <= usize::MAX
}

/// Whether each entry has a value that is read back as it was written.
pub open spec fn entries_decode(entries: Seq<EntryLayout>) -> bool {
    forall|i: int| 0 <= i < entries.len() ==> value_decodes(#[trigger] entries[i].value)
}

/// Whether each item is no string and no bytes, and is read back as it was
/// written.
pub open spec fn items_decode(items: Seq<ValueLayout>) -> bool {
    forall|i: int|
        0 <= i < items.len() ==> value_decodes(#[trigger] items[i]) && !(items[i] is String)
            && !(items[i] is Binary)
}

pub proof fn lemma_tail_concat(a: Seq<u8>, b: Seq<u8>)
    ensures
        tail(a + b, a.len()) == b,
{
    assert((a + b).skip(a.len() as int) =~= b);
}

/// A length that fits `usize` is read back as it was written.
pub proof fn lemma_len_round_trip(n: nat, rest: Seq<u8>)
    requires
        n <= usize::MAX,
    ensures
        spec_deser_len(spec_ser_len(n) + rest) == Ok::<(nat, nat), IntegerSerError>(
            (n, spec_ser_len(n).len()),
        ),
{
    reveal(spec_deser_len);
    lemma_deser_ser(Integer { signed_state: SignedState::Positive, magnitude: n as u128 }, rest);
}

/// One record of the block of keys is read back as it was written.
pub proof fn lemma_key_round_trip(key: Seq<char>, value_len: nat, rest: Seq<u8>)
    requires
        encode_utf8(key).len() <= usize::MAX,
        value_len <= usize::MAX,
    ensures
        spec_deser_key(key_record_bytes(key, value_len) + rest) == Ok::<
            (KeyRecord, nat),
            StoreError,
        >((KeyRecord { key, value_len }, key_record_bytes(key, value_len).len())),
{
    reveal(spec_deser_key);
    let kb = encode_utf8(key);
    let a = spec_ser_len(kb.len());
    let b = spec_ser_len(value_len);
    let all = key_record_bytes(key, value_len) + rest;
    assert(all =~= a + (b + (kb + rest)));
    lemma_len_round_trip(kb.len(), b + (kb + rest));
    lemma_tail_concat(a, b + (kb + rest));
    lemma_len_round_trip(value_len, kb + rest);
    lemma_tail_concat(b, kb + rest);
    assert((kb + rest).take(kb.len() as int) =~= kb);
    encode_utf8_valid_utf8(key);
    encode_utf8_decode_utf8(key);
}

/// The block of keys is read back as it was written.
pub proof fn lemma_keys_round_trip(keys: Seq<Seq<char>>, parts: Seq<Seq<u8>>, rest: Seq<u8>)
    requires
        lengths_fit(keys, parts),
    ensures
        spec_deser_keys(key_records(keys, parts).flatten() + rest, keys.len()) == Ok::<
            (Seq<KeyRecord>, nat),
            StoreError,
        >((records_for(keys, parts), key_records(keys, parts).flatten().len())),
    decreases keys.len(),
{
    let blocks = key_records(keys, parts);
    if keys.len() == 0 {
        assert(records_for(keys, parts) =~= Seq::empty());
        assert(blocks.flatten() + rest =~= rest);
    } else {
        let later_keys = keys.drop_first();
        let later_parts = parts.drop_first();
        let first = key_record_bytes(keys[0], parts[0].len());
        assert(encode_utf8(keys[0]).len() <= usize::MAX && parts[0].len() <= usize::MAX);
        assert(blocks.drop_first() =~= key_records(later_keys, later_parts));
        let behind = blocks.drop_first().flatten();
        assert(blocks.flatten() + rest =~= first + (behind + rest));
        lemma_key_round_trip(keys[0], parts[0].len(), behind + rest);
        lemma_tail_concat(first, behind + rest);
        assert(lengths_fit(later_keys, later_parts)) by {
            assert forall|i: int| 0 <= i < later_keys.len() implies encode_utf8(
                #[trigger] later_keys[i],
            ).len() <= usize::MAX && later_parts[i].len() <= usize::MAX by {
                assert(later_keys[i] == keys[i + 1]);
                assert(later_parts[i] == parts[i + 1]);
            }
        }
        lemma_keys_round_trip(later_keys, later_parts, rest);
        assert(seq![records_for(keys, parts)[0]] + records_for(later_keys, later_parts)
            =~= records_for(keys, parts));
    }
}

/// The block of values is read back as it was written, if each value is.
pub proof fn lemma_values_round_trip(entries: Seq<EntryLayout>, rest: Seq<u8>)
    requires
        entries_decode(entries),
    ensures
        spec_deser_values(
            entry_parts(entries).flatten() + rest,
            records_for(entry_keys(entries), entry_parts(entries)),
        ) == Ok::<(Seq<EntryLayout>, nat), StoreError>(
            (entries, entry_parts(entries).flatten().len()),
        ),
    decreases entries.len(),
{
    let parts = entry_parts(entries);
    let records = records_for(entry_keys(entries), parts);
    if entries.len() == 0 {
        assert(parts.flatten() + rest =~= rest);
        assert(entries =~= Seq::empty());
    } else {
        let later = entries.drop_first();
        let first = spec_ser_value(entries[0].value);
        assert(parts.drop_first() =~= entry_parts(later));
        let behind = parts.drop_first().flatten();
        assert(parts.flatten() + rest =~= first + (behind + rest));
        assert(value_decodes(entries[0].value));
        assert(value_decodes_at(entries[0].value, behind + rest));
        lemma_tail_concat(first, behind + rest);
        assert(records.drop_first() =~= records_for(entry_keys(later), entry_parts(later)));
        assert(entries_decode(later)) by {
            assert forall|i: int| 0 <= i < later.len() implies value_decodes(
                #[trigger] later[i].value,
            ) by {
                assert(later[i] == entries[i + 1]);
                assert(value_decodes(entries[i + 1].value));
            }
        }
        lemma_values_round_trip(later, rest);
        assert(seq![entries[0]] + later =~= entries);
    }
}

/// A character, a number and a nested store are decoded without regard to
/// the length that is announced for them.
pub proof fn lemma_len_not_consulted(b: Seq<u8>, len: nat)
    requires
        b.len() > 0,
        len > 0,
        spec_ty_of(b[0]) matches Ok(ty) && (ty is Ch || ty is Int || ty is Store),
    ensures
        spec_deser_value(b, len) == spec_deser_value(b, 1),
{
}

/// A value that is no string and no bytes is read back from an array as it
/// was written, if it is read back so with its length announced.
pub proof fn lemma_item_round_trip(l: ValueLayout, rest: Seq<u8>)
    requires
        value_decodes_at(l, rest),
        !(l is String),
        !(l is Binary),
    ensures
        spec_deser_item(spec_ser_value(l) + rest) == Ok::<(ValueLayout, nat), ValueSerError>(
            (l, spec_ser_value(l).len()),
        ),
{
    let bytes = spec_ser_value(l);
    let all = bytes + rest;
    assert(all[0] == bytes[0]);
    match l {
        ValueLayout::Bool(_) => {},
        _ => {
            lemma_len_not_consulted(all, bytes.len());
        },
    }
}

/// The values of an array are read back as they were written, if each is
/// and none is a string or bytes.
pub proof fn lemma_items_round_trip(items: Seq<ValueLayout>, rest: Seq<u8>)
    requires
        items_decode(items),
    ensures
        spec_deser_items(item_parts(items).flatten() + rest, items.len()) == Ok::<
            (Seq<ValueLayout>, nat),
            StoreError,
        >((items, item_parts(items).flatten().len())),
    decreases items.len(),
{
    let parts = item_parts(items);
    if items.len() == 0 {
        assert(parts.flatten() + rest =~= rest);
        assert(items =~= Seq::empty());
    } else {
        let later = items.drop_first();
        let part = spec_ser_value(items[0]);
        assert(parts.drop_first() =~= item_parts(later));
        let behind = parts.drop_first().flatten();
        assert(value_decodes(items[0]) && !(items[0] is String) && !(items[0] is Binary));
        assert(parts.flatten() + rest =~= part + (behind + rest));
        assert(value_decodes_at(items[0], behind + rest));
        lemma_item_round_trip(items[0], behind + rest);
        lemma_tail_concat(part, behind + rest);
        assert(items_decode(later)) by {
            assert forall|i: int| 0 <= i < later.len() implies value_decodes(
                #[trigger] later[i],
            ) && !(later[i] is String) && !(later[i] is Binary) by {
                assert(later[i] == items[i + 1]);
                assert(value_decodes(items[i + 1]));
            }
        }
        lemma_items_round_trip(later, rest);
        assert(seq![items[0]] + later =~= items);
    }
}

/// An array stops at its first string or bytes: decoding reports that
/// their length is not known, if the values in front of them are read back
/// as they were written.
pub proof fn lemma_items_refuse_text(items: Seq<ValueLayout>, at: int, rest: Seq<u8>)
    requires
        0 <= at < items.len(),
        items[at] is String || items[at] is Binary,
        items_decode(items.take(at)),
    ensures
        spec_deser_items(item_parts(items).flatten() + rest, items.len()) == Err::<
            (Seq<ValueLayout>, nat),
            StoreError,
        >(StoreError::ValueError(ValueSerError::UnknownLength)),
    decreases at,
{
    let parts = item_parts(items);
    let later = items.drop_first();
    let part = spec_ser_value(items[0]);
    assert(parts.drop_first() =~= item_parts(later));
    let behind = parts.drop_first().flatten();
    let all = parts.flatten() + rest;
    assert(all =~= part + (behind + rest));
    if at == 0 {
        assert(all[0] == part[0]);
    } else {
        assert(items.take(at)[0] == items[0]);
        assert(value_decodes(items[0]) && !(items[0] is String) && !(items[0] is Binary));
        assert(value_decodes_at(items[0], behind + rest));
        lemma_item_round_trip(items[0], behind + rest);
        lemma_tail_concat(part, behind + rest);
        assert(items_decode(later.take(at - 1))) by {
            assert forall|i: int| 0 <= i < at - 1 implies value_decodes(
                #[trigger] later.take(at - 1)[i],
            ) && !(later.take(at - 1)[i] is String) && !(later.take(at - 1)[i] is Binary) by {
                assert(later.take(at - 1)[i] == items.take(at)[i + 1]);
                assert(value_decodes(items.take(at)[i + 1]));
            }
        }
        lemma_items_refuse_text(later, at - 1, rest);
    }
}

/// A character is read back as it was written.
pub proof fn lemma_ch_round_trip(c: char, rest: Seq<u8>)
    ensures
        value_decodes_at(ValueLayout::Ch(c), rest),
{
    reveal(spec_deser_ch);
    let l = ValueLayout::Ch(c);
    let code = spec_ser_len(c as nat);
    let all = spec_ser_value(l) + rest;
    assert(all[0] == 0u8);
    assert(tail(all, 1) =~= code + rest);
    lemma_deser_ser(
        Integer { signed_state: SignedState::Positive, magnitude: (c as nat) as u128 },
        rest,
    );
    char_is_scalar(c);
    char_u32_cast(c, c as u32);
    assert(spec_deser_ch(code + rest) == Ok::<(ValueLayout, nat), ValueSerError>(
        (l, code.len()),
    ));
}

/// A string is read back as it was written.
pub proof fn lemma_string_round_trip(s: Seq<char>, rest: Seq<u8>)
    ensures
        value_decodes_at(ValueLayout::String(s), rest),
{
    reveal(spec_resolve);
    let l = ValueLayout::String(s);
    let bytes = spec_ser_value(l);
    let all = bytes + rest;
    assert(all[0] == 32u8);
    assert(all.subrange(1, bytes.len() as int) =~= encode_utf8(s));
    encode_utf8_valid_utf8(s);
    encode_utf8_decode_utf8(s);
    assert(spec_resolve(ValueTy::String, 32u8, encode_utf8(s)) == Ok::<
        ValueLayout,
        ValueSerError,
    >(l));
}

/// Bytes are read back as they were written.
pub proof fn lemma_binary_round_trip(b: Seq<u8>, rest: Seq<u8>)
    ensures
        value_decodes_at(ValueLayout::Binary(b), rest),
{
    reveal(spec_resolve);
    let l = ValueLayout::Binary(b);
    let bytes = spec_ser_value(l);
    let all = bytes + rest;
    assert(all[0] == 64u8);
    assert(all.subrange(1, bytes.len() as int) =~= b);
}

/// A boolean is read back as it was written.
pub proof fn lemma_bool_round_trip(b: bool, rest: Seq<u8>)
    ensures
        value_decodes_at(ValueLayout::Bool(b), rest),
{
    reveal(spec_resolve);
    let l = ValueLayout::Bool(b);
    let all = spec_ser_value(l) + rest;
    assert(all[0] == if b {
        97u8
    } else {
        96u8
    });
    assert(all.subrange(1, 1) =~= Seq::<u8>::empty());
}

/// A number is read back as it was written.
pub proof fn lemma_int_round_trip(i: Integer, rest: Seq<u8>)
    ensures
        value_decodes_at(ValueLayout::Int(i), rest),
{
    reveal(spec_deser_int);
    let l = ValueLayout::Int(i);
    let all = spec_ser_value(l) + rest;
    assert(all[0] == 128u8);
    assert(tail(all, 1) =~= i.spec_ser() + rest);
    lemma_deser_ser(i, rest);
}

/// A nested store is read back as it was written, if the store is.
pub proof fn lemma_nested_round_trip(o: StoreLayout, rest: Seq<u8>)
    requires
        spec_deser_store(spec_ser_store(o) + rest) == Ok::<(StoreLayout, nat), StoreError>(
            (o, spec_ser_store(o).len()),
        ),
    ensures
        value_decodes_at(ValueLayout::Store(o), rest),
{
    let l = ValueLayout::Store(o);
    let all = spec_ser_value(l) + rest;
    assert(all[0] == 160u8);
    assert(tail(all, 1) =~= spec_ser_store(o) + rest);
}

/// Decoding the bytes of a value gives the value back and stops right
/// behind them, whatever follows.
pub proof fn lemma_value_round_trip(l: ValueLayout, rest: Seq<u8>)
    requires
        sized_value(l),
        valid_value(l),
    ensures
        value_decodes_at(l, rest),
    decreases l, 0nat,
{
    match l {
        ValueLayout::Ch(c) => lemma_ch_round_trip(c, rest),
        ValueLayout::String(s) => lemma_string_round_trip(s, rest),
        ValueLayout::Binary(b) => lemma_binary_round_trip(b, rest),
        ValueLayout::Bool(b) => lemma_bool_round_trip(b, rest),
        ValueLayout::Int(i) => lemma_int_round_trip(i, rest),
        ValueLayout::Store(o) => {
            lemma_store_round_trip(o, rest);
            lemma_nested_round_trip(o, rest);
        },
    }
}

/// The header names its version, and what follows it follows it.
pub proof fn lemma_header_round_trip(v: Version, body: Seq<u8>)
    ensures
        spec_deser_header(header(v) + body) == Ok::<(Version, nat), StoreError>((v, 18)),
        header(v).len() == 18,
        tail(header(v) + body, 18) == body,
{
    reveal(spec_deser_header);
    let all = header(v) + body;
    assert(header(v).len() == 18);
    assert(tail(all, 11).take(6) =~= v.spec_bytes());
    assert(Version::V0_1_0.spec_bytes()[3] != Version::V0_2_0.spec_bytes()[3]);
    assert(tail(all, 18) =~= body);
}

/// The label and the entry count of a keyed store are read back as they
/// were written.
pub proof fn lemma_dict_head_round_trip(count: nat, rest: Seq<u8>)
    requires
        count <= usize::MAX,
    ensures
        spec_deser_dict_head(dict_head(count) + rest) == Ok::<(nat, nat), StoreError>(
            (count, dict_head(count).len()),
        ),
        tail(dict_head(count) + rest, dict_head(count).len()) == rest,
{
    reveal(spec_deser_dict_head);
    let code = spec_ser_len(count);
    let all = dict_head(count) + rest;
    assert(tail(all, 5) =~= code + (seq![0u8] + rest));
    lemma_len_round_trip(count, seq![0u8] + rest);
    lemma_tail_concat(code, seq![0u8] + rest);
    lemma_tail_concat(dict_head(count), rest);
}

/// What follows the header of a keyed store is read back as it was
/// written, if each value is.
pub proof fn lemma_dict_round_trip(entries: Seq<EntryLayout>, rest: Seq<u8>)
    requires
        entries.len() <= usize::MAX,
        reserved_ok(StoreLayout::Dict(entries)@),
        entries_decode(entries),
        lengths_fit(entry_keys(entries), entry_parts(entries)),
    ensures
        spec_deser_store(spec_ser_store(StoreLayout::Dict(entries)) + rest) == Ok::<
            (StoreLayout, nat),
            StoreError,
        >((StoreLayout::Dict(entries), spec_ser_store(StoreLayout::Dict(entries)).len())),
{
    reveal(dict_bytes);
    let keys = entry_keys(entries);
    let parts = entry_parts(entries);
    let head = dict_head(entries.len());
    let kb = key_records(keys, parts).flatten();
    let vb = parts.flatten();
    let all = spec_ser_store(StoreLayout::Dict(entries)) + rest;
    let body = head + (kb + (vb + rest));
    assert(all =~= header(Version::V0_1_0) + body);
    lemma_header_round_trip(Version::V0_1_0, body);
    lemma_dict_head_round_trip(entries.len(), kb + (vb + rest));
    lemma_keys_round_trip(keys, parts, vb + rest);
    lemma_tail_concat(kb, vb + rest);
    lemma_values_round_trip(entries, rest);
    assert(spec_deser_dict(body) == Ok::<(Seq<EntryLayout>, nat), StoreError>(
        (entries, head.len() + kb.len() + vb.len()),
    ));
}

/// An array is read back as it was written, if each value is and none is a
/// string or bytes.
pub proof fn lemma_array_round_trip(items: Seq<ValueLayout>, rest: Seq<u8>)
    requires
        items.len() <= usize::MAX,
        items_decode(items),
    ensures
        spec_deser_store(spec_ser_store(StoreLayout::Array(items)) + rest) == Ok::<
            (StoreLayout, nat),
            StoreError,
        >((StoreLayout::Array(items), spec_ser_store(StoreLayout::Array(items)).len())),
{
    reveal(array_bytes);
    let parts = item_parts(items);
    let count = spec_ser_len(items.len());
    let values = parts.flatten();
    let all = spec_ser_store(StoreLayout::Array(items)) + rest;
    let body = count + (values + rest);
    assert(all =~= header(Version::V0_2_0) + body);
    lemma_header_round_trip(Version::V0_2_0, body);
    lemma_len_round_trip(items.len(), values + rest);
    lemma_tail_concat(count, values + rest);
    lemma_items_round_trip(items, rest);
    assert(spec_deser_array(body) == Ok::<(Seq<ValueLayout>, nat), StoreError>(
        (items, count.len() + values.len()),
    ));
}

/// An array that holds a string or bytes is not read back: decoding
/// reports that their length is not known, if the values in front of them
/// are read back as they were written.
pub proof fn lemma_array_refuses_text(items: Seq<ValueLayout>, at: int, rest: Seq<u8>)
    requires
        items.len() <= usize::MAX,
        0 <= at < items.len(),
        items[at] is String || items[at] is Binary,
        items_decode(items.take(at)),
    ensures
        spec_deser_store(spec_ser_store(StoreLayout::Array(items)) + rest) == Err::<
            (StoreLayout, nat),
            StoreError,
        >(StoreError::ValueError(ValueSerError::UnknownLength)),
{
    reveal(array_bytes);
    let count = spec_ser_len(items.len());
    let values = item_parts(items).flatten();
    let all = spec_ser_store(StoreLayout::Array(items)) + rest;
    let body = count + (values + rest);
    assert(all =~= header(Version::V0_2_0) + body);
    lemma_header_round_trip(Version::V0_2_0, body);
    lemma_len_round_trip(items.len(), values + rest);
    lemma_tail_concat(count, values + rest);
    lemma_items_refuse_text(items, at, rest);
    assert(spec_deser_array(body) == Err::<(Seq<ValueLayout>, nat), StoreError>(
        StoreError::ValueError(ValueSerError::UnknownLength),
    ));
}

/// Decoding the bytes of a store gives the store back and stops right
/// behind them, whatever follows.
pub proof fn lemma_store_round_trip(o: StoreLayout, rest: Seq<u8>)
    requires
        sized_store(o),
        valid_store(o),
    ensures
        spec_deser_store(spec_ser_store(o) + rest) == Ok::<(StoreLayout, nat), StoreError>(
            (o, spec_ser_store(o).len()),
        ),
    decreases o, 1nat,
{
    match o {
        StoreLayout::Dict(entries) => {
            assert(entries_decode(entries)) by {
                assert forall|i: int| 0 <= i < entries.len() implies value_decodes(
                    #[trigger] entries[i].value,
                ) by {
                    assert(sized_value(entries[i].value));
                    assert(valid_value(entries[i].value));
                    assert forall|r: Seq<u8>| #[trigger]
                        value_decodes_at(entries[i].value, r) by {
                        lemma_value_round_trip(entries[i].value, r);
                    }
                }
            }
            let keys = entry_keys(entries);
            let parts = entry_parts(entries);
            assert(lengths_fit(keys, parts)) by {
                assert forall|i: int| 0 <= i < keys.len() implies encode_utf8(
                    #[trigger] keys[i],
                ).len() <= usize::MAX && parts[i].len() <= usize::MAX by {
                    assert(sized_value(entries[i].value));
                }
            }
            lemma_dict_round_trip(entries, rest);
        },
        StoreLayout::Array(items) => {
            assert(items_decode(items)) by {
                assert forall|i: int| 0 <= i < items.len() implies value_decodes(
                    #[trigger] items[i],
                ) && !(items[i] is String) && !(items[i] is Binary) by {
                    assert(sized_value(items[i]));
                    assert(valid_value(items[i]));
                    assert forall|r: Seq<u8>| #[trigger] value_decodes_at(items[i], r) by {
                        lemma_value_round_trip(items[i], r);
                    }
                }
            }
            lemma_array_round_trip(items, rest);
        },
    }
}

} // verus!
