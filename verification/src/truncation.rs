//! Decoding a truncated encoding reports missing bytes.
//!
//! Every length in the layout is announced before the bytes it counts, so a
//! decoder that runs out of input always knows that it did: it never reads a
//! cut-off encoding as some other value, and never blames anything but the
//! missing bytes. The proofs go through the layout piece by piece and use,
//! for the pieces in front of the cut, that they are read back intact.
use crate::format::{
    array_bytes, dict_bytes, dict_head, entry_keys, entry_parts, header, item_parts,
    key_record_bytes, key_records, sized_store, sized_value, spec_deser_ch,
    spec_deser_dict, spec_deser_dict_head, spec_deser_header, spec_deser_int, spec_deser_item,
    spec_deser_items,
    spec_deser_key, spec_deser_keys, spec_deser_len, spec_deser_store, spec_deser_value,
    spec_deser_values, spec_ser_len, spec_ser_store, spec_ser_value, tail,
    valid_store, valid_value, EntryLayout, StoreLayout, ValueLayout,
};
use crate::integer::{lemma_deser_truncated, Integer, IntegerSerError, SignedState};
use crate::round_trip::{
    entries_decode, items_decode, lemma_dict_head_round_trip, lemma_header_round_trip,
    lemma_item_round_trip, lemma_len_not_consulted,
    lemma_key_round_trip, lemma_keys_round_trip, lemma_len_round_trip, lemma_tail_concat, lemma_value_round_trip, lengths_fit, records_for, value_decodes,
    value_decodes_at,
};
use crate::store::StoreError;
use crate::values::ValueSerError;
use crate::version::{Version, VersionSerError};
use vstd::prelude::*;
use vstd::utf8::encode_utf8;

verus! {

/// Whether the error says that the input ended too early, at any depth.
pub open spec fn value_error_is_short(e: ValueSerError) -> bool
    decreases e,
{
    match e {
        ValueSerError::NotEnoughBytes => true,
        ValueSerError::IntegerSerFailure(IntegerSerError::NotEnoughBytes) => true,
        ValueSerError::Store(inner) => store_error_is_short(*inner),
        _ => false,
    }
}

/// Whether the error says that the input ended too early, at any depth.
pub open spec fn store_error_is_short(e: StoreError) -> bool
    decreases e,
{
    match e {
        StoreError::NotEnoughBytes => true,
        StoreError::VersionError(VersionSerError::NotEnoughBytes) => true,
        StoreError::IntegerError(IntegerSerError::NotEnoughBytes) => true,
        StoreError::ValueError(inner) => value_error_is_short(inner),
        _ => false,
    }
}

/// Whether the outcome is a failure that says the input ended too early.
pub open spec fn fails_short<T>(r: Result<T, StoreError>) -> bool {
    r matches Err(e) && store_error_is_short(e)
}

/// Whether decoding the first `k` bytes of `l` reports missing bytes.
pub open spec fn value_short_at(l: ValueLayout, k: int) -> bool {
    spec_deser_value(spec_ser_value(l).take(k), spec_ser_value(l).len()) matches Err(e)
        && value_error_is_short(e)
}

/// Whether decoding any proper prefix of the bytes of `l` reports missing
/// bytes.
pub open spec fn value_cuts_short(l: ValueLayout) -> bool {
    forall|k: int| 0 <= k < spec_ser_value(l).len() ==> #[trigger] value_short_at(l, k)
}

/// Whether each entry has a value of which the same holds.
pub open spec fn entries_cut_short(entries: Seq<EntryLayout>) -> bool {
    forall|i: int| 0 <= i < entries.len() ==> value_cuts_short(#[trigger] entries[i].value)
}

/// Whether each item is a value of which the same holds.
pub open spec fn items_cut_short(items: Seq<ValueLayout>) -> bool {
    forall|i: int| 0 <= i < items.len() ==> value_cuts_short(#[trigger] items[i])
}

/// A prefix of two runs put together is a prefix of the first, or the first
/// and a prefix of the second.
pub proof fn lemma_take_concat(a: Seq<u8>, b: Seq<u8>, k: int)
    requires
        0 <= k <= a.len() + b.len(),
    ensures
        k <= a.len() ==> (a + b).take(k) == a.take(k),
        k >= a.len() ==> (a + b).take(k) == a + b.take(k - a.len()),
{
    if k <= a.len() {
        assert((a + b).take(k) =~= a.take(k));
    }
    if k >= a.len() {
        assert((a + b).take(k) =~= a + b.take(k - a.len()));
    }
}

/// A cut-off length reports missing bytes.
pub proof fn lemma_len_short(n: nat, k: int)
    requires
        n <= usize::MAX,
        0 <= k < spec_ser_len(n).len(),
    ensures
        spec_deser_len(spec_ser_len(n).take(k)) == Err::<(nat, nat), IntegerSerError>(
            IntegerSerError::NotEnoughBytes,
        ),
{
    reveal(spec_deser_len);
    lemma_deser_truncated(
        Integer { signed_state: SignedState::Positive, magnitude: n as u128 },
        k,
    );
}

/// A cut-off key record reports missing bytes.
pub proof fn lemma_key_short(key: Seq<char>, value_len: nat, k: int)
    requires
        encode_utf8(key).len() <= usize::MAX,
        value_len <= usize::MAX,
        0 <= k < key_record_bytes(key, value_len).len(),
    ensures
        fails_short(spec_deser_key(key_record_bytes(key, value_len).take(k))),
{
    reveal(spec_deser_key);
    let kb = encode_utf8(key);
    let a = spec_ser_len(kb.len());
    let b = spec_ser_len(value_len);
    let all = key_record_bytes(key, value_len);
    assert(all =~= a + (b + kb));
    lemma_take_concat(a, b + kb, k);
    if k < a.len() {
        lemma_len_short(kb.len(), k);
    } else {
        let k1 = k - a.len();
        lemma_len_round_trip(kb.len(), (b + kb).take(k1));
        lemma_tail_concat(a, (b + kb).take(k1));
        lemma_take_concat(b, kb, k1);
        if k1 < b.len() {
            lemma_len_short(value_len, k1);
        } else {
            let k2 = k1 - b.len();
            lemma_len_round_trip(value_len, kb.take(k2));
            lemma_tail_concat(b, kb.take(k2));
        }
    }
}

/// A cut-off block of keys reports missing bytes.
pub proof fn lemma_keys_short(keys: Seq<Seq<char>>, parts: Seq<Seq<u8>>, k: int)
    requires
        lengths_fit(keys, parts),
        0 <= k < key_records(keys, parts).flatten().len(),
    ensures
        fails_short(spec_deser_keys(key_records(keys, parts).flatten().take(k), keys.len())),
    decreases keys.len(),
{
    let blocks = key_records(keys, parts);
    if keys.len() == 0 {
        assert(blocks.flatten().len() == 0);
    } else {
        let later_keys = keys.drop_first();
        let later_parts = parts.drop_first();
        let first = key_record_bytes(keys[0], parts[0].len());
        assert(encode_utf8(keys[0]).len() <= usize::MAX && parts[0].len() <= usize::MAX);
        assert(blocks.drop_first() =~= key_records(later_keys, later_parts));
        let behind = blocks.drop_first().flatten();
        assert(blocks.flatten() =~= first + behind);
        lemma_take_concat(first, behind, k);
        if k < first.len() {
            lemma_key_short(keys[0], parts[0].len(), k);
        } else {
            let k1 = k - first.len();
            lemma_key_round_trip(keys[0], parts[0].len(), behind.take(k1));
            lemma_tail_concat(first, behind.take(k1));
            assert(lengths_fit(later_keys, later_parts)) by {
                assert forall|i: int| 0 <= i < later_keys.len() implies encode_utf8(
                    #[trigger] later_keys[i],
                ).len() <= usize::MAX && later_parts[i].len() <= usize::MAX by {
                    assert(later_keys[i] == keys[i + 1]);
                    assert(later_parts[i] == parts[i + 1]);
                }
            }
            lemma_keys_short(later_keys, later_parts, k1);
        }
    }
}

/// A cut-off block of values reports missing bytes, if each cut-off value
/// does and each whole value is read back as it was written.
pub proof fn lemma_values_short(entries: Seq<EntryLayout>, k: int)
    requires
        entries_decode(entries),
        entries_cut_short(entries),
        0 <= k < entry_parts(entries).flatten().len(),
    ensures
        fails_short(
            spec_deser_values(
                entry_parts(entries).flatten().take(k),
                records_for(entry_keys(entries), entry_parts(entries)),
            ),
        ),
    decreases entries.len(),
{
    let parts = entry_parts(entries);
    let records = records_for(entry_keys(entries), parts);
    if entries.len() == 0 {
        assert(parts.flatten().len() == 0);
    } else {
        let later = entries.drop_first();
        let first = spec_ser_value(entries[0].value);
        assert(parts.drop_first() =~= entry_parts(later));
        let behind = parts.drop_first().flatten();
        assert(parts.flatten() =~= first + behind);
        lemma_take_concat(first, behind, k);
        if k < first.len() {
            assert(value_cuts_short(entries[0].value));
            assert(value_short_at(entries[0].value, k));
        } else {
            let k1 = k - first.len();
            assert(value_decodes(entries[0].value));
            assert(value_decodes_at(entries[0].value, behind.take(k1)));
            lemma_tail_concat(first, behind.take(k1));
            assert(records.drop_first() =~= records_for(entry_keys(later), entry_parts(later)));
            assert(entries_decode(later) && entries_cut_short(later)) by {
                assert forall|i: int| 0 <= i < later.len() implies value_decodes(
                    #[trigger] later[i].value,
                ) && value_cuts_short(later[i].value) by {
                    assert(later[i] == entries[i + 1]);
                    assert(value_decodes(entries[i + 1].value));
                    assert(value_cuts_short(entries[i + 1].value));
                }
            }
            lemma_values_short(later, k1);
        }
    }
}

/// A cut-off value that is no string and no bytes reports missing bytes in
/// an array, if it does so with its length announced.
pub proof fn lemma_item_short(l: ValueLayout, k: int)
    requires
        0 <= k < spec_ser_value(l).len(),
        value_short_at(l, k),
        !(l is String),
        !(l is Binary),
    ensures
        spec_deser_item(spec_ser_value(l).take(k)) matches Err(e) && value_error_is_short(e),
{
    let bytes = spec_ser_value(l);
    let cut = bytes.take(k);
    if k > 0 {
        assert(cut[0] == bytes[0]);
        match l {
            ValueLayout::Bool(_) => {},
            _ => {
                lemma_len_not_consulted(cut, bytes.len());
            },
        }
    }
}

/// A cut-off run of array values reports missing bytes, if each cut-off
/// value does, each whole value is read back as it was written, and none
/// is a string or bytes.
pub proof fn lemma_items_short(items: Seq<ValueLayout>, k: int)
    requires
        items_decode(items),
        items_cut_short(items),
        0 <= k < item_parts(items).flatten().len(),
    ensures
        fails_short(spec_deser_items(item_parts(items).flatten().take(k), items.len())),
    decreases items.len(),
{
    let parts = item_parts(items);
    if items.len() == 0 {
        assert(parts.flatten().len() == 0);
    } else {
        let later = items.drop_first();
        let part = spec_ser_value(items[0]);
        assert(parts.drop_first() =~= item_parts(later));
        let behind = parts.drop_first().flatten();
        assert(value_decodes(items[0]) && !(items[0] is String) && !(items[0] is Binary));
        assert(parts.flatten() =~= part + behind);
        lemma_take_concat(part, behind, k);
        if k < part.len() {
            assert(value_cuts_short(items[0]));
            assert(value_short_at(items[0], k));
            lemma_item_short(items[0], k);
        } else {
            let k1 = k - part.len();
            assert(value_decodes_at(items[0], behind.take(k1)));
            lemma_item_round_trip(items[0], behind.take(k1));
            lemma_tail_concat(part, behind.take(k1));
            assert(items_decode(later) && items_cut_short(later)) by {
                assert forall|i: int| 0 <= i < later.len() implies value_decodes(
                    #[trigger] later[i],
                ) && !(later[i] is String) && !(later[i] is Binary) && value_cuts_short(
                    later[i],
                ) by {
                    assert(later[i] == items[i + 1]);
                    assert(value_decodes(items[i + 1]));
                    assert(value_cuts_short(items[i + 1]));
                }
            }
            lemma_items_short(later, k1);
        }
    }
}

/// A cut-off character reports missing bytes.
pub proof fn lemma_ch_short(c: char, k: int)
    requires
        0 <= k < spec_ser_value(ValueLayout::Ch(c)).len(),
    ensures
        value_short_at(ValueLayout::Ch(c), k),
{
    reveal(spec_deser_ch);
    let code = spec_ser_len(c as nat);
    let cut = spec_ser_value(ValueLayout::Ch(c)).take(k);
    if k > 0 {
        assert(cut[0] == 0u8);
        assert(tail(cut, 1) =~= code.take(k - 1));
        lemma_deser_truncated(
            Integer { signed_state: SignedState::Positive, magnitude: (c as nat) as u128 },
            k - 1,
        );
    }
}

/// A cut-off string reports missing bytes.
pub proof fn lemma_string_short(s: Seq<char>, k: int)
    requires
        0 <= k < spec_ser_value(ValueLayout::String(s)).len(),
    ensures
        value_short_at(ValueLayout::String(s), k),
{
    let cut = spec_ser_value(ValueLayout::String(s)).take(k);
    if k > 0 {
        assert(cut[0] == 32u8);
    }
}

/// Cut-off bytes report missing bytes.
pub proof fn lemma_binary_short(b: Seq<u8>, k: int)
    requires
        0 <= k < spec_ser_value(ValueLayout::Binary(b)).len(),
    ensures
        value_short_at(ValueLayout::Binary(b), k),
{
    let cut = spec_ser_value(ValueLayout::Binary(b)).take(k);
    if k > 0 {
        assert(cut[0] == 64u8);
    }
}

/// A cut-off number reports missing bytes.
pub proof fn lemma_int_short(i: Integer, k: int)
    requires
        0 <= k < spec_ser_value(ValueLayout::Int(i)).len(),
    ensures
        value_short_at(ValueLayout::Int(i), k),
{
    reveal(spec_deser_int);
    let cut = spec_ser_value(ValueLayout::Int(i)).take(k);
    if k > 0 {
        assert(cut[0] == 128u8);
        assert(tail(cut, 1) =~= i.spec_ser().take(k - 1));
        lemma_deser_truncated(i, k - 1);
    }
}

/// A cut-off nested store reports missing bytes, if the store cut off one
/// byte earlier does.
pub proof fn lemma_nested_short(o: StoreLayout, k: int)
    requires
        0 <= k < spec_ser_value(ValueLayout::Store(o)).len(),
        k > 0 ==> fails_short(spec_deser_store(spec_ser_store(o).take(k - 1))),
    ensures
        value_short_at(ValueLayout::Store(o), k),
{
    let cut = spec_ser_value(ValueLayout::Store(o)).take(k);
    if k > 0 {
        assert(cut[0] == 160u8);
        assert(tail(cut, 1) =~= spec_ser_store(o).take(k - 1));
    }
}

/// A cut-off header reports missing bytes.
pub proof fn lemma_header_short(v: Version, body: Seq<u8>, k: int)
    requires
        0 <= k < 18,
    ensures
        fails_short(spec_deser_header((header(v) + body).take(k))),
{
    reveal(spec_deser_header);
    let cut = (header(v) + body).take(k);
    assert(header(v).len() == 18);
    if 11 <= k {
        assert(tail(cut, 11).len() == k - 11);
        if k == 17 {
            assert(tail(cut, 11).take(6) =~= v.spec_bytes());
        }
    }
}

/// A cut-off label and entry count report missing bytes.
pub proof fn lemma_dict_head_short(count: nat, k: int)
    requires
        count <= usize::MAX,
        0 <= k < dict_head(count).len(),
    ensures
        fails_short(spec_deser_dict_head(dict_head(count).take(k))),
{
    reveal(spec_deser_dict_head);
    let code = spec_ser_len(count);
    let cut = dict_head(count).take(k);
    if k >= 5 {
        if k < 5 + code.len() {
            assert(tail(cut, 5) =~= code.take(k - 5));
            lemma_len_short(count, k - 5);
        } else {
            assert(tail(cut, 5) =~= code + Seq::<u8>::empty());
            lemma_len_round_trip(count, Seq::<u8>::empty());
            lemma_tail_concat(code, Seq::<u8>::empty());
        }
    }
}

/// A cut-off keyed store reports missing bytes, if each cut-off value does
/// and each whole value is read back as it was written.
pub proof fn lemma_dict_body_short(entries: Seq<EntryLayout>, k: int)
    requires
        entries.len() <= usize::MAX,
        entries_decode(entries),
        entries_cut_short(entries),
        lengths_fit(entry_keys(entries), entry_parts(entries)),
        0 <= k < dict_head(entries.len()).len() + key_records(
            entry_keys(entries),
            entry_parts(entries),
        ).flatten().len() + entry_parts(entries).flatten().len(),
    ensures
        fails_short(
            spec_deser_dict(
                (dict_head(entries.len()) + (key_records(
                    entry_keys(entries),
                    entry_parts(entries),
                ).flatten() + entry_parts(entries).flatten())).take(k),
            ),
        ),
{
    let keys = entry_keys(entries);
    let parts = entry_parts(entries);
    let head = dict_head(entries.len());
    let kb = key_records(keys, parts).flatten();
    let vb = parts.flatten();
    let cut = (head + (kb + vb)).take(k);
    lemma_take_concat(head, kb + vb, k);
    if k < head.len() {
        lemma_dict_head_short(entries.len(), k);
    } else {
        let k1 = k - head.len();
        lemma_dict_head_round_trip(entries.len(), (kb + vb).take(k1));
        lemma_take_concat(kb, vb, k1);
        if k1 < kb.len() {
            lemma_keys_short(keys, parts, k1);
        } else {
            let k2 = k1 - kb.len();
            lemma_keys_round_trip(keys, parts, vb.take(k2));
            lemma_tail_concat(kb, vb.take(k2));
            lemma_values_short(entries, k2);
        }
    }
}

/// A cut-off keyed store reports missing bytes, if each cut-off value does
/// and each whole value is read back as it was written.
pub proof fn lemma_dict_short(entries: Seq<EntryLayout>, k: int)
    requires
        entries.len() <= usize::MAX,
        entries_decode(entries),
        entries_cut_short(entries),
        lengths_fit(entry_keys(entries), entry_parts(entries)),
        0 <= k < spec_ser_store(StoreLayout::Dict(entries)).len(),
    ensures
        fails_short(spec_deser_store(spec_ser_store(StoreLayout::Dict(entries)).take(k))),
{
    reveal(dict_bytes);
    let keys = entry_keys(entries);
    let parts = entry_parts(entries);
    let body = dict_head(entries.len()) + (key_records(keys, parts).flatten()
        + parts.flatten());
    let all = spec_ser_store(StoreLayout::Dict(entries));
    assert(all =~= header(Version::V0_1_0) + body);
    assert(header(Version::V0_1_0).len() == 18);
    lemma_take_concat(header(Version::V0_1_0), body, k);
    if k < 18 {
        lemma_header_short(Version::V0_1_0, body, k);
    } else {
        lemma_header_round_trip(Version::V0_1_0, body.take(k - 18));
        lemma_dict_body_short(entries, k - 18);
    }
}

/// A cut-off array reports missing bytes, if each cut-off value does, each
/// whole value is read back as it was written, and none is a string or
/// bytes.
pub proof fn lemma_array_short(items: Seq<ValueLayout>, k: int)
    requires
        items.len() <= usize::MAX,
        items_decode(items),
        items_cut_short(items),
        0 <= k < spec_ser_store(StoreLayout::Array(items)).len(),
    ensures
        fails_short(spec_deser_store(spec_ser_store(StoreLayout::Array(items)).take(k))),
{
    reveal(array_bytes);
    let count = spec_ser_len(items.len());
    let values = item_parts(items).flatten();
    let body = count + values;
    let all = spec_ser_store(StoreLayout::Array(items));
    assert(all =~= header(Version::V0_2_0) + body);
    assert(header(Version::V0_2_0).len() == 18);
    lemma_take_concat(header(Version::V0_2_0), body, k);
    if k < 18 {
        lemma_header_short(Version::V0_2_0, body, k);
    } else {
        let k1 = k - 18;
        lemma_header_round_trip(Version::V0_2_0, body.take(k1));
        lemma_take_concat(count, values, k1);
        if k1 < count.len() {
            lemma_len_short(items.len(), k1);
        } else {
            let k2 = k1 - count.len();
            lemma_len_round_trip(items.len(), values.take(k2));
            lemma_tail_concat(count, values.take(k2));
            lemma_items_short(items, k2);
        }
    }
}

/// Decoding any proper prefix of the bytes of a value reports missing
/// bytes.
pub proof fn lemma_value_short(l: ValueLayout, k: int)
    requires
        sized_value(l),
        valid_value(l),
        0 <= k < spec_ser_value(l).len(),
    ensures
        value_short_at(l, k),
    decreases l, 0nat,
{
    match l {
        ValueLayout::Ch(c) => lemma_ch_short(c, k),
        ValueLayout::String(s) => lemma_string_short(s, k),
        ValueLayout::Binary(b) => lemma_binary_short(b, k),
        ValueLayout::Bool(b) => {},
        ValueLayout::Int(i) => lemma_int_short(i, k),
        ValueLayout::Store(o) => {
            if k > 0 {
                lemma_store_short(o, k - 1);
            }
            lemma_nested_short(o, k);
        },
    }
}

/// Decoding any proper prefix of the bytes of a store reports missing
/// bytes.
pub proof fn lemma_store_short(o: StoreLayout, k: int)
    requires
        sized_store(o),
        valid_store(o),
        0 <= k < spec_ser_store(o).len(),
    ensures
        fails_short(spec_deser_store(spec_ser_store(o).take(k))),
    decreases o, 1nat,
{
    match o {
        StoreLayout::Dict(entries) => {
            assert(entries_decode(entries) && entries_cut_short(entries)) by {
                assert forall|i: int| 0 <= i < entries.len() implies value_decodes(
                    #[trigger] entries[i].value,
                ) && value_cuts_short(entries[i].value) by {
                    let l = entries[i].value;
                    assert(sized_value(l));
                    assert(valid_value(l));
                    assert forall|r: Seq<u8>| #[trigger] value_decodes_at(l, r) by {
                        lemma_value_round_trip(l, r);
                    }
                    assert forall|j: int| 0 <= j < spec_ser_value(l).len() implies #[trigger]
                        value_short_at(l, j) by {
                        lemma_value_short(l, j);
                    }
                }
            }
            let keys = entry_keys(entries);
            let parts = entry_parts(entries);
            assert(lengths_fit(keys, parts)) by {
                assert forall|i: int| 0 <= i < keys.len() implies encode_utf8(
                    #[trigger] keys[i],
                ).len() <= usize::MAX && parts[i].len() <= usize::MAX by {
                    assert(sized_value(entries[i].value));
                }
            }
            lemma_dict_short(entries, k);
        },
        StoreLayout::Array(items) => {
            assert(items_decode(items) && items_cut_short(items)) by {
                assert forall|i: int| 0 <= i < items.len() implies value_decodes(
                    #[trigger] items[i],
                ) && !(items[i] is String) && !(items[i] is Binary) && value_cuts_short(
                    items[i],
                ) by {
                    let l = items[i];
                    assert(sized_value(l));
                    assert(valid_value(l));
                    assert forall|r: Seq<u8>| #[trigger] value_decodes_at(l, r) by {
                        lemma_value_round_trip(l, r);
                    }
                    assert forall|j: int| 0 <= j < spec_ser_value(l).len() implies #[trigger]
                        value_short_at(l, j) by {
                        lemma_value_short(l, j);
                    }
                }
            }
            lemma_array_short(items, k);
        },
    }
}

} // verus!
