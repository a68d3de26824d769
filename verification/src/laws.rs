//! What holds of the library as a whole.
//!
//! Each statement here is proved from the specification functions that the
//! contracts of the encoders, the decoders and the store operations are
//! written in, so it holds of every run of the executable code.
use crate::format::{
    array_key, encodes_store, encodes_value, entry_pairs, lays_out_store, lays_out_value,
    lengths_known_store, lengths_known_value, reserved_ok, sized_value, valid_value,
    EntryLayout,
    spec_deser_store, spec_deser_value, spec_ser_store, spec_ser_value, wf_store, wf_value,
    StoreLayout, ValueLayout,
};
use crate::integer::{
    be_bytes, is_width, lemma_be_bytes_len, lemma_deser_rejects_padding, lemma_deser_ser,
    lemma_deser_truncated, lemma_pow256_values, pow256, spec_deser, spec_header, spec_width,
    Integer, IntegerSerError,
};
use crate::round_trip::{
    items_decode, lemma_array_refuses_text, lemma_bool_round_trip, lemma_store_round_trip,
    lemma_value_round_trip, value_decodes, value_decodes_at,
};
use crate::store_codec::lemma_map_of_distinct;
use crate::store::{reserved_items, spec_insert, spec_pushed, StoreView};
use crate::truncation::{
    fails_short, lemma_store_short, lemma_value_short, value_error_is_short,
};
use crate::values::{ValueSerError, ValueTy, ValueView};
use vstd::prelude::*;

verus! {

/// Round trip of a store: whatever bytes a store was encoded as, in
/// whatever order its entries were written, decoding them gives a store
/// with the same content and uses exactly those bytes, whatever follows
/// them. This holds of a store that respects the reserved key and has no
/// string or bytes directly in an array, where nothing says how long they
/// are.
pub proof fn law_store_round_trip(s: StoreView, b: Seq<u8>, rest: Seq<u8>)
    requires
        wf_store(s),
        lengths_known_store(s),
        encodes_store(s, b),
    ensures
        spec_deser_store(b + rest) matches Ok((o, n)) && o@ == s && n == b.len(),
{
    let o = choose|o: StoreLayout| lays_out_store(o, s) && b == spec_ser_store(o);
    lemma_store_round_trip(o, rest);
}

/// Round trip of a value: whatever bytes a value was encoded as, decoding
/// them with their length announced gives a value with the same content and
/// uses exactly those bytes, whatever follows them. This holds of a value
/// that respects the reserved key and has no string or bytes directly in an
/// array.
pub proof fn law_value_round_trip(v: ValueView, b: Seq<u8>, rest: Seq<u8>)
    requires
        wf_value(v),
        lengths_known_value(v),
        encodes_value(v, b),
    ensures
        spec_deser_value(b + rest, b.len()) matches Ok((l, n)) && l@ == v && n == b.len(),
{
    let l = choose|l: ValueLayout| lays_out_value(l, v) && b == spec_ser_value(l);
    lemma_value_round_trip(l, rest);
}

/// A string or bytes in an array: an array that holds a string or bytes is
/// encoded, but not read back. Decoding its bytes fails at the first of
/// them and reports that their length is not known, the values in front of
/// it being such as are read back.
pub proof fn law_text_in_an_array_is_refused(items: Seq<ValueLayout>, at: int, rest: Seq<u8>)
    requires
        items.len() <= usize::MAX,
        0 <= at < items.len(),
        items[at] is String || items[at] is Binary,
        forall|i: int|
            0 <= i < at ==> !(items[i] is String) && !(items[i] is Binary) && sized_value(
                #[trigger] items[i],
            ) && valid_value(items[i]),
    ensures
        spec_deser_store(spec_ser_store(StoreLayout::Array(items)) + rest) matches Err(
            crate::store::StoreError::ValueError(ValueSerError::UnknownLength),
        ),
{
    let front = items.take(at);
    assert(items_decode(front)) by {
        assert forall|i: int| 0 <= i < front.len() implies value_decodes(#[trigger] front[i])
            && !(front[i] is String) && !(front[i] is Binary) by {
            assert(front[i] == items[i]);
            assert(sized_value(items[i]));
            assert forall|r: Seq<u8>| #[trigger] value_decodes_at(front[i], r) by {
                lemma_value_round_trip(front[i], r);
            }
        }
    }
    lemma_array_refuses_text(items, at, rest);
}

/// The entry count of a keyed store: the layout that a keyed store is
/// written in has as many entries as the store has keys, each key once.
pub proof fn law_count_is_the_number_of_keys(
    entries: Seq<EntryLayout>,
    m: Map<Seq<char>, ValueView>,
)
    requires
        lays_out_store(StoreLayout::Dict(entries), StoreView::Dict(m)),
    ensures
        m.dom().finite(),
        entries.len() == m.dom().len(),
        forall|i: int| 0 <= i < entries.len() ==> m.dom().contains(#[trigger] entries[i].key),
{
    let pairs = entry_pairs(entries);
    assert forall|i: int, j: int| 0 <= i < j < pairs.len() implies pairs[i].0 != pairs[j].0 by {
        assert(entries[i].key != entries[j].key);
    }
    lemma_map_of_distinct(pairs);
    assert forall|i: int| 0 <= i < entries.len() implies m.dom().contains(
        #[trigger] entries[i].key,
    ) by {
        assert(pairs[i].0 == entries[i].key);
    }
}

/// Round trip of an integer: decoding the bytes of an integer gives the
/// integer back, sign of a zero included, and uses exactly those bytes.
pub proof fn law_integer_round_trip(i: Integer, rest: Seq<u8>)
    ensures
        spec_deser(i.spec_ser() + rest) == Ok::<(Integer, nat), IntegerSerError>(
            (i, i.spec_ser().len()),
        ),
{
    lemma_deser_ser(i, rest);
}

/// Canonical integers, encoding: an integer takes one header byte and the
/// narrowest of 1, 2, 4, 8 and 16 bytes that holds its magnitude. No
/// narrower permitted width holds it.
pub proof fn law_integer_width_is_minimal(i: Integer, w: nat)
    requires
        is_width(w),
    ensures
        i.spec_ser().len() == 1 + spec_width(i.magnitude as nat),
        is_width(spec_width(i.magnitude as nat)),
        i.magnitude < pow256(spec_width(i.magnitude as nat)),
        i.magnitude < pow256(w) <==> spec_width(i.magnitude as nat) <= w,
{
    reveal(Integer::spec_ser);
    lemma_pow256_values();
    lemma_be_bytes_len(i.magnitude as nat, spec_width(i.magnitude as nat));
}

/// Canonical integers, decoding: a magnitude that is written in a wider
/// permitted width than it needs is refused.
pub proof fn law_padded_integer_is_refused(i: Integer, w: nat, rest: Seq<u8>)
    requires
        is_width(w),
        w > spec_width(i.magnitude as nat),
    ensures
        spec_deser(seq![spec_header(i.signed_state, w)] + be_bytes(i.magnitude as nat, w) + rest)
            == Err::<(Integer, nat), IntegerSerError>(IntegerSerError::NonCanonical),
{
    lemma_deser_rejects_padding(i, w, rest);
}

/// The niche of a boolean: a boolean is one byte whose top three bits are
/// the tag of booleans; `true` sets the lowest bit, `false` leaves the low
/// five bits zero; and that byte decodes to the boolean again.
pub proof fn law_bool_niche(b: bool, rest: Seq<u8>)
    ensures
        spec_ser_value(ValueLayout::Bool(b)).len() == 1,
        spec_ser_value(ValueLayout::Bool(b))[0] / 32 == ValueTy::Bool.spec_id(),
        b ==> spec_ser_value(ValueLayout::Bool(b))[0] % 2 == 1,
        !b ==> spec_ser_value(ValueLayout::Bool(b))[0] % 32 == 0,
        spec_deser_value(spec_ser_value(ValueLayout::Bool(b)) + rest, 1) == Ok::<
            (ValueLayout, nat),
            ValueSerError,
        >((ValueLayout::Bool(b), 1)),
{
    lemma_bool_round_trip(b, rest);
    assert(value_decodes_at(ValueLayout::Bool(b), rest));
}

/// The reserved key after a push: pushing to a keyed store leaves an array
/// under the reserved key, which holds what it held before and, behind
/// that, what was pushed; every other key is as it was.
pub proof fn law_push_is_seen_under_the_reserved_key(m: Map<Seq<char>, ValueView>, v: ValueView)
    requires
        reserved_ok(StoreView::Dict(m)),
    ensures
        spec_insert(StoreView::Dict(m), array_key(), v) matches StoreView::Dict(after)
            && after.dom().contains(array_key()) && after[array_key()] == ValueView::Store(
            StoreView::Array(spec_pushed(reserved_items(m), v)),
        ) && reserved_ok(StoreView::Dict(after)) && forall|k: Seq<char>|
            k != array_key() ==> (after.dom().contains(k) <==> m.dom().contains(k)) && (
            m.dom().contains(k) ==> after[k] == m[k]),
{
}

/// The reserved key is respected by insertion: inserting a value that
/// respects it into a store that respects it gives a store that respects
/// it, under whatever key.
pub proof fn law_insert_keeps_the_reserved_key(s: StoreView, k: Seq<char>, v: ValueView)
    requires
        wf_store(s),
        wf_value(v),
    ensures
        wf_store(spec_insert(s, k, v)),
{
    match s {
        StoreView::Array(a) => {
            let after = a.push(v);
            assert forall|i: int| 0 <= i < after.len() implies wf_value(#[trigger] after[i]) by {
                if i < a.len() {
                    assert(wf_value(a[i]));
                }
            }
        },
        StoreView::Dict(m) => {
            if k == array_key() {
                let before = reserved_items(m);
                let items = spec_pushed(before, v);
                assert forall|i: int| 0 <= i < before.len() implies wf_value(
                    #[trigger] before[i],
                ) by {
                    assert(wf_value(m[array_key()]));
                }
                assert forall|i: int| 0 <= i < items.len() implies wf_value(
                    #[trigger] items[i],
                ) by {
                    if i < before.len() {
                        assert(wf_value(before[i]));
                    } else {
                        match v {
                            ValueView::Store(StoreView::Array(more)) => {
                                assert(wf_value(more[i - before.len()]));
                            },
                            _ => {},
                        }
                    }
                }
                let held = ValueView::Store(StoreView::Array(items));
                assert(wf_value(held));
                let after = m.insert(array_key(), held);
                assert forall|j: Seq<char>| after.dom().contains(j) implies wf_value(
                    #[trigger] after[j],
                ) by {
                    if j != array_key() {
                        assert(wf_value(m[j]));
                    }
                }
            } else {
                let after = m.insert(k, v);
                assert forall|j: Seq<char>| after.dom().contains(j) implies wf_value(
                    #[trigger] after[j],
                ) by {
                    if j != k {
                        assert(wf_value(m[j]));
                    }
                }
            }
        },
    }
}

/// The reserved key is respected by removal: taking a key out of a keyed
/// store that respects it gives a store that respects it.
pub proof fn law_remove_keeps_the_reserved_key(m: Map<Seq<char>, ValueView>, k: Seq<char>)
    requires
        wf_store(StoreView::Dict(m)),
    ensures
        wf_store(StoreView::Dict(m.remove(k))),
{
    let after = m.remove(k);
    assert forall|j: Seq<char>| after.dom().contains(j) implies wf_value(#[trigger] after[j]) by {
        assert(wf_value(m[j]));
    }
}

/// Truncation of an integer: decoding the bytes of an integer with any
/// number of bytes cut off its end reports that bytes are missing.
pub proof fn law_truncated_integer_reports_missing_bytes(i: Integer, k: int)
    requires
        0 <= k < i.spec_ser().len(),
    ensures
        spec_deser(i.spec_ser().take(k)) == Err::<(Integer, nat), IntegerSerError>(
            IntegerSerError::NotEnoughBytes,
        ),
{
    lemma_deser_truncated(i, k);
}

/// Truncation of a store: decoding the bytes of a store with any number of
/// bytes cut off its end fails, and the failure says, at whatever depth the
/// cut fell, that bytes are missing. This holds of a store that respects
/// the reserved key and has no string or bytes directly in an array.
pub proof fn law_truncated_store_reports_missing_bytes(s: StoreView, b: Seq<u8>, k: int)
    requires
        wf_store(s),
        lengths_known_store(s),
        encodes_store(s, b),
        0 <= k < b.len(),
    ensures
        fails_short(spec_deser_store(b.take(k))),
{
    let o = choose|o: StoreLayout| lays_out_store(o, s) && b == spec_ser_store(o);
    lemma_store_short(o, k);
}

/// Truncation of a value: decoding the bytes of a value with any number of
/// bytes cut off its end, under the length that the whole value has, fails,
/// and the failure says that bytes are missing.
pub proof fn law_truncated_value_reports_missing_bytes(v: ValueView, b: Seq<u8>, k: int)
    requires
        wf_value(v),
        lengths_known_value(v),
        encodes_value(v, b),
        0 <= k < b.len(),
    ensures
        spec_deser_value(b.take(k), b.len()) matches Err(e) && value_error_is_short(e),
{
    let l = choose|l: ValueLayout| lays_out_value(l, v) && b == spec_ser_value(l);
    lemma_value_short(l, k);
}

} // verus!
