//! Encoding and decoding of stores.
use crate::buf::extend;
use crate::cursor::Cursor;
use crate::format::{
    array_bytes, array_key, dict_bytes, dict_head, encodes_store, entry_keys, entry_pairs,
    entry_parts, header, item_parts, item_views, key_record_bytes, key_records,
    keys_distinct_store, keys_distinct_value, lays_out_store, lays_out_value,
    lengths_known_store, lengths_known_value, map_of, prefixed, sized_store, spec_deser_array,
    spec_deser_dict, spec_deser_dict_head, spec_deser_header, spec_deser_item,
    spec_deser_items, spec_deser_key,
    spec_deser_keys, spec_deser_len, spec_deser_store, spec_deser_values, spec_ser_len,
    spec_ser_store, spec_ser_value, tail, valid_store, wf_store, wf_value, EntryLayout,
    KeyRecord, StoreLayout, ValueLayout,
};
use crate::integer::{Integer, IntegerSerError};
use crate::kv::{kv_get, kv_insert, kv_keys, kv_new, kv_view, lists_keys, KvMap};
use crate::store::Version as Shape;
use crate::store::{lemma_array_view, Store, StoreError, StoreFailure, StoreView};
use crate::text::string_from_utf8;
use crate::values::{Value, ValueView};
use crate::version::Version;
use vstd::prelude::*;
use vstd::set_lib::lemma_subset_equality;
use vstd::slice::slice_to_vec;
use vstd::utf8::encode_utf8;

verus! {

/// What the block of keys says of one entry.
pub struct KeyEntry {
    pub key: String,
    pub value_len: usize,
}

impl View for KeyEntry {
    type V = KeyRecord;

    open spec fn view(&self) -> KeyRecord {
        KeyRecord { key: self.key@, value_len: self.value_len as nat }
    }
}

/// The records that a vector of entries stands for.
pub open spec fn records_view(entries: Seq<KeyEntry>) -> Seq<KeyRecord> {
    Seq::new(entries.len(), |j: int| entries[j]@)
}

/// Whether the map has finitely many keys and every value in it respects
/// the reserved key and has no string or bytes directly in an array.
pub open spec fn all_wf(m: Map<Seq<char>, ValueView>) -> bool {
    m.dom().finite() && forall|k: Seq<char>|
        m.dom().contains(k) ==> wf_value(#[trigger] m[k]) && lengths_known_value(m[k])
}

/// Whether the value is one that an array can be read back with: it is no
/// string and no bytes, respects the reserved key and has no string or
/// bytes directly in an array.
pub open spec fn item_wf(v: ValueView) -> bool {
    !(v is String) && !(v is Binary) && wf_value(v) && lengths_known_value(v)
}

/// The reserved key as a string.
pub fn array_key_string() -> (k: String)
    ensures
        k@ == array_key(),
{
    proof {
        reveal_strlit("Array");
        assert("Array"@ =~= array_key());
    }
    "Array".to_owned()
}

pub proof fn lemma_map_of_push(pairs: Seq<(Seq<char>, ValueView)>, k: Seq<char>, v: ValueView)
    ensures
        map_of(pairs.push((k, v))) == map_of(pairs).insert(k, v),
{
    assert(pairs.push((k, v)).drop_last() =~= pairs);
}

/// What a run of pairs with distinct keys comes to as a map: each key is
/// there with its own value, and nothing else is.
pub proof fn lemma_map_of_distinct(pairs: Seq<(Seq<char>, ValueView)>)
    requires
        forall|i: int, j: int| 0 <= i < j < pairs.len() ==> pairs[i].0 != pairs[j].0,
    ensures
        map_of(pairs).dom().finite(),
        map_of(pairs).dom().len() == pairs.len(),
        forall|i: int|
            0 <= i < pairs.len() ==> map_of(pairs).dom().contains(#[trigger] pairs[i].0)
                && map_of(pairs)[pairs[i].0] == pairs[i].1,
        forall|k: Seq<char>|
            map_of(pairs).dom().contains(k) ==> exists|i: int|
                0 <= i < pairs.len() && #[trigger] pairs[i].0 == k,
    decreases pairs.len(),
{
    if pairs.len() > 0 {
        let front = pairs.drop_last();
        let last = pairs.last();
        lemma_map_of_distinct(front);
        assert(!map_of(front).dom().contains(last.0)) by {
            if map_of(front).dom().contains(last.0) {
                let i = choose|i: int| 0 <= i < front.len() && #[trigger] front[i].0 == last.0;
                assert(pairs[i].0 == pairs[pairs.len() - 1].0);
            }
        }
        assert forall|i: int| 0 <= i < pairs.len() implies map_of(pairs).dom().contains(
            #[trigger] pairs[i].0,
        ) && map_of(pairs)[pairs[i].0] == pairs[i].1 by {
            if i < front.len() {
                assert(front[i] == pairs[i]);
                assert(pairs[i].0 != pairs[pairs.len() - 1].0);
            }
        }
        assert forall|k: Seq<char>| map_of(pairs).dom().contains(k) implies exists|i: int|
            0 <= i < pairs.len() && #[trigger] pairs[i].0 == k by {
            if k == last.0 {
                assert(pairs[pairs.len() - 1].0 == k);
            } else {
                let i = choose|i: int| 0 <= i < front.len() && #[trigger] front[i].0 == k;
                assert(pairs[i].0 == k);
            }
        }
    }
}

/// A run of pairs that names every key of `m` once, each with the value it
/// has in `m`, comes to `m`.
pub proof fn lemma_map_of_listing(pairs: Seq<(Seq<char>, ValueView)>, m: Map<Seq<char>, ValueView>)
    requires
        m.dom().finite(),
        m.dom().len() == pairs.len(),
        forall|i: int, j: int| 0 <= i < j < pairs.len() ==> pairs[i].0 != pairs[j].0,
        forall|i: int|
            0 <= i < pairs.len() ==> m.dom().contains(#[trigger] pairs[i].0) && m[pairs[i].0]
                == pairs[i].1,
    ensures
        map_of(pairs) == m,
{
    lemma_map_of_distinct(pairs);
    let km = map_of(pairs);
    assert(km.dom().subset_of(m.dom())) by {
        assert forall|k: Seq<char>| km.dom().contains(k) implies m.dom().contains(k) by {
            let i = choose|i: int| 0 <= i < pairs.len() && #[trigger] pairs[i].0 == k;
        }
    }
    lemma_subset_equality(km.dom(), m.dom());
    assert forall|k: Seq<char>| km.dom().contains(k) implies km[k] == m[k] by {
        let i = choose|i: int| 0 <= i < pairs.len() && #[trigger] pairs[i].0 == k;
    }
    assert(km =~= m);
}

/// Appends the eighteen bytes that open a store of the given version.
pub fn write_header(out: &mut Vec<u8>, version: Version)
    ensures
        final(out)@ == old(out)@ + header(version),
{
    out.push(68);
    out.push(65);
    out.push(68);
    out.push(68);
    out.push(89);
    out.push(83);
    out.push(84);
    out.push(79);
    out.push(82);
    out.push(69);
    out.push(0);
    let tag = version.to_bytes();
    out.push(tag[0]);
    out.push(tag[1]);
    out.push(tag[2]);
    out.push(tag[3]);
    out.push(tag[4]);
    out.push(tag[5]);
    out.push(0);
    assert(out@ =~= old(out)@ + header(version));
}

/// Appends the encoding of a length or a count.
pub fn write_len(out: &mut Vec<u8>, n: usize)
    ensures
        final(out)@ == old(out)@ + spec_ser_len(n as nat),
{
    let code = Integer::usize(n).ser();
    extend(out, code.as_slice());
}

/// Reads a length or a count: an integer that must fit `usize`.
pub fn read_len(bytes: &mut Cursor) -> (r: Result<usize, IntegerSerError>)
    ensures
        final(bytes).bytes() == old(bytes).bytes(),
        final(bytes).pos() >= old(bytes).pos(),
        match spec_deser_len(old(bytes)@) {
            Ok((v, n)) => r matches Ok(x) && x == v && final(bytes)@ == tail(old(bytes)@, n)
                && final(bytes).pos() == old(bytes).pos() + n,
            Err(e) => r matches Err(x) && x == e,
        },
{
    reveal(spec_deser_len);
    let number = match Integer::deser(bytes) {
        Ok(number) => number,
        Err(e) => {
            return Err(e);
        },
    };
    proof {
        bytes.lemma_pos_in_bounds();
        old(bytes).lemma_pos_in_bounds();
    }
    number.to_usize()
}

/// Reads one record of the block of keys: the length of the key, the length
/// of the value, the key.
pub fn deser_key(bytes: &mut Cursor) -> (r: Result<KeyEntry, StoreError>)
    ensures
        final(bytes).bytes() == old(bytes).bytes(),
        final(bytes).pos() >= old(bytes).pos(),
        match spec_deser_key(old(bytes)@) {
            Ok((record, n)) => r matches Ok(x) && x@ == record && final(bytes)@ == tail(
                old(bytes)@,
                n,
            ) && final(bytes).pos() == old(bytes).pos() + n,
            Err(e) => r matches Err(x) && x == e,
        },
{
    reveal(spec_deser_key);
    let ghost b = bytes@;
    let key_len = match read_len(bytes) {
        Ok(n) => n,
        Err(e) => {
            return Err(StoreError::IntegerError(e));
        },
    };
    let value_len = match read_len(bytes) {
        Ok(n) => n,
        Err(e) => {
            return Err(StoreError::IntegerError(e));
        },
    };
    let ghost b2 = bytes@;
    let raw = match bytes.read(key_len) {
        Some(raw) => raw,
        None => {
            return Err(StoreError::NotEnoughBytes);
        },
    };
    match string_from_utf8(slice_to_vec(raw)) {
        Ok(key) => {
            proof {
                bytes.lemma_pos_in_bounds();
                old(bytes).lemma_pos_in_bounds();
                let n1 = spec_deser_len(b)->Ok_0.1;
                let n2 = spec_deser_len(tail(b, n1))->Ok_0.1;
                assert(b2.skip(key_len as int) =~= tail(b, n1 + n2 + key_len as nat));
            }
            Ok(KeyEntry { key, value_len })
        },
        Err(e) => Err(StoreError::StringEncoding(e)),
    }
}

/// Reads the block of keys: `count` records.
pub fn deser_keys(bytes: &mut Cursor, count: usize) -> (r: Result<Vec<KeyEntry>, StoreError>)
    ensures
        final(bytes).bytes() == old(bytes).bytes(),
        final(bytes).pos() >= old(bytes).pos(),
        match spec_deser_keys(old(bytes)@, count as nat) {
            Ok((records, n)) => r matches Ok(x) && records_view(x@) == records && final(bytes)@
                == tail(old(bytes)@, n) && final(bytes).pos() == old(bytes).pos() + n,
            Err(e) => r matches Err(x) && x == e,
        },
{
    let ghost b = bytes@;
    let ghost mut used: nat = 0;
    let mut records: Vec<KeyEntry> = Vec::new();
    let mut i: usize = 0;
    proof {
        old(bytes).lemma_pos_in_bounds();
        assert(Seq::<KeyRecord>::empty() =~= records_view(records@));
        match spec_deser_keys(b, count as nat) {
            Ok((rs, m)) => {
                assert(Seq::<KeyRecord>::empty() + rs =~= rs);
            },
            Err(_) => {},
        }
    }
    while i < count
        invariant
            i <= count,
            b == old(bytes)@,
            bytes.bytes() == old(bytes).bytes(),
            bytes.pos() == old(bytes).pos() + used,
            bytes@ == tail(b, used),
            used <= b.len(),
            b.len() == bytes.bytes().len() - old(bytes).pos(),
            records@.len() == i,
            spec_deser_keys(b, count as nat) == prefixed(
                records_view(records@),
                used,
                spec_deser_keys(bytes@, (count - i) as nat),
            ),
        decreases count - i,
    {
        let ghost cur = bytes@;
        let ghost before = records_view(records@);
        let entry = match deser_key(bytes) {
            Ok(entry) => entry,
            Err(e) => {
                return Err(e);
            },
        };
        records.push(entry);
        proof {
            bytes.lemma_pos_in_bounds();
            let n = spec_deser_key(cur)->Ok_0.1;
            let record = spec_deser_key(cur)->Ok_0.0;
            assert(tail(cur, n) =~= tail(b, used + n));
            assert(records_view(records@) =~= before.push(record));
            match spec_deser_keys(tail(cur, n), (count - i - 1) as nat) {
                Ok((rs, m)) => {
                    assert(before + (seq![record] + rs) =~= before.push(record) + rs);
                },
                Err(_) => {},
            }
            used = used + n;
        }
        i = i + 1;
    }
    proof {
        assert(records_view(records@) + Seq::<KeyRecord>::empty() =~= records_view(records@));
    }
    Ok(records)
}

/// Reads the block of values, one value for each record, and enters each
/// under its key; of two entries with one key the later one stays.
pub fn deser_values(bytes: &mut Cursor, records: &Vec<KeyEntry>) -> (r: Result<KvMap, StoreError>)
    ensures
        final(bytes).bytes() == old(bytes).bytes(),
        final(bytes).pos() >= old(bytes).pos(),
        r matches Ok(x) ==> all_wf(kv_view(x)),
        match spec_deser_values(old(bytes)@, records_view(records@)) {
            Ok((entries, n)) => r matches Ok(x) && kv_view(x) == map_of(entry_pairs(entries))
                && final(bytes)@ == tail(old(bytes)@, n) && final(bytes).pos() == old(
                bytes,
            ).pos() + n,
            Err(e) => r matches Err(x) && x == e,
        },
    decreases old(bytes)@.len(), 2nat,
{
    let ghost b = bytes@;
    let ghost recs = records_view(records@);
    let ghost mut used: nat = 0;
    let ghost mut acc: Seq<EntryLayout> = Seq::empty();
    let mut kvs = kv_new();
    let mut i: usize = 0;
    proof {
        old(bytes).lemma_pos_in_bounds();
        assert(recs.skip(0) =~= recs);
        assert(kv_view(kvs) =~= map_of(entry_pairs(acc)));
        match spec_deser_values(b, recs) {
            Ok((es, m)) => {
                assert(Seq::<EntryLayout>::empty() + es =~= es);
            },
            Err(_) => {},
        }
    }
    while i < records.len()
        invariant
            i <= records.len(),
            b == old(bytes)@,
            recs == records_view(records@),
            bytes.bytes() == old(bytes).bytes(),
            bytes.pos() == old(bytes).pos() + used,
            bytes@ == tail(b, used),
            used <= b.len(),
            b.len() == bytes.bytes().len() - old(bytes).pos(),
            all_wf(kv_view(kvs)),
            kv_view(kvs) == map_of(entry_pairs(acc)),
            spec_deser_values(b, recs) == prefixed(
                acc,
                used,
                spec_deser_values(bytes@, recs.skip(i as int)),
            ),
        decreases records.len() - i,
    {
        let ghost cur = bytes@;
        let ghost rest = recs.skip(i as int);
        proof {
            bytes.lemma_pos_in_bounds();
            assert(rest[0] == records@[i as int]@);
            assert(rest.drop_first() =~= recs.skip(i + 1));
        }
        let value = match Value::deserialise(bytes, records[i].value_len) {
            Ok(value) => value,
            Err(e) => {
                return Err(StoreError::ValueError(e));
            },
        };
        let ghost before = kv_view(kvs);
        let displaced = kv_insert(&mut kvs, records[i].key.clone(), value);
        proof {
            assert(all_wf(kv_view(kvs))) by {
                let after = kv_view(kvs);
                assert forall|k: Seq<char>| after.dom().contains(k) implies wf_value(
                    #[trigger] after[k],
                ) && lengths_known_value(after[k]) by {
                    if k != records@[i as int].key@ {
                        assert(wf_value(before[k]));
                    }
                }
            }
            bytes.lemma_pos_in_bounds();
            let n = spec_deser_value_used(cur, rest[0].value_len);
            let l = spec_deser_value_layout(cur, rest[0].value_len);
            let entry = EntryLayout { key: rest[0].key, value: l };
            assert(tail(cur, n) =~= tail(b, used + n));
            assert(entry_pairs(acc.push(entry)) =~= entry_pairs(acc).push((entry.key, l@)));
            lemma_map_of_push(entry_pairs(acc), entry.key, l@);
            match spec_deser_values(tail(cur, n), rest.drop_first()) {
                Ok((es, m)) => {
                    assert(acc + (seq![entry] + es) =~= acc.push(entry) + es);
                },
                Err(_) => {},
            }
            acc = acc.push(entry);
            used = used + n;
        }
        i = i + 1;
    }
    proof {
        assert(recs.skip(i as int) =~= Seq::<KeyRecord>::empty());
        assert(acc + Seq::<EntryLayout>::empty() =~= acc);
    }
    Ok(kvs)
}

/// How many bytes decoding a value takes, when it succeeds.
pub open spec fn spec_deser_value_used(b: Seq<u8>, len: nat) -> nat {
    crate::format::spec_deser_value(b, len)->Ok_0.1
}

/// The value that decoding yields, when it succeeds.
pub open spec fn spec_deser_value_layout(b: Seq<u8>, len: nat) -> ValueLayout {
    crate::format::spec_deser_value(b, len)->Ok_0.0
}

/// Reads the values of an array, which stand back to back with no length
/// announced for any of them.
pub fn deser_items(bytes: &mut Cursor, count: usize) -> (r: Result<Vec<Value>, StoreError>)
    ensures
        final(bytes).bytes() == old(bytes).bytes(),
        final(bytes).pos() >= old(bytes).pos(),
        r matches Ok(x) ==> forall|j: int| 0 <= j < x@.len() ==> item_wf(#[trigger] x@[j]@),
        match spec_deser_items(old(bytes)@, count as nat) {
            Ok((items, n)) => r matches Ok(x) && (Store::Array { arr: x })@ == StoreView::Array(
                item_views(items),
            ) && final(bytes)@ == tail(old(bytes)@, n) && final(bytes).pos() == old(bytes).pos()
                + n,
            Err(e) => r matches Err(x) && x == e,
        },
    decreases old(bytes)@.len(), 2nat,
{
    let ghost b = bytes@;
    let ghost mut used: nat = 0;
    let ghost mut acc: Seq<ValueLayout> = Seq::empty();
    let mut items: Vec<Value> = Vec::new();
    let mut i: usize = 0;
    proof {
        old(bytes).lemma_pos_in_bounds();
        match spec_deser_items(b, count as nat) {
            Ok((es, m)) => {
                assert(Seq::<ValueLayout>::empty() + es =~= es);
            },
            Err(_) => {},
        }
    }
    while i < count
        invariant
            i <= count,
            b == old(bytes)@,
            bytes.bytes() == old(bytes).bytes(),
            bytes.pos() == old(bytes).pos() + used,
            bytes@ == tail(b, used),
            used <= b.len(),
            b.len() == bytes.bytes().len() - old(bytes).pos(),
            items@.len() == i,
            acc.len() == i,
            forall|j: int| 0 <= j < i ==> (#[trigger] items@[j])@ == acc[j]@,
            forall|j: int| 0 <= j < i ==> item_wf(#[trigger] items@[j]@),
            spec_deser_items(b, count as nat) == prefixed(
                acc,
                used,
                spec_deser_items(bytes@, (count - i) as nat),
            ),
        decreases count - i,
    {
        let ghost cur = bytes@;
        proof {
            bytes.lemma_pos_in_bounds();
        }
        let value = match Value::deser(bytes) {
            Ok(value) => value,
            Err(e) => {
                return Err(StoreError::ValueError(e));
            },
        };
        items.push(value);
        proof {
            bytes.lemma_pos_in_bounds();
            let n = spec_deser_item(cur)->Ok_0.1;
            let l = spec_deser_item(cur)->Ok_0.0;
            assert(tail(cur, n) =~= tail(b, used + n));
            match spec_deser_items(tail(cur, n), (count - i - 1) as nat) {
                Ok((es, m)) => {
                    assert(acc + (seq![l] + es) =~= acc.push(l) + es);
                },
                Err(_) => {},
            }
            acc = acc.push(l);
            used = used + n;
        }
        i = i + 1;
    }
    proof {
        assert(acc + Seq::<ValueLayout>::empty() =~= acc);
        assert((Store::Array { arr: items })@->Array_0 =~= item_views(acc));
    }
    Ok(items)
}

impl Store {
    /// Encodes the store.
    ///
    /// A keyed store is written as its header, the label `SIZE`, the number
    /// of entries between two zero bytes, then for every entry the length of
    /// its key, the length of its value and the key, and at last the values
    /// in the same order. The order is that in which the map hands out its
    /// keys. An array is written as its header, the number of values, and
    /// the values back to back.
    ///
    /// Encoding never fails.
    pub fn ser(&self) -> (r: Result<Vec<u8>, StoreError>)
        ensures
            r matches Ok(bytes) && encodes_store(self@, bytes@),
        decreases self@, 1nat,
    {
        match self {
            Store::Dict { kvs } => Store::ser_dict(kvs),
            Store::Array { arr } => Store::ser_array(arr),
        }
    }

    /// Encodes a keyed store.
    fn ser_dict(kvs: &KvMap) -> (r: Result<Vec<u8>, StoreError>)
        ensures
            r matches Ok(bytes) && encodes_store(StoreView::Dict(kv_view(*kvs)), bytes@),
        decreases StoreView::Dict(kv_view(*kvs)), 0nat,
    {
        let ghost m = kv_view(*kvs);
        let mut res: Vec<u8> = Vec::new();
        write_header(&mut res, Shape::Dict.tag());
        res.push(83);
        res.push(73);
        res.push(90);
        res.push(69);
        res.push(0);
        let keys = kv_keys(kvs);
        write_len(&mut res, keys.len());
        res.push(0);
        let ghost head = res@;
        assert(head =~= header(Version::V0_1_0) + dict_head(keys@.len() as nat));
        let mut key_block: Vec<u8> = Vec::new();
        let mut value_block: Vec<u8> = Vec::new();
        let ghost mut entries: Seq<EntryLayout> = Seq::empty();
        let mut i: usize = 0;
        assert(key_records(entry_keys(entries), entry_parts(entries)) =~= Seq::<
            Seq<u8>,
        >::empty());
        assert(entry_parts(entries) =~= Seq::<Seq<u8>>::empty());
        while i < keys.len()
            invariant
                i <= keys.len(),
                m == kv_view(*kvs),
                lists_keys(keys@, m),
                entries.len() == i,
                forall|j: int|
                    0 <= j < i ==> (#[trigger] entries[j]).key == keys@[j]@ && lays_out_value(
                        entries[j].value,
                        m[keys@[j]@],
                    ) && encode_utf8(entries[j].key).len() <= usize::MAX,
                key_block@ == key_records(entry_keys(entries), entry_parts(entries)).flatten(),
                value_block@ == entry_parts(entries).flatten(),
            decreases keys.len() - i,
        {
            let key = &keys[i];
            let value = match kv_get(kvs, key) {
                Some(value) => value,
                None => {
                    return Err(StoreError::CouldntFindKey);
                },
            };
            proof {
                let s = StoreView::Dict(m);
                assert(decreases_to!(s => s->Dict_0));
                assert(decreases_to!(m => m[key@]));
            }
            let part = match value.serialise() {
                Ok(part) => part,
                Err(e) => {
                    return Err(StoreError::ValueError(e));
                },
            };
            let key_bytes = key.as_str().as_bytes();
            write_len(&mut key_block, key_bytes.len());
            write_len(&mut key_block, part.len());
            extend(&mut key_block, key_bytes);
            extend(&mut value_block, part.as_slice());
            proof {
                let l = choose|l: ValueLayout|
                    lays_out_value(l, value@) && part@ == spec_ser_value(l);
                let entry = EntryLayout { key: key@, value: l };
                let next = entries.push(entry);
                let parts = entry_parts(entries);
                let records = key_records(entry_keys(entries), parts);
                assert(entry_parts(next) =~= parts.push(part@));
                assert(key_records(entry_keys(next), entry_parts(next)) =~= records.push(
                    key_record_bytes(key@, part@.len()),
                ));
                records.lemma_flatten_push(key_record_bytes(key@, part@.len()));
                parts.lemma_flatten_push(part@);
                assert(key_block@ =~= records.flatten() + key_record_bytes(key@, part@.len()));
                entries = next;
            }
            i = i + 1;
        }
        extend(&mut res, key_block.as_slice());
        extend(&mut res, value_block.as_slice());
        proof {
            let o = StoreLayout::Dict(entries);
            let s = StoreView::Dict(m);
            let pairs = entry_pairs(entries);
            assert forall|a: int, b: int| 0 <= a < b < pairs.len() implies pairs[a].0
                != pairs[b].0 by {
                assert(entries[a].key == keys@[a]@);
                assert(entries[b].key == keys@[b]@);
            }
            assert forall|a: int| 0 <= a < pairs.len() implies m.dom().contains(
                #[trigger] pairs[a].0,
            ) && m[pairs[a].0] == pairs[a].1 by {
                assert(entries[a].key == keys@[a]@);
                assert(m.dom().contains(keys@[a]@));
            }
            lemma_map_of_listing(pairs, m);
            assert(o@ == s);
            reveal(dict_bytes);
            assert(entry_keys(entries).len() == keys@.len());
            assert(res@ =~= spec_ser_store(o));
            assert(sized_store(o));
            assert(keys_distinct_store(o)) by {
                assert forall|a: int, b: int| 0 <= a < b < entries.len() implies (
                #[trigger] entries[a]).key != (#[trigger] entries[b]).key by {
                    assert(entries[a].key == keys@[a]@);
                    assert(entries[b].key == keys@[b]@);
                }
                assert forall|a: int| 0 <= a < entries.len() implies keys_distinct_value(
                    #[trigger] entries[a].value,
                ) by {
                    assert(entries[a].key == keys@[a]@);
                }
            }
            if wf_store(s) && lengths_known_store(s) {
                assert forall|a: int| 0 <= a < entries.len() implies crate::format::valid_value(
                    #[trigger] entries[a].value,
                ) by {
                    assert(entries[a].key == keys@[a]@);
                    assert(m.dom().contains(keys@[a]@));
                    assert(wf_value(m[keys@[a]@]));
                    assert(lengths_known_value(m[keys@[a]@]));
                }
                assert(valid_store(o));
            }
            assert(lays_out_store(o, s));
        }
        Ok(res)
    }

    /// Encodes an array.
    fn ser_array(arr: &Vec<Value>) -> (r: Result<Vec<u8>, StoreError>)
        ensures
            r matches Ok(bytes) && encodes_store((Store::Array { arr: *arr })@, bytes@),
        decreases (Store::Array { arr: *arr })@, 0nat,
    {
        let ghost s = (Store::Array { arr: *arr })@;
        let mut res: Vec<u8> = Vec::new();
        write_header(&mut res, Shape::Array.tag());
        write_len(&mut res, arr.len());
        let ghost head = res@;
        let ghost mut items: Seq<ValueLayout> = Seq::empty();
        let mut i: usize = 0;
        assert(item_parts(items) =~= Seq::<Seq<u8>>::empty());
        assert(res@ =~= head + item_parts(items).flatten());
        while i < arr.len()
            invariant
                i <= arr.len(),
                s == (Store::Array { arr: *arr })@,
                head == header(Version::V0_2_0) + spec_ser_len(arr@.len()),
                items.len() == i,
                forall|j: int|
                    0 <= j < i ==> lays_out_value(#[trigger] items[j], s->Array_0[j]),
                res@ == head + item_parts(items).flatten(),
            decreases arr.len() - i,
        {
            proof {
                let a = s->Array_0;
                assert(a[i as int] == arr@[i as int]@);
                assert(decreases_to!(s => a));
                assert(decreases_to!(a => a[i as int]));
            }
            let part = match arr[i].serialise() {
                Ok(part) => part,
                Err(e) => {
                    return Err(StoreError::ValueError(e));
                },
            };
            extend(&mut res, part.as_slice());
            proof {
                let l = choose|l: ValueLayout|
                    lays_out_value(l, arr@[i as int]@) && part@ == spec_ser_value(l);
                let next = items.push(l);
                let parts = item_parts(items);
                assert(item_parts(next) =~= parts.push(part@));
                parts.lemma_flatten_push(part@);
                assert(res@ =~= head + item_parts(next).flatten());
                items = next;
            }
            i = i + 1;
        }
        proof {
            let o = StoreLayout::Array(items);
            assert(item_views(items) =~= s->Array_0);
            assert(o@ == s);
            reveal(array_bytes);
            assert(item_parts(items).len() == arr@.len());
            assert(res@ =~= spec_ser_store(o));
            assert(sized_store(o));
            assert(keys_distinct_store(o));
            if wf_store(s) && lengths_known_store(s) {
                assert forall|a: int| 0 <= a < items.len() implies !(items[a] is String) && !(
                items[a] is Binary) && crate::format::valid_value(#[trigger] items[a]) by {
                    assert(wf_value(s->Array_0[a]));
                    assert(lengths_known_value(s->Array_0[a]));
                    assert(items[a]@ == s->Array_0[a]);
                }
                assert(valid_store(o));
            }
            assert(lays_out_store(o, s));
        }
        Ok(res)
    }

    /// Decodes a store from where the cursor stands.
    ///
    /// The title and the zero bytes between the fields are stepped over
    /// unread. The version tag decides the layout. A keyed store is read in
    /// two passes, first every key with the length of its value, then the
    /// values, and is refused if its reserved key holds anything but an
    /// array. An array is read value by value with no length announced for
    /// any of them, and is refused if it holds a string or bytes, which do
    /// not say where they end. Nothing is returned unless the whole store
    /// was read.
    pub fn deser(bytes: &mut Cursor) -> (r: Result<Store, StoreError>)
        ensures
            final(bytes).bytes() == old(bytes).bytes(),
            final(bytes).pos() >= old(bytes).pos(),
            r matches Ok(s) ==> s.wf() && lengths_known_store(s@),
            match spec_deser_store(old(bytes)@) {
                Ok((o, n)) => r matches Ok(s) && s@ == o@ && final(bytes)@ == old(bytes)@.skip(
                    n as int,
                ) && final(bytes).pos() == old(bytes).pos() + n,
                Err(e) => r matches Err(x) && x == e,
            },
        decreases old(bytes)@.len(), 4nat,
    {
        let ghost b = bytes@;
        proof {
            old(bytes).lemma_pos_in_bounds();
        }
        let version = match Store::deser_header(bytes) {
            Ok(version) => version,
            Err(e) => {
                return Err(e);
            },
        };
        proof {
            bytes.lemma_pos_in_bounds();
        }
        match version {
            Version::V0_1_0 => {
                let kvs = match Store::deser_dict(bytes) {
                    Ok(kvs) => kvs,
                    Err(e) => {
                        return Err(e);
                    },
                };
                proof {
                    bytes.lemma_pos_in_bounds();
                    let n = spec_deser_header(b)->Ok_0.1;
                    let m = spec_deser_dict(tail(b, n))->Ok_0.1;
                    assert(tail(tail(b, n), m) =~= b.skip(n as int + m as int));
                }
                Ok(Store::Dict { kvs })
            },
            Version::V0_2_0 => {
                let arr = match Store::deser_array(bytes) {
                    Ok(arr) => arr,
                    Err(e) => {
                        return Err(e);
                    },
                };
                proof {
                    bytes.lemma_pos_in_bounds();
                    let n = spec_deser_header(b)->Ok_0.1;
                    let m = spec_deser_array(tail(b, n))->Ok_0.1;
                    assert(tail(tail(b, n), m) =~= b.skip(n as int + m as int));
                    lemma_array_view(arr);
                }
                Ok(Store::Array { arr })
            },
        }
    }

    /// Decodes a store from the front of a buffer. What follows the store
    /// in the buffer is not looked at.
    ///
    /// Fails with [`StoreError::FileTooLong`] when the buffer is longer than
    /// a cursor can address, and otherwise as [`Store::deser`] does.
    pub fn from_bytes(bytes: &[u8]) -> (r: Result<Store, StoreFailure>)
        ensures
            r matches Ok(s) ==> s.wf() && lengths_known_store(s@),
            bytes@.len() > crate::cursor::MAX_LEN ==> r matches Err(StoreError::FileTooLong),
            bytes@.len() <= crate::cursor::MAX_LEN ==> match spec_deser_store(bytes@) {
                Ok((o, n)) => r matches Ok(s) && s@ == o@,
                Err(e) => r matches Err(x) && x == e,
            },
    {
        match Cursor::new(bytes) {
            Some(cursor) => {
                let mut cursor = cursor;
                Store::deser(&mut cursor)
            },
            None => Err(StoreError::FileTooLong),
        }
    }

    /// Steps over the title and reads the version tag.
    fn deser_header(bytes: &mut Cursor) -> (r: Result<Version, StoreError>)
        ensures
            final(bytes).bytes() == old(bytes).bytes(),
            final(bytes).pos() >= old(bytes).pos(),
            match spec_deser_header(old(bytes)@) {
                Ok((v, n)) => r matches Ok(x) && x == v && final(bytes)@ == tail(old(bytes)@, n)
                    && final(bytes).pos() == old(bytes).pos() + n && n > 0,
                Err(e) => r matches Err(x) && x == e,
            },
    {
        reveal(spec_deser_header);
        let ghost b = bytes@;
        proof {
            old(bytes).lemma_pos_in_bounds();
        }
        if !bytes.seek(10) {
            return Err(StoreError::NotEnoughBytes);
        }
        if !bytes.seek(1) {
            return Err(StoreError::NotEnoughBytes);
        }
        assert(bytes@ =~= tail(b, 11));
        let version = match Version::from_bytes(bytes) {
            Ok(version) => version,
            Err(e) => {
                return Err(StoreError::VersionError(e));
            },
        };
        if !bytes.seek(1) {
            return Err(StoreError::NotEnoughBytes);
        }
        assert(bytes@ =~= tail(b, 18));
        Ok(version)
    }

    /// Steps over the label `SIZE` and reads the entry count of a keyed
    /// store.
    fn deser_dict_head(bytes: &mut Cursor) -> (r: Result<usize, StoreError>)
        ensures
            final(bytes).bytes() == old(bytes).bytes(),
            final(bytes).pos() >= old(bytes).pos(),
            match spec_deser_dict_head(old(bytes)@) {
                Ok((count, n)) => r matches Ok(x) && x == count && final(bytes)@ == tail(
                    old(bytes)@,
                    n,
                ) && final(bytes).pos() == old(bytes).pos() + n && n > 0,
                Err(e) => r matches Err(x) && x == e,
            },
    {
        reveal(spec_deser_dict_head);
        let ghost b = bytes@;
        proof {
            old(bytes).lemma_pos_in_bounds();
        }
        if !bytes.seek(4) {
            return Err(StoreError::NotEnoughBytes);
        }
        if !bytes.seek(1) {
            return Err(StoreError::NotEnoughBytes);
        }
        assert(bytes@ =~= tail(b, 5));
        let count = match read_len(bytes) {
            Ok(count) => count,
            Err(e) => {
                return Err(StoreError::IntegerError(e));
            },
        };
        let ghost b1 = bytes@;
        proof {
            bytes.lemma_pos_in_bounds();
        }
        if !bytes.seek(1) {
            return Err(StoreError::NotEnoughBytes);
        }
        proof {
            let n = spec_deser_len(tail(b, 5))->Ok_0.1;
            assert(bytes@ =~= tail(b, 5 + n + 1));
        }
        Ok(count)
    }

    /// Reads what follows the header of a keyed store.
    fn deser_dict(bytes: &mut Cursor) -> (r: Result<KvMap, StoreError>)
        ensures
            final(bytes).bytes() == old(bytes).bytes(),
            final(bytes).pos() >= old(bytes).pos(),
            r matches Ok(x) ==> wf_store(StoreView::Dict(kv_view(x))) && lengths_known_store(
                StoreView::Dict(kv_view(x)),
            ),
            match spec_deser_dict(old(bytes)@) {
                Ok((entries, n)) => r matches Ok(x) && kv_view(x) == map_of(entry_pairs(entries))
                    && final(bytes)@ == tail(old(bytes)@, n) && final(bytes).pos() == old(
                    bytes,
                ).pos() + n,
                Err(e) => r matches Err(x) && x == e,
            },
        decreases old(bytes)@.len(), 3nat,
    {
        let ghost b = bytes@;
        proof {
            old(bytes).lemma_pos_in_bounds();
        }
        let count = match Store::deser_dict_head(bytes) {
            Ok(count) => count,
            Err(e) => {
                return Err(e);
            },
        };
        let ghost b1 = bytes@;
        proof {
            bytes.lemma_pos_in_bounds();
        }
        let records = match deser_keys(bytes, count) {
            Ok(records) => records,
            Err(e) => {
                return Err(e);
            },
        };
        proof {
            bytes.lemma_pos_in_bounds();
        }
        let kvs = match deser_values(bytes, &records) {
            Ok(kvs) => kvs,
            Err(e) => {
                return Err(e);
            },
        };
        proof {
            bytes.lemma_pos_in_bounds();
            let n1 = spec_deser_dict_head(b)->Ok_0.1;
            let n2 = spec_deser_keys(b1, count as nat)->Ok_0.1;
            let n3 = spec_deser_values(tail(b1, n2), records_view(records@))->Ok_0.1;
            assert(tail(tail(b1, n2), n3) =~= tail(b, n1 + n2 + n3));
        }
        let key = array_key_string();
        match kv_get(&kvs, &key) {
            Some(held) => {
                if !held.is_array() {
                    return Err(StoreError::FoundArrayKeyThatWasntArray);
                }
            },
            None => {},
        }
        Ok(kvs)
    }

    /// Reads what follows the header of an array.
    fn deser_array(bytes: &mut Cursor) -> (r: Result<Vec<Value>, StoreError>)
        ensures
            final(bytes).bytes() == old(bytes).bytes(),
            final(bytes).pos() >= old(bytes).pos(),
            r matches Ok(x) ==> forall|j: int| 0 <= j < x@.len() ==> item_wf(#[trigger] x@[j]@),
            match spec_deser_array(old(bytes)@) {
                Ok((items, n)) => r matches Ok(x) && (Store::Array { arr: x })@
                    == StoreView::Array(item_views(items)) && final(bytes)@ == tail(
                    old(bytes)@,
                    n,
                ) && final(bytes).pos() == old(bytes).pos() + n,
                Err(e) => r matches Err(x) && x == e,
            },
        decreases old(bytes)@.len(), 3nat,
    {
        let ghost b = bytes@;
        proof {
            old(bytes).lemma_pos_in_bounds();
        }
        let count = match read_len(bytes) {
            Ok(count) => count,
            Err(e) => {
                return Err(StoreError::IntegerError(e));
            },
        };
        proof {
            bytes.lemma_pos_in_bounds();
        }
        let items = match deser_items(bytes, count) {
            Ok(items) => items,
            Err(e) => {
                return Err(e);
            },
        };
        proof {
            bytes.lemma_pos_in_bounds();
            let n1 = spec_deser_len(b)->Ok_0.1;
            let n2 = spec_deser_items(tail(b, n1), count as nat)->Ok_0.1;
            assert(tail(tail(b, n1), n2) =~= tail(b, n1 + n2));
        }
        Ok(items)
    }
}

} // verus!
