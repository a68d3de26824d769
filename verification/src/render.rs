//! Values and stores as text, for people to read.
use crate::format::{
    entry_pairs, item_views, keys_distinct_store, keys_distinct_value, EntryLayout, StoreLayout,
    ValueLayout,
};
use crate::integer::Integer;
use crate::kv::{kv_get, kv_keys, kv_view, lists_keys, KvMap};
use crate::store::{Store, StoreView};
use crate::store_codec::lemma_map_of_listing;
use crate::text::{
    char_debug, debug_char, debug_str, push_decimal, push_hex, spec_decimal, spec_hex, str_debug,
};
use crate::values::{Value, ValueView};
use vstd::pervasive::unreached;
use vstd::prelude::*;
use vstd::string::StringExecFns;

verus! {

/// The bytes in hexadecimal, a comma and a blank between them.
pub open spec fn spec_hex_list(b: Seq<u8>) -> Seq<char>
    decreases b.len(),
{
    if b.len() == 0 {
        Seq::empty()
    } else if b.len() == 1 {
        spec_hex(b[0])
    } else {
        spec_hex_list(b.drop_last()) + seq![',', ' '] + spec_hex(b.last())
    }
}

/// The bytes in hexadecimal between square brackets.
pub open spec fn spec_hex_array(b: Seq<u8>) -> Seq<char> {
    seq!['['] + spec_hex_list(b) + seq![']']
}

/// The parts, a comma between them.
pub open spec fn spec_join(parts: Seq<Seq<char>>) -> Seq<char>
    decreases parts.len(),
{
    if parts.len() == 0 {
        Seq::empty()
    } else if parts.len() == 1 {
        parts[0]
    } else {
        spec_join(parts.drop_last()) + seq![','] + parts.last()
    }
}

/// An integer in decimal, a minus sign in front for a negative sign.
pub open spec fn spec_text_integer(i: Integer) -> Seq<char> {
    if i.signed_state is Negative {
        seq!['-'] + spec_decimal(i.magnitude as nat)
    } else {
        spec_decimal(i.magnitude as nat)
    }
}

/// A value as text.
pub open spec fn spec_text_value(l: ValueLayout) -> Seq<char>
    decreases l,
{
    match l {
        ValueLayout::Ch(c) => debug_char(c),
        ValueLayout::String(s) => debug_str(s),
        ValueLayout::Binary(b) => spec_hex_array(b),
        ValueLayout::Bool(b) => if b {
            seq!['t', 'r', 'u', 'e']
        } else {
            seq!['f', 'a', 'l', 's', 'e']
        },
        ValueLayout::Int(i) => spec_text_integer(i),
        ValueLayout::Store(s) => spec_text_store(s),
    }
}

/// Each entry as text: the key, a colon and a blank, the value.
pub open spec fn entry_texts(entries: Seq<EntryLayout>) -> Seq<Seq<char>>
    decreases entries,
{
    Seq::new(
        entries.len(),
        |i: int|
            if 0 <= i < entries.len() {
                entries[i].key + seq![':', ' '] + spec_text_value(entries[i].value)
            } else {
                Seq::empty()
            },
    )
}

/// Each item as text.
pub open spec fn item_texts(items: Seq<ValueLayout>) -> Seq<Seq<char>>
    decreases items,
{
    Seq::new(
        items.len(),
        |i: int|
            if 0 <= i < items.len() {
                spec_text_value(items[i])
            } else {
                Seq::empty()
            },
    )
}

/// A store as text: the entries of a keyed store between braces, the
/// values of an array between square brackets, commas between them and a
/// line feed at the end.
pub open spec fn spec_text_store(s: StoreLayout) -> Seq<char>
    decreases s,
{
    match s {
        StoreLayout::Dict(entries) => seq!['{'] + spec_join(entry_texts(entries)) + seq![
            '}',
            '\n',
        ],
        StoreLayout::Array(items) => seq!['['] + spec_join(item_texts(items)) + seq![']', '\n'],
    }
}

/// Whether `l` is the value `v` with the entries of its keyed stores in
/// some order, each once.
pub open spec fn orders_value(l: ValueLayout, v: ValueView) -> bool {
    l@ == v && keys_distinct_value(l)
}

/// Whether `o` is the store `s` with the entries of its keyed stores in
/// some order, each once.
pub open spec fn orders_store(o: StoreLayout, s: StoreView) -> bool {
    o@ == s && keys_distinct_store(o)
}

/// Whether `t` is the text of `v` in some order of its keyed stores.
pub open spec fn renders_value(v: ValueView, t: Seq<char>) -> bool {
    exists|l: ValueLayout| orders_value(l, v) && t == spec_text_value(l)
}

/// Whether `t` is the text of `s` in some order of its keyed stores.
pub open spec fn renders_store(s: StoreView, t: Seq<char>) -> bool {
    exists|o: StoreLayout| orders_store(o, s) && t == spec_text_store(o)
}

pub proof fn lemma_join_push(parts: Seq<Seq<char>>, part: Seq<char>)
    ensures
        spec_join(parts.push(part)) == if parts.len() == 0 {
            part
        } else {
            spec_join(parts) + seq![','] + part
        },
{
    assert(parts.push(part).drop_last() =~= parts);
}

/// The bytes in hexadecimal with capitals between square brackets, a comma
/// and a blank between them, each behind `0x` and without leading zeros.
pub fn display_bytes_as_hex_array(b: &[u8]) -> (r: String)
    ensures
        r@ == spec_hex_array(b@),
{
    proof {
        reveal_strlit("[");
        reveal_strlit("]");
        reveal_strlit(", ");
    }
    let mut out = String::new();
    out.append("[");
    let mut i: usize = 0;
    assert(b@.take(0) =~= Seq::<u8>::empty());
    while i < b.len()
        invariant
            i <= b.len(),
            out@ == seq!['['] + spec_hex_list(b@.take(i as int)),
        decreases b.len() - i,
    {
        let ghost before = b@.take(i as int);
        let ghost so_far = out@;
        if i > 0 {
            out.append(", ");
        }
        push_hex(&mut out, b[i]);
        proof {
            reveal_strlit(", ");
            let next = b@.take(i + 1);
            assert(before.len() == i);
            assert(next.drop_last() =~= before);
            assert(next.last() == b@[i as int]);
            assert(out@ =~= seq!['['] + spec_hex_list(next));
        }
        i = i + 1;
    }
    out.append("]");
    proof {
        assert(b@.take(b@.len() as int) =~= b@);
        assert(out@ =~= spec_hex_array(b@));
    }
    out
}

impl Integer {
    /// The integer in decimal, a minus sign in front for a negative sign.
    pub fn to_text(&self) -> (r: String)
        ensures
            r@ == spec_text_integer(*self),
    {
        proof {
            reveal_strlit("-");
        }
        let mut out = String::new();
        if self.is_negative() {
            out.append("-");
        }
        push_decimal(&mut out, self.magnitude);
        assert(out@ =~= spec_text_integer(*self));
        out
    }
}

impl Value {
    /// The value as text: a character and a string as the standard library
    /// writes them for debugging, bytes as [`display_bytes_as_hex_array`]
    /// does, a boolean as `true` or `false`, a number in decimal, a nested
    /// store as [`Store::to_text`] does.
    pub fn to_text(&self) -> (r: String)
        ensures
            renders_value(self@, r@),
            !(self is Store) ==> r@ == spec_text_value(crate::format::flat_layout(self@)),
        decreases self@, 0nat,
    {
        match self {
            Value::Ch(c) => {
                let r = char_debug(*c);
                assert(orders_value(ValueLayout::Ch(*c), self@) && r@ == spec_text_value(ValueLayout::Ch(*c)));
                r
            },
            Value::String(s) => {
                let r = str_debug(s.as_str());
                assert(orders_value(ValueLayout::String(s@), self@) && r@ == spec_text_value(ValueLayout::String(s@)));
                r
            },
            Value::Binary(b) => {
                let r = display_bytes_as_hex_array(b.as_slice());
                assert(orders_value(ValueLayout::Binary(b@), self@) && r@ == spec_text_value(ValueLayout::Binary(b@)));
                r
            },
            Value::Bool(b) => {
                proof {
                    reveal_strlit("true");
                    reveal_strlit("false");
                    assert(orders_value(ValueLayout::Bool(*b), self@));
                }
                let mut out = String::new();
                if *b {
                    out.append("true");
                } else {
                    out.append("false");
                }
                assert(out@ =~= spec_text_value(ValueLayout::Bool(*b)));
                assert(orders_value(ValueLayout::Bool(*b), self@) && out@ == spec_text_value(
                    ValueLayout::Bool(*b),
                ));
                out
            },
            Value::Int(i) => {
                let r = i.to_text();
                assert(orders_value(ValueLayout::Int(*i), self@) && r@ == spec_text_value(ValueLayout::Int(*i)));
                r
            },
            Value::Store(s) => {
                proof {
                    let v = self@;
                    assert(v == ValueView::Store(s@));
                    assert(decreases_to!(v => v->Store_0));
                }
                let r = s.to_text();
                proof {
                    let o = choose|o: StoreLayout|
                        orders_store(o, s@) && r@ == spec_text_store(o);
                    assert(orders_value(ValueLayout::Store(o), self@) && r@ == spec_text_value(
                        ValueLayout::Store(o),
                    ));
                }
                r
            },
        }
    }
}

impl Store {
    /// The store as text: the entries of a keyed store between braces, each
    /// as key, colon, blank and value, in the order in which the map hands
    /// out its keys; the values of an array between square brackets; commas
    /// between them, and a line feed at the end.
    pub fn to_text(&self) -> (r: String)
        ensures
            renders_store(self@, r@),
        decreases self@, 1nat,
    {
        match self {
            Store::Dict { kvs } => Store::dict_to_text(kvs),
            Store::Array { arr } => Store::array_to_text(arr),
        }
    }

    /// A keyed store as text.
    fn dict_to_text(kvs: &KvMap) -> (r: String)
        ensures
            renders_store(StoreView::Dict(kv_view(*kvs)), r@),
        decreases StoreView::Dict(kv_view(*kvs)), 0nat,
    {
        proof {
            reveal_strlit("{");
            reveal_strlit("}\n");
            reveal_strlit(",");
            reveal_strlit(": ");
        }
        let ghost m = kv_view(*kvs);
        let keys = kv_keys(kvs);
        let mut out = String::new();
        out.append("{");
        let ghost mut entries: Seq<EntryLayout> = Seq::empty();
        let mut i: usize = 0;
        assert(entry_texts(entries) =~= Seq::<Seq<char>>::empty());
        while i < keys.len()
            invariant
                i <= keys.len(),
                m == kv_view(*kvs),
                lists_keys(keys@, m),
                entries.len() == i,
                forall|j: int|
                    0 <= j < i ==> (#[trigger] entries[j]).key == keys@[j]@ && orders_value(
                        entries[j].value,
                        m[keys@[j]@],
                    ),
                out@ == seq!['{'] + spec_join(entry_texts(entries)),
            decreases keys.len() - i,
        {
            let key = &keys[i];
            let value = match kv_get(kvs, key) {
                Some(value) => value,
                None => {
                    assert(m.dom().contains(keys@[i as int]@));
                    unreached()
                },
            };
            proof {
                let s = StoreView::Dict(m);
                assert(decreases_to!(s => s->Dict_0));
                assert(decreases_to!(m => m[key@]));
            }
            let text = value.to_text();
            if i > 0 {
                out.append(",");
            }
            out.append(key.as_str());
            out.append(": ");
            out.append(text.as_str());
            proof {
                let l = choose|l: ValueLayout|
                    orders_value(l, value@) && text@ == spec_text_value(l);
                let entry = EntryLayout { key: key@, value: l };
                let next = entries.push(entry);
                let part = key@ + seq![':', ' '] + text@;
                reveal_strlit(",");
                reveal_strlit(": ");
                assert(entry_texts(entries).len() == i);
                assert(entry_texts(next) =~= entry_texts(entries).push(part));
                lemma_join_push(entry_texts(entries), part);
                assert(out@ =~= seq!['{'] + spec_join(entry_texts(next)));
                entries = next;
            }
            i = i + 1;
        }
        out.append("}\n");
        proof {
            let o = StoreLayout::Dict(entries);
            let pairs = entry_pairs(entries);
            assert forall|a: int, b: int| 0 <= a < b < pairs.len() implies pairs[a].0
                != pairs[b].0 by {
                assert(entries[a].key == keys@[a]@);
                assert(entries[b].key == keys@[b]@);
            }
            assert forall|a: int| 0 <= a < pairs.len() implies m.dom().contains(
                #[trigger] pairs[a].0,
            ) && m[pairs[a].0] == pairs[a].1 by {
                assert(entries[a].key == keys@[a]@);
                assert(m.dom().contains(keys@[a]@));
            }
            lemma_map_of_listing(pairs, m);
            assert(o@ == StoreView::Dict(m));
            assert(keys_distinct_store(o)) by {
                assert forall|a: int, b: int| 0 <= a < b < entries.len() implies (
                #[trigger] entries[a]).key != (#[trigger] entries[b]).key by {
                    assert(entries[a].key == keys@[a]@);
                    assert(entries[b].key == keys@[b]@);
                }
                assert forall|a: int| 0 <= a < entries.len() implies keys_distinct_value(
                    #[trigger] entries[a].value,
                ) by {
                    assert(entries[a].key == keys@[a]@);
                }
            }
            assert(out@ =~= spec_text_store(o));
            assert(orders_store(o, StoreView::Dict(m)) && out@ == spec_text_store(o));
        }
        out
    }

    /// An array as text.
    fn array_to_text(arr: &Vec<Value>) -> (r: String)
        ensures
            renders_store((Store::Array { arr: *arr })@, r@),
        decreases (Store::Array { arr: *arr })@, 0nat,
    {
        proof {
            reveal_strlit("[");
            reveal_strlit("]\n");
            reveal_strlit(",");
        }
        let ghost s = (Store::Array { arr: *arr })@;
        let mut out = String::new();
        out.append("[");
        let ghost mut items: Seq<ValueLayout> = Seq::empty();
        let mut i: usize = 0;
        assert(item_texts(items) =~= Seq::<Seq<char>>::empty());
        while i < arr.len()
            invariant
                i <= arr.len(),
                s == (Store::Array { arr: *arr })@,
                items.len() == i,
                forall|j: int| 0 <= j < i ==> orders_value(#[trigger] items[j], s->Array_0[j]),
                out@ == seq!['['] + spec_join(item_texts(items)),
            decreases arr.len() - i,
        {
            proof {
                let a = s->Array_0;
                assert(a[i as int] == arr@[i as int]@);
                assert(decreases_to!(s => a));
                assert(decreases_to!(a => a[i as int]));
            }
            let text = arr[i].to_text();
            if i > 0 {
                out.append(",");
            }
            out.append(text.as_str());
            proof {
                let l = choose|l: ValueLayout|
                    orders_value(l, arr@[i as int]@) && text@ == spec_text_value(l);
                let next = items.push(l);
                reveal_strlit(",");
                assert(item_texts(items).len() == i);
                assert(item_texts(next) =~= item_texts(items).push(text@));
                lemma_join_push(item_texts(items), text@);
                assert(out@ =~= seq!['['] + spec_join(item_texts(next)));
                items = next;
            }
            i = i + 1;
        }
        out.append("]\n");
        proof {
            let o = StoreLayout::Array(items);
            assert(item_views(items) =~= s->Array_0);
            assert(o@ == s);
            assert(keys_distinct_store(o));
            assert(out@ =~= spec_text_store(o));
            assert(orders_store(o, s) && out@ == spec_text_store(o));
        }
        out
    }
}

} // verus!
