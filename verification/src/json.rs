//! Import of a JSON tree into a store.
//!
//! Parsing JSON text is left to the caller, who hands over the tree as a
//! [`Json`]. An object becomes a keyed store, an array an array, and a
//! scalar a value: a boolean a boolean, a string a string, a whole number a
//! number. What has no value of its own, `null` and numbers with a fraction
//! or an exponent, is kept as the string of its JSON text.
use crate::format::{map_of, wf_store};
use crate::integer::{Integer, SignedState};
use crate::kv::{kv_insert, kv_new, kv_view, KvMap};
use crate::store::{lemma_array_view, values_view, Store, StoreError, StoreView};
use crate::store_codec::lemma_map_of_push;
use crate::values::{Value, ValueView};
use vstd::prelude::*;
use vstd::string::StrSliceExecFns;

verus! {

/// A JSON tree. A number is kept as its text.
pub enum Json {
    Null,
    Bool(bool),
    Number(String),
    String(String),
    Array(Vec<Json>),
    Object(Vec<JsonEntry>),
}

/// One entry of a JSON object.
pub struct JsonEntry {
    pub key: String,
    pub value: Json,
}

/// The mathematical content of a [`Json`].
pub enum JsonView {
    Null,
    Bool(bool),
    Number(Seq<char>),
    String(Seq<char>),
    Array(Seq<JsonView>),
    Object(Seq<JsonEntryView>),
}

/// The mathematical content of a [`JsonEntry`].
pub struct JsonEntryView {
    pub key: Seq<char>,
    pub value: JsonView,
}

impl View for Json {
    type V = JsonView;

    open spec fn view(&self) -> JsonView
        decreases self,
    {
        match self {
            Json::Null => JsonView::Null,
            Json::Bool(b) => JsonView::Bool(*b),
            Json::Number(t) => JsonView::Number(t@),
            Json::String(s) => JsonView::String(s@),
            Json::Array(items) => JsonView::Array(
                Seq::new(
                    items@.len(),
                    |i: int|
                        if 0 <= i < items@.len() {
                            items@[i].view()
                        } else {
                            JsonView::Null
                        },
                ),
            ),
            Json::Object(entries) => JsonView::Object(
                Seq::new(
                    entries@.len(),
                    |i: int|
                        if 0 <= i < entries@.len() {
                            entries@[i].view()
                        } else {
                            JsonEntryView { key: Seq::empty(), value: JsonView::Null }
                        },
                ),
            ),
        }
    }
}

impl View for JsonEntry {
    type V = JsonEntryView;

    open spec fn view(&self) -> JsonEntryView
        decreases self,
    {
        JsonEntryView { key: self.key@, value: self.value.view() }
    }
}

/// The value of a decimal digit.
pub open spec fn spec_digit_value(c: char) -> Option<nat> {
    if '0' <= c <= '9' {
        Some((c as nat - '0' as nat) as nat)
    } else {
        None
    }
}

/// Whether `t` is made of decimal digits only.
pub open spec fn all_digits(t: Seq<char>) -> bool {
    forall|i: int| 0 <= i < t.len() ==> spec_digit_value(#[trigger] t[i]) is Some
}

/// The number that the digits of `t` spell.
pub open spec fn digits_value(t: Seq<char>) -> nat
    decreases t.len(),
{
    if t.len() == 0 {
        0
    } else {
        digits_value(t.drop_last()) * 10 + spec_digit_value(t.last()).unwrap_or(0)
    }
}

/// The integer that `t` spells: decimal digits, at least one, with or
/// without a minus sign in front, and a magnitude of at most 128 bits.
pub open spec fn spec_parse_decimal(t: Seq<char>) -> Option<Integer> {
    let negative = t.len() > 0 && t[0] == '-';
    let digits = if negative {
        t.skip(1)
    } else {
        t
    };
    if digits.len() > 0 && all_digits(digits) && digits_value(digits) <= u128::MAX {
        Some(
            Integer {
                signed_state: if negative {
                    SignedState::Negative
                } else {
                    SignedState::Positive
                },
                magnitude: digits_value(digits) as u128,
            },
        )
    } else {
        None
    }
}

/// The key under which a text that is a single scalar is kept.
pub open spec fn scalar_key() -> Seq<char> {
    seq!['J', 'S', 'O', 'N', ' ', 'A', 'r', 'r', 'a', 'y']
}

/// The value that a JSON tree becomes.
pub open spec fn spec_value_of_json(j: JsonView) -> ValueView
    decreases j,
{
    match j {
        JsonView::Null => ValueView::String(seq!['n', 'u', 'l', 'l']),
        JsonView::Bool(b) => ValueView::Bool(b),
        JsonView::Number(t) => match spec_parse_decimal(t) {
            Some(i) => ValueView::Int(i),
            None => ValueView::String(t),
        },
        JsonView::String(s) => ValueView::String(s),
        JsonView::Array(_) => ValueView::Store(spec_store_of_json(j)),
        JsonView::Object(_) => ValueView::Store(spec_store_of_json(j)),
    }
}

/// The values that the items of a JSON array become.
pub open spec fn spec_values_of_json(items: Seq<JsonView>) -> Seq<ValueView>
    decreases items,
{
    Seq::new(
        items.len(),
        |i: int|
            if 0 <= i < items.len() {
                spec_value_of_json(items[i])
            } else {
                ValueView::Bool(false)
            },
    )
}

/// The keys and values that the entries of a JSON object become.
pub open spec fn spec_pairs_of_json(entries: Seq<JsonEntryView>) -> Seq<
    (Seq<char>, ValueView),
>
    decreases entries,
{
    Seq::new(
        entries.len(),
        |i: int|
            if 0 <= i < entries.len() {
                (entries[i].key, spec_value_of_json(entries[i].value))
            } else {
                (Seq::empty(), ValueView::Bool(false))
            },
    )
}

/// The store that a JSON tree becomes: an array for an array, a keyed store
/// for an object, and for a scalar a keyed store that holds it under one
/// key.
pub open spec fn spec_store_of_json(j: JsonView) -> StoreView
    decreases j, 1nat,
{
    match j {
        JsonView::Array(items) => StoreView::Array(spec_values_of_json(items)),
        JsonView::Object(entries) => StoreView::Dict(map_of(spec_pairs_of_json(entries))),
        JsonView::Null => StoreView::Dict(
            map_of(seq![(scalar_key(), ValueView::String(seq!['n', 'u', 'l', 'l']))]),
        ),
        JsonView::Bool(b) => StoreView::Dict(map_of(seq![(scalar_key(), ValueView::Bool(b))])),
        JsonView::Number(t) => StoreView::Dict(
            map_of(
                seq![
                    (
                        scalar_key(),
                        match spec_parse_decimal(t) {
                            Some(i) => ValueView::Int(i),
                            None => ValueView::String(t),
                        },
                    ),
                ],
            ),
        ),
        JsonView::String(s) => StoreView::Dict(
            map_of(seq![(scalar_key(), ValueView::String(s))]),
        ),
    }
}

pub proof fn lemma_digits_value_grows(t: Seq<char>, n: int)
    requires
        0 <= n <= t.len(),
    ensures
        digits_value(t.take(n)) <= digits_value(t),
    decreases t.len() - n,
{
    if n < t.len() {
        lemma_digits_value_grows(t, n + 1);
        assert(t.take(n + 1).drop_last() =~= t.take(n));
    } else {
        assert(t.take(n) =~= t);
    }
}

/// Reads a whole number in decimal, with or without a minus sign in front.
/// Gives nothing for any other text, and for a magnitude beyond 128 bits.
pub fn parse_decimal(text: &str) -> (r: Option<Integer>)
    ensures
        r == spec_parse_decimal(text@),
{
    let len = text.unicode_len();
    if len == 0 {
        return None;
    }
    let negative = text.get_char(0) == '-';
    let start: usize = if negative {
        1
    } else {
        0
    };
    if start == len {
        return None;
    }
    let ghost digits = text@.skip(start as int);
    let mut magnitude: u128 = 0;
    let mut i: usize = start;
    assert(digits.take(0) =~= Seq::<char>::empty());
    assert(text@.skip(0) =~= text@);
    while i < len
        invariant
            start <= i <= len,
            start < len,
            start == if negative {
                1usize
            } else {
                0usize
            },
            negative == (text@[0] == '-'),
            len == text@.len(),
            digits == text@.skip(start as int),
            !negative ==> digits == text@,
            all_digits(digits.take(i - start)),
            magnitude == digits_value(digits.take(i - start)),
        decreases len - i,
    {
        let c = text.get_char(i);
        let ghost before = digits.take(i - start);
        let ghost after = digits.take(i - start + 1);
        proof {
            assert(after.drop_last() =~= before);
            assert(after.last() == c);
            assert(digits[i - start] == c);
        }
        if !('0' <= c && c <= '9') {
            assert(spec_digit_value(digits[i - start]) is None);
            return None;
        }
        let digit = (c as u32 - '0' as u32) as u128;
        proof {
            lemma_digits_value_grows(digits, i - start + 1);
            assert(spec_digit_value(c) == Some(digit as nat));
            assert(digits_value(after) == magnitude * 10 + digit);
            assert forall|j: int| 0 <= j < after.len() implies spec_digit_value(
                #[trigger] after[j],
            ) is Some by {
                if j < before.len() {
                    assert(after[j] == before[j]);
                }
            }
        }
        magnitude = match magnitude.checked_mul(10) {
            Some(scaled) => match scaled.checked_add(digit) {
                Some(sum) => sum,
                None => {
                    return None;
                },
            },
            None => {
                return None;
            },
        };
        i = i + 1;
    }
    assert(digits.take(len - start) =~= digits);
    Some(
        Integer {
            signed_state: if negative {
                SignedState::Negative
            } else {
                SignedState::Positive
            },
            magnitude,
        },
    )
}

/// The views of the items of an array.
pub open spec fn items_view(items: Seq<Json>) -> Seq<JsonView> {
    Seq::new(items.len(), |i: int| items[i]@)
}

/// The views of the entries of an object.
pub open spec fn entries_view(entries: Seq<JsonEntry>) -> Seq<JsonEntryView> {
    Seq::new(entries.len(), |i: int| entries[i]@)
}

pub proof fn lemma_json_array_view(items: Vec<Json>)
    ensures
        Json::Array(items)@ == JsonView::Array(items_view(items@)),
{
    assert(Json::Array(items)@->Array_0 =~= items_view(items@));
}

pub proof fn lemma_json_object_view(entries: Vec<JsonEntry>)
    ensures
        Json::Object(entries)@ == JsonView::Object(entries_view(entries@)),
{
    let whole = Json::Object(entries)@->Object_0;
    let views = entries_view(entries@);
    assert(whole.len() == entries@.len());
    assert(whole =~= views);
}

impl Value {
    /// The value that a JSON tree becomes: a store for an array or an
    /// object, a boolean for a boolean, a string for a string, a number for
    /// a whole number of at most 128 bits, and the string of its JSON text
    /// for `null` and for any other number.
    pub fn from_json_value(json: Json) -> (r: Value)
        ensures
            r@ == spec_value_of_json(json@),
        decreases json, 1nat,
    {
        match json {
            Json::Null => {
                proof {
                    reveal_strlit("null");
                    assert("null"@ =~= seq!['n', 'u', 'l', 'l']);
                }
                Value::String("null".to_owned())
            },
            Json::Bool(b) => Value::Bool(b),
            Json::Number(text) => match parse_decimal(text.as_str()) {
                Some(number) => Value::Int(number),
                None => Value::String(text),
            },
            Json::String(s) => Value::String(s),
            Json::Array(items) => Value::Store(Store::Array { arr: Store::json_items(items) }),
            Json::Object(entries) => Value::Store(
                Store::Dict { kvs: Store::json_entries(entries) },
            ),
        }
    }
}

impl Store {
    /// The values that the items of a JSON array become.
    fn json_items(items: Vec<Json>) -> (r: Vec<Value>)
        ensures
            (Store::Array { arr: r })@ == spec_store_of_json(Json::Array(items)@),
        decreases Json::Array(items), 0nat,
    {
        let ghost whole = Json::Array(items);
        let ghost views = items_view(items@);
        proof {
            lemma_json_array_view(items);
        }
        let mut out: Vec<Value> = Vec::new();
        for item in it: items
            invariant
                it.seq() == items@,
                whole == Json::Array(items),
                views == items_view(items@),
                out@.len() == it.index(),
                forall|j: int|
                    0 <= j < out@.len() ==> (#[trigger] out@[j])@ == spec_value_of_json(views[j]),
        {
            proof {
                assert(item == items@[it.index() as int]);
                assert(views[it.index() as int] == item@);
                assert(decreases_to!(whole => whole->Array_0));
                assert(decreases_to!(items => items@[it.index() as int]));
            }
            out.push(Value::from_json_value(item));
        }
        proof {
            lemma_array_view(out);
            assert(values_view(out@) =~= spec_values_of_json(views));
        }
        out
    }

    /// The map that the entries of a JSON object become; of two entries
    /// with one key the later one stays.
    fn json_entries(entries: Vec<JsonEntry>) -> (r: KvMap)
        ensures
            StoreView::Dict(kv_view(r)) == spec_store_of_json(Json::Object(entries)@),
        decreases Json::Object(entries), 0nat,
    {
        let ghost whole = Json::Object(entries);
        let ghost views = entries_view(entries@);
        let ghost pairs = spec_pairs_of_json(views);
        proof {
            lemma_json_object_view(entries);
        }
        let mut kvs = kv_new();
        assert(kv_view(kvs) =~= map_of(pairs.take(0)));
        for pair in it: entries
            invariant
                it.seq() == entries@,
                whole == Json::Object(entries),
                views == entries_view(entries@),
                pairs == spec_pairs_of_json(views),
                kv_view(kvs) == map_of(pairs.take(it.index() as int)),
        {
            let ghost before = pairs.take(it.index() as int);
            let ghost at = it.index() as int;
            proof {
                assert(pair == entries@[at]);
                assert(decreases_to!(whole => whole->Object_0));
                assert(decreases_to!(entries => entries@[at]));
                assert(decreases_to!(entries@[at] => entries@[at].value));
            }
            let JsonEntry { key, value: json } = pair;
            let value = Value::from_json_value(json);
            proof {
                assert(views[at] == (JsonEntryView { key: key@, value: json@ }));
                lemma_map_of_push(before, key@, value@);
                assert(pairs.take(at + 1) =~= before.push((key@, value@)));
            }
            let displaced = kv_insert(&mut kvs, key, value);
        }
        assert(pairs.take(entries@.len() as int) =~= pairs);
        kvs
    }

    /// The store that a JSON tree becomes: an array for an array, a keyed
    /// store for an object, and for a scalar a keyed store that holds it
    /// under the key `JSON Array`.
    ///
    /// Fails when the reserved key, at any depth, would hold anything but
    /// an array.
    pub fn from_json_value(json: Json) -> (r: Result<Store, StoreError>)
        ensures
            match r {
                Ok(s) => s@ == spec_store_of_json(json@) && s.wf(),
                Err(e) => e == StoreError::FoundArrayKeyThatWasntArray && !wf_store(
                    spec_store_of_json(json@),
                ),
            },
    {
        let store = match json {
            Json::Array(items) => Store::Array { arr: Store::json_items(items) },
            Json::Object(entries) => Store::Dict { kvs: Store::json_entries(entries) },
            scalar => {
                proof {
                    reveal_strlit("JSON Array");
                    assert("JSON Array"@ =~= scalar_key());
                }
                let value = Value::from_json_value(scalar);
                let mut kvs = kv_new();
                let displaced = kv_insert(&mut kvs, "JSON Array".to_owned(), value);
                proof {
                    let empty = Seq::<(Seq<char>, ValueView)>::empty();
                    assert(kv_view(kvs) =~= map_of(seq![(scalar_key(), value@)])) by {
                        lemma_map_of_push(empty, scalar_key(), value@);
                        assert(empty.push((scalar_key(), value@)) =~= seq![
                            (scalar_key(), value@),
                        ]);
                        assert(map_of(empty) =~= Map::empty());
                    }
                }
                Store::Dict { kvs }
            },
        };
        if store.is_valid() {
            Ok(store)
        } else {
            Err(StoreError::FoundArrayKeyThatWasntArray)
        }
    }
}

} // verus!
