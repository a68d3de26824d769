//! The recursive container: a keyed store or an array of values.
use crate::format::{array_key, map_of, reserved_ok, wf_store, wf_value};
use crate::integer::IntegerSerError;
use crate::kv::{
    kv_clear, kv_get, kv_get_mut, kv_insert, kv_into_entries, kv_keys, kv_len, kv_new,
    kv_remove, kv_view, lists_entries, lists_keys, KvMap,
};
use crate::text::{decimal_string, spec_decimal};
use crate::store_codec::{array_key_string, lemma_map_of_listing, lemma_map_of_push};
use crate::values::{Value, ValueSerError, ValueView};
use crate::version::VersionSerError;
use std::string::FromUtf8Error;
use vstd::pervasive::unreached;
use vstd::prelude::*;

verus! {

/// A container of values. Its shape is fixed for its lifetime.
#[derive(Debug, PartialEq, Eq)]
pub enum Store {
    /// String keys, each mapped to one value, in no particular order.
    Dict { kvs: KvMap },
    /// Values in order.
    Array { arr: Vec<Value> },
}

/// The mathematical content of a [`Store`].
pub enum StoreView {
    Dict(Map<Seq<char>, ValueView>),
    Array(Seq<ValueView>),
}

/// Why a store could not be built, encoded or decoded.
#[derive(Debug)]
pub enum StoreError {
    /// A value inside the store could not be decoded.
    ValueError(ValueSerError),
    /// A count or a length could not be read.
    IntegerError(IntegerSerError),
    /// The version tag could not be read.
    VersionError(VersionSerError),
    /// A key that the map had listed was not found in it.
    CouldntFindKey,
    /// The byte names no shape; it is attached.
    InvalidVersion(u8),
    /// The input ended inside the store.
    NotEnoughBytes,
    /// The bytes of a key are not UTF-8.
    StringEncoding(FromUtf8Error),
    /// The reserved key holds something that is no array.
    FoundArrayKeyThatWasntArray,
    /// The buffer is longer than a cursor can address.
    FileTooLong,
}

/// Why a store could not be read from a buffer.
pub type StoreFailure = StoreError;

/// The shape of a store, which decides how it is laid out in bytes.
#[derive(Copy, Clone, Debug, PartialEq, Eq, Structural)]
pub enum Version {
    Dict,
    Array,
}

impl StoreView {
    /// The shape of the store.
    pub open spec fn shape(self) -> Version {
        match self {
            StoreView::Dict(_) => Version::Dict,
            StoreView::Array(_) => Version::Array,
        }
    }
}

impl Version {
    /// The number of the shape.
    pub open spec fn spec_code(self) -> u8 {
        match self {
            Version::Dict => 1,
            Version::Array => 2,
        }
    }

    /// The shape of a store.
    pub fn of(store: &Store) -> (r: Version)
        ensures
            r == store@.shape(),
    {
        match store {
            Store::Dict { .. } => Version::Dict,
            Store::Array { .. } => Version::Array,
        }
    }

    /// The number of the shape: 1 for a keyed store, 2 for an array.
    pub fn code(self) -> (r: u8)
        ensures
            r == self.spec_code(),
    {
        match self {
            Version::Dict => 0b0001,
            Version::Array => 0b0010,
        }
    }

    /// The shape with the given number, if it is the number of a shape.
    pub fn from_code(value: u8) -> (r: Result<Version, StoreError>)
        ensures
            match r {
                Ok(v) => v.spec_code() == value,
                Err(e) => value != 1 && value != 2 && e == StoreError::InvalidVersion(value),
            },
    {
        match value {
            0b0001 => Ok(Version::Dict),
            0b0010 => Ok(Version::Array),
            _ => Err(StoreError::InvalidVersion(value)),
        }
    }

    /// The version tag under which a store of this shape is written.
    pub fn tag(self) -> (r: crate::version::Version)
        ensures
            r == self.spec_tag(),
    {
        match self {
            Version::Dict => crate::version::Version::V0_1_0,
            Version::Array => crate::version::Version::V0_2_0,
        }
    }

    /// The version tag under which a store of this shape is written.
    pub open spec fn spec_tag(self) -> crate::version::Version {
        match self {
            Version::Dict => crate::version::Version::V0_1_0,
            Version::Array => crate::version::Version::V0_2_0,
        }
    }
}

impl From<ValueSerError> for StoreError {
    /// A failure to decode a value, as a failure of the store.
    fn from(value: ValueSerError) -> (r: StoreError)
        ensures
            r == StoreError::ValueError(value),
    {
        StoreError::ValueError(value)
    }
}

impl vstd::std_specs::convert::FromSpecImpl<ValueSerError> for StoreError {
    open spec fn obeys_from_spec() -> bool {
        true
    }

    open spec fn from_spec(value: ValueSerError) -> StoreError {
        StoreError::ValueError(value)
    }
}

impl From<IntegerSerError> for StoreError {
    /// A failure to read a count or a length, as a failure of the store.
    fn from(value: IntegerSerError) -> (r: StoreError)
        ensures
            r == StoreError::IntegerError(value),
    {
        StoreError::IntegerError(value)
    }
}

impl vstd::std_specs::convert::FromSpecImpl<IntegerSerError> for StoreError {
    open spec fn obeys_from_spec() -> bool {
        true
    }

    open spec fn from_spec(value: IntegerSerError) -> StoreError {
        StoreError::IntegerError(value)
    }
}

impl From<VersionSerError> for StoreError {
    /// A failure to read the version tag, as a failure of the store.
    fn from(value: VersionSerError) -> (r: StoreError)
        ensures
            r == StoreError::VersionError(value),
    {
        StoreError::VersionError(value)
    }
}

impl vstd::std_specs::convert::FromSpecImpl<VersionSerError> for StoreError {
    open spec fn obeys_from_spec() -> bool {
        true
    }

    open spec fn from_spec(value: VersionSerError) -> StoreError {
        StoreError::VersionError(value)
    }
}

impl From<FromUtf8Error> for StoreError {
    /// A key that is not UTF-8, as a failure of the store.
    fn from(value: FromUtf8Error) -> (r: StoreError)
        ensures
            r == StoreError::StringEncoding(value),
    {
        StoreError::StringEncoding(value)
    }
}

impl vstd::std_specs::convert::FromSpecImpl<FromUtf8Error> for StoreError {
    open spec fn obeys_from_spec() -> bool {
        true
    }

    open spec fn from_spec(value: FromUtf8Error) -> StoreError {
        StoreError::StringEncoding(value)
    }
}

impl<'a> From<&'a Store> for Version {
    /// The shape of the store.
    fn from(value: &'a Store) -> (r: Version)
        ensures
            r == value@.shape(),
    {
        Version::of(value)
    }
}

impl<'a> vstd::std_specs::convert::FromSpecImpl<&'a Store> for Version {
    open spec fn obeys_from_spec() -> bool {
        true
    }

    open spec fn from_spec(value: &'a Store) -> Version {
        value@.shape()
    }
}

impl From<Version> for u8 {
    /// The number of the shape.
    fn from(val: Version) -> (r: u8)
        ensures
            r == val.spec_code(),
    {
        val.code()
    }
}

impl vstd::std_specs::convert::FromSpecImpl<Version> for u8 {
    open spec fn obeys_from_spec() -> bool {
        true
    }

    open spec fn from_spec(val: Version) -> u8 {
        val.spec_code()
    }
}

/// The views of a run of key and value pairs.
pub open spec fn pairs_view(entries: Seq<(String, Value)>) -> Seq<(Seq<char>, ValueView)> {
    Seq::new(entries.len(), |i: int| (entries[i].0@, entries[i].1@))
}

/// What is kept under the reserved key: the items of the array there, and
/// nothing if the key is absent.
pub open spec fn reserved_items(m: Map<Seq<char>, ValueView>) -> Seq<ValueView> {
    if m.dom().contains(array_key()) {
        m[array_key()]->Store_0->Array_0
    } else {
        Seq::empty()
    }
}

/// The items after `v` was added: an array adds each of its items, anything
/// else adds itself.
pub open spec fn spec_pushed(items: Seq<ValueView>, v: ValueView) -> Seq<ValueView> {
    match v {
        ValueView::Store(StoreView::Array(more)) => items + more,
        _ => items.push(v),
    }
}

/// The store after `v` was inserted under `k`.
///
/// An array takes `v` at its end, whatever the key. A keyed store puts `v`
/// under `k`, unless `k` is the reserved key: then `v` is added to the array
/// kept there.
pub open spec fn spec_insert(s: StoreView, k: Seq<char>, v: ValueView) -> StoreView {
    match s {
        StoreView::Array(a) => StoreView::Array(a.push(v)),
        StoreView::Dict(m) => if k == array_key() {
            StoreView::Dict(
                m.insert(
                    array_key(),
                    ValueView::Store(StoreView::Array(spec_pushed(reserved_items(m), v))),
                ),
            )
        } else {
            StoreView::Dict(m.insert(k, v))
        },
    }
}

/// Whether `keys` names every key of `m` once and `values` holds, in the
/// same order, values with the content that `m` holds under those keys.
pub open spec fn values_listed(
    values: Seq<Value>,
    keys: Seq<String>,
    m: Map<Seq<char>, ValueView>,
) -> bool {
    lists_keys(keys, m) && values.len() == keys.len() && forall|i: int|
        0 <= i < keys.len() ==> (#[trigger] values[i])@ == m[keys[i]@]
}

/// The views of the values of an array.
pub open spec fn values_view(arr: Seq<Value>) -> Seq<ValueView> {
    Seq::new(arr.len(), |i: int| arr[i]@)
}

pub proof fn lemma_array_view(arr: Vec<Value>)
    ensures
        (Store::Array { arr })@ == StoreView::Array(values_view(arr@)),
{
    assert((Store::Array { arr })@->Array_0 =~= values_view(arr@));
}

impl Default for Store {
    /// The empty keyed store.
    fn default() -> (r: Store)
        ensures
            r@ == StoreView::Dict(Map::empty()),
            r.wf(),
    {
        let kvs = kv_new();
        assert(kv_view(kvs) =~= Map::empty());
        Store::Dict { kvs }
    }
}

impl View for Store {
    type V = StoreView;

    open spec fn view(&self) -> StoreView
        decreases self,
    {
        match self {
            Store::Dict { kvs } => StoreView::Dict(kv_view(*kvs)),
            Store::Array { arr } => StoreView::Array(
                Seq::new(
                    arr@.len(),
                    |i: int|
                        if 0 <= i < arr@.len() {
                            arr@[i].view()
                        } else {
                            ValueView::Bool(false)
                        },
                ),
            ),
        }
    }
}

impl Store {
    /// Whether the reserved key holds an array wherever it occurs, at any
    /// depth.
    pub open spec fn wf(&self) -> bool {
        wf_store(self@)
    }

    /// The empty keyed store.
    #[must_use]
    pub fn new() -> (r: Store)
        ensures
            r@ == StoreView::Dict(Map::empty()),
            r.wf(),
    {
        let kvs = kv_new();
        assert(kv_view(kvs) =~= Map::empty());
        Store::Dict { kvs }
    }

    /// A keyed store with the given entries; of two entries with one key the
    /// later one stays.
    ///
    /// Fails when the reserved key, in this store or in one nested in it at
    /// any depth, holds anything but an array.
    pub fn new_map(entries: Vec<(String, Value)>) -> (r: Result<Store, StoreError>)
        ensures
            match r {
                Ok(s) => s@ == StoreView::Dict(map_of(pairs_view(entries@))) && s.wf(),
                Err(e) => e == StoreError::FoundArrayKeyThatWasntArray && !wf_store(
                    StoreView::Dict(map_of(pairs_view(entries@))),
                ),
            },
    {
        let mut kvs = kv_new();
        let ghost all = pairs_view(entries@);
        assert(kv_view(kvs) =~= map_of(all.take(0)));
        for pair in it: entries
            invariant
                all == pairs_view(entries@),
                it.seq() == entries@,
                kv_view(kvs) == map_of(all.take(it.index() as int)),
        {
            let ghost before = all.take(it.index() as int);
            let (k, v) = pair;
            proof {
                lemma_map_of_push(before, k@, v@);
                assert(all.take(it.index() + 1) =~= before.push((k@, v@)));
            }
            let displaced = kv_insert(&mut kvs, k, v);
        }
        assert(all.take(entries@.len() as int) =~= all);
        let trial = Store::Dict { kvs };
        if trial.is_valid() {
            Ok(trial)
        } else {
            Err(StoreError::FoundArrayKeyThatWasntArray)
        }
    }

    /// An array with the given values.
    #[must_use]
    pub fn new_arr(arr: Vec<Value>) -> (r: Store)
        ensures
            r@ == StoreView::Array(values_view(arr@)),
            (forall|i: int| 0 <= i < arr@.len() ==> wf_value(#[trigger] arr@[i]@)) ==> r.wf(),
    {
        proof {
            lemma_array_view(arr);
            let a = values_view(arr@);
            if forall|i: int| 0 <= i < arr@.len() ==> wf_value(#[trigger] arr@[i]@) {
                assert forall|i: int| 0 <= i < a.len() implies wf_value(#[trigger] a[i]) by {
                    assert(wf_value(arr@[i]@));
                }
            }
        }
        Store::Array { arr }
    }

    /// Whether the reserved key holds an array wherever it occurs, at any
    /// depth.
    pub fn is_valid(&self) -> (b: bool)
        ensures
            b == self.wf(),
        decreases self@, 1nat,
    {
        match self {
            Store::Dict { kvs } => {
                let ghost m = kv_view(*kvs);
                let key = array_key_string();
                match kv_get(kvs, &key) {
                    Some(held) => {
                        if !held.is_array() {
                            return false;
                        }
                    },
                    None => {},
                }
                let keys = kv_keys(kvs);
                let mut i: usize = 0;
                while i < keys.len()
                    invariant
                        i <= keys.len(),
                        m == kv_view(*kvs),
                        self@ == StoreView::Dict(m),
                        lists_keys(keys@, m),
                        reserved_ok(self@),
                        forall|j: int| 0 <= j < i ==> wf_value(m[#[trigger] keys@[j]@]),
                    decreases keys.len() - i,
                {
                    let value = match kv_get(kvs, &keys[i]) {
                        Some(value) => value,
                        None => {
                            return false;
                        },
                    };
                    proof {
                        let s = self@;
                        assert(decreases_to!(s => s->Dict_0));
                        assert(decreases_to!(m => m[keys@[i as int]@]));
                    }
                    if !value.is_valid() {
                        return false;
                    }
                    i = i + 1;
                }
                proof {
                    let pairs = Seq::new(keys@.len(), |j: int| (keys@[j]@, m[keys@[j]@]));
                    lemma_map_of_listing(pairs, m);
                    crate::store_codec::lemma_map_of_distinct(pairs);
                    assert forall|k: Seq<char>| m.dom().contains(k) implies wf_value(
                        #[trigger] m[k],
                    ) by {
                        let j = choose|j: int| 0 <= j < pairs.len() && #[trigger] pairs[j].0 == k;
                        assert(wf_value(m[keys@[j]@]));
                    }
                }
                true
            },
            Store::Array { arr } => {
                let mut i: usize = 0;
                while i < arr.len()
                    invariant
                        i <= arr.len(),
                        self is Array && self->arr == *arr,
                        forall|j: int| 0 <= j < i ==> wf_value(#[trigger] self@->Array_0[j]),
                    decreases arr.len() - i,
                {
                    proof {
                        let s = self@;
                        let a = s->Array_0;
                        assert(a[i as int] == arr@[i as int]@);
                        assert(decreases_to!(s => a));
                        assert(decreases_to!(a => a[i as int]));
                    }
                    if !arr[i].is_valid() {
                        return false;
                    }
                    i = i + 1;
                }
                true
            },
        }
    }

    /// Puts `v` into the store.
    ///
    /// An array takes `v` at its end and ignores the key. A keyed store puts
    /// `v` under `k`, replacing what was there; under the reserved key it
    /// instead adds to the array kept there, which it makes if need be: an
    /// array adds each of its items, anything else adds itself.
    pub fn insert(&mut self, k: String, v: Value)
        requires
            k@ == array_key() ==> reserved_ok(old(self)@),
        ensures
            final(self)@ == spec_insert(old(self)@, k@, v@),
            old(self).wf() && wf_value(v@) ==> final(self).wf(),
    {
        proof {
            if old(self).wf() && wf_value(v@) {
                crate::laws::law_insert_keeps_the_reserved_key(old(self)@, k@, v@);
            }
        }
        match self {
            Store::Dict { kvs } => {
                let key = array_key_string();
                if k == key {
                    let ghost m = kv_view(*kvs);
                    let mut items = match kv_remove(kvs, &key) {
                        Some(Value::Store(Store::Array { arr })) => {
                            proof {
                                lemma_array_view(arr);
                            }
                            arr
                        },
                        Some(_) => unreached(),
                        None => Vec::new(),
                    };
                    assert(values_view(items@) =~= reserved_items(m));
                    match v {
                        Value::Store(Store::Array { arr }) => {
                            let mut more = arr;
                            proof {
                                lemma_array_view(more);
                            }
                            let ghost first = items@;
                            let ghost second = more@;
                            items.append(&mut more);
                            assert(values_view(items@) =~= values_view(first) + values_view(
                                second,
                            ));
                        },
                        other => {
                            let ghost first = items@;
                            items.push(other);
                            assert(values_view(items@) =~= values_view(first).push(v@));
                        },
                    }
                    proof {
                        lemma_array_view(items);
                    }
                    let displaced = kv_insert(kvs, key, Value::Store(Store::Array { arr: items }));
                    assert(kv_view(*kvs) =~= m.insert(
                        array_key(),
                        ValueView::Store(StoreView::Array(spec_pushed(reserved_items(m), v@))),
                    ));
                } else {
                    let displaced = kv_insert(kvs, k, v);
                }
            },
            Store::Array { arr } => {
                proof {
                    lemma_array_view(*arr);
                }
                let ghost first = arr@;
                arr.push(v);
                proof {
                    lemma_array_view(*arr);
                    assert(values_view(arr@) =~= values_view(first).push(v@));
                }
            },
        }
    }

    /// Adds `v` to the store: at the end of an array, and under the reserved
    /// key of a keyed store, as [`Store::insert`] under that key does.
    pub fn push(&mut self, v: Value)
        requires
            reserved_ok(old(self)@),
        ensures
            final(self)@ == spec_insert(old(self)@, array_key(), v@),
            old(self).wf() && wf_value(v@) ==> final(self).wf(),
    {
        self.insert(array_key_string(), v)
    }

    /// Takes the value under `k` out of a keyed store and hands it back, if
    /// there is one. An array is left as it is and hands back nothing.
    pub fn remove(&mut self, k: &String) -> (r: Option<Value>)
        ensures
            old(self)@ is Array ==> r is None && final(self)@ == old(self)@,
            old(self)@ matches StoreView::Dict(m) ==> final(self)@ == StoreView::Dict(m.remove(k@))
                && match r {
                Some(v) => m.dom().contains(k@) && v@ == m[k@],
                None => !m.dom().contains(k@),
            },
            old(self).wf() ==> final(self).wf() && (r matches Some(v) ==> wf_value(v@)),
    {
        proof {
            if old(self).wf() && old(self)@ is Dict {
                let m = old(self)@->Dict_0;
                crate::laws::law_remove_keeps_the_reserved_key(m, k@);
                if m.dom().contains(k@) {
                    assert(wf_value(m[k@]));
                }
            }
        }
        match self {
            Store::Dict { kvs } => kv_remove(kvs, k),
            Store::Array { arr: _ } => None,
        }
    }

    /// Whether the store holds nothing.
    #[must_use]
    pub fn is_empty(&self) -> (b: bool)
        ensures
            b <==> self.spec_len() == 0,
    {
        self.len() == 0
    }

    /// The number of entries of a keyed store, or of values of an array.
    pub open spec fn spec_len(&self) -> nat {
        match self@ {
            StoreView::Dict(m) => m.dom().len(),
            StoreView::Array(a) => a.len(),
        }
    }

    /// The number of entries of a keyed store, or of values of an array.
    #[must_use]
    pub fn len(&self) -> (n: usize)
        ensures
            n == self.spec_len(),
            self@ matches StoreView::Dict(m) ==> m.dom().finite(),
    {
        match self {
            Store::Dict { kvs } => kv_len(kvs),
            Store::Array { arr } => {
                proof {
                    lemma_array_view(*arr);
                }
                arr.len()
            },
        }
    }

    /// The value under `k` in a keyed store, if there is one. An array has
    /// no keys and hands back nothing.
    #[must_use]
    pub fn get(&self, k: &String) -> (r: Option<&Value>)
        ensures
            self@ is Array ==> r is None,
            self@ matches StoreView::Dict(m) ==> match r {
                Some(v) => m.dom().contains(k@) && v@ == m[k@],
                None => !m.dom().contains(k@),
            },
    {
        match self {
            Store::Dict { kvs } => kv_get(kvs, k),
            Store::Array { arr: _ } => None,
        }
    }

    /// The value under `k` in a keyed store, if there is one, to be changed
    /// in place: the store afterwards holds under `k` what the caller left
    /// there. An array has no keys, hands back nothing and stays as it is.
    #[must_use]
    pub fn get_mut(&mut self, k: &String) -> (r: Option<&mut Value>)
        ensures
            old(self)@ is Array ==> r is None && final(self)@ == old(self)@,
            old(self)@ matches StoreView::Dict(m) ==> match r {
                Some(v) => m.dom().contains(k@) && (*v)@ == m[k@] && final(self)@
                    == StoreView::Dict(m.insert(k@, (*final(v))@)),
                None => !m.dom().contains(k@) && final(self)@ == old(self)@,
            },
    {
        match self {
            Store::Dict { kvs } => kv_get_mut(kvs, k),
            Store::Array { arr: _ } => None,
        }
    }

    /// Empties the store. Its shape stays.
    pub fn clear(&mut self)
        ensures
            final(self)@.shape() == old(self)@.shape(),
            final(self).spec_len() == 0,
            final(self).wf(),
            final(self)@ matches StoreView::Dict(m) ==> m == Map::<
                Seq<char>,
                ValueView,
            >::empty(),
    {
        match self {
            Store::Dict { kvs } => {
                kv_clear(kvs);
                assert(kv_view(*kvs) =~= Map::empty());
            },
            Store::Array { arr } => {
                arr.clear();
                proof {
                    lemma_array_view(*arr);
                }
            },
        }
    }

    /// The keys of a keyed store, each once, in no particular order. For an
    /// array, the positions of its values in decimal, in order.
    pub fn keys(&self) -> (r: Vec<String>)
        ensures
            self@ matches StoreView::Dict(m) ==> lists_keys(r@, m),
            self@ matches StoreView::Array(a) ==> r@.len() == a.len() && forall|i: int|
                0 <= i < a.len() ==> (#[trigger] r@[i])@ == spec_decimal(i as nat),
    {
        match self {
            Store::Dict { kvs } => kv_keys(kvs),
            Store::Array { arr } => {
                proof {
                    lemma_array_view(*arr);
                }
                let mut out: Vec<String> = Vec::new();
                let mut i: usize = 0;
                while i < arr.len()
                    invariant
                        i <= arr.len(),
                        out@.len() == i,
                        forall|j: int| 0 <= j < i ==> (#[trigger] out@[j])@ == spec_decimal(
                            j as nat,
                        ),
                    decreases arr.len() - i,
                {
                    out.push(decimal_string(i as u128));
                    i = i + 1;
                }
                out
            },
        }
    }

    /// Copies of the values: of a keyed store in the order in which
    /// [`Store::keys`] would name them, of an array in order.
    pub fn values(&self) -> (r: Vec<Value>)
        ensures
            self@ matches StoreView::Dict(m) ==> exists|keys: Seq<String>|
                values_listed(r@, keys, m),
            self@ matches StoreView::Array(a) ==> values_view(r@) == a,
    {
        match self {
            Store::Dict { kvs } => {
                let ghost m = kv_view(*kvs);
                let keys = kv_keys(kvs);
                let mut out: Vec<Value> = Vec::new();
                let mut i: usize = 0;
                while i < keys.len()
                    invariant
                        i <= keys.len(),
                        m == kv_view(*kvs),
                        lists_keys(keys@, m),
                        out@.len() == i,
                        forall|j: int| 0 <= j < i ==> (#[trigger] out@[j])@ == m[keys@[j]@],
                    decreases keys.len() - i,
                {
                    match kv_get(kvs, &keys[i]) {
                        Some(value) => {
                            out.push(value.deep_clone());
                        },
                        None => {
                            assert(m.dom().contains(keys@[i as int]@));
                            unreached::<()>();
                        },
                    }
                    i = i + 1;
                }
                assert(self@ == StoreView::Dict(m));
                assert(values_listed(out@, keys@, self@->Dict_0));
                out
            },
            Store::Array { arr } => {
                proof {
                    lemma_array_view(*arr);
                }
                let mut out: Vec<Value> = Vec::new();
                let mut i: usize = 0;
                while i < arr.len()
                    invariant
                        i <= arr.len(),
                        out@.len() == i,
                        forall|j: int| 0 <= j < i ==> (#[trigger] out@[j])@ == arr@[j]@,
                    decreases arr.len() - i,
                {
                    out.push(arr[i].deep_clone());
                    i = i + 1;
                }
                assert(values_view(out@) =~= values_view(arr@));
                out
            },
        }
    }

    /// Takes the store apart into keys and values: the entries of a keyed
    /// store, each once, in no particular order; the values of an array in
    /// order, each under its position in decimal.
    pub fn into_entries(self) -> (r: Vec<(String, Value)>)
        ensures
            self@ matches StoreView::Dict(m) ==> lists_entries(r@, m),
            self@ matches StoreView::Array(a) ==> r@.len() == a.len() && forall|i: int|
                0 <= i < a.len() ==> (#[trigger] r@[i]).0@ == spec_decimal(i as nat) && r@[i].1@
                    == a[i],
    {
        match self {
            Store::Dict { kvs } => kv_into_entries(kvs),
            Store::Array { arr } => {
                proof {
                    lemma_array_view(arr);
                }
                let mut out: Vec<(String, Value)> = Vec::new();
                for value in it: arr
                    invariant
                        it.seq() == arr@,
                        out@.len() == it.index(),
                        forall|j: int|
                            0 <= j < out@.len() ==> (#[trigger] out@[j]).0@ == spec_decimal(
                                j as nat,
                            ) && out@[j].1@ == arr@[j]@,
                {
                    let position = out.len();
                    out.push((decimal_string(position as u128), value));
                }
                out
            },
        }
    }

    /// The value under `k`, which must be there.
    pub fn index(&self, k: &String) -> (r: &Value)
        requires
            self@ matches StoreView::Dict(m) && m.dom().contains(k@),
        ensures
            r@ == self@->Dict_0[k@],
    {
        match self.get(k) {
            Some(value) => value,
            None => unreached(),
        }
    }

    /// The value under `k`, which must be there, to be changed in place.
    pub fn index_mut(&mut self, k: &String) -> (r: &mut Value)
        requires
            old(self)@ matches StoreView::Dict(m) && m.dom().contains(k@),
        ensures
            (*r)@ == old(self)@->Dict_0[k@],
            final(self)@ == StoreView::Dict(old(self)@->Dict_0.insert(k@, (*final(r))@)),
    {
        match self.get_mut(k) {
            Some(value) => value,
            None => unreached(),
        }
    }

    /// A copy with the same content, nested stores included.
    pub fn deep_clone(&self) -> (r: Store)
        ensures
            r@ == self@,
        decreases self,
    {
        match self {
            Store::Dict { kvs } => Store::Dict { kvs: kvs.clone() },
            Store::Array { arr } => {
                let mut out: Vec<Value> = Vec::new();
                let mut i: usize = 0;
                while i < arr.len()
                    invariant
                        i <= arr.len(),
                        out@.len() == i,
                        self is Array && self->arr == *arr,
                        forall|j: int| 0 <= j < i ==> out@[j]@ == arr@[j]@,
                    decreases arr.len() - i,
                {
                    out.push(arr[i].deep_clone());
                    i = i + 1;
                }
                let copy = Store::Array { arr: out };
                assert(copy@->Array_0 =~= self@->Array_0);
                copy
            },
        }
    }
}

impl Clone for Store {
    fn clone(&self) -> (r: Store)
        ensures
            r@ == self@,
    {
        self.deep_clone()
    }
}

} // verus!
