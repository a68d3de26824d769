//! The values a store can hold, and their one-byte tags.
use crate::buf::extend;
use crate::cursor::Cursor;
use crate::format::{
    encodes_value, flat_layout, lays_out_store, lays_out_value, spec_deser_ch, spec_deser_int,
    spec_deser_item, spec_deser_store, spec_deser_value, spec_resolve, spec_ser_store,
    spec_ser_value, spec_ty_of, tail, StoreLayout, ValueLayout,
};
use crate::integer::{Integer, IntegerSerError};
use crate::store::{Store, StoreError, StoreView};
use crate::text::{char_from_u32, string_from_utf8};
use std::string::FromUtf8Error;
use vstd::pervasive::unreached;
use vstd::prelude::*;
use vstd::utf8::char_u32_cast;

verus! {

/// A value: a scalar, a run of text or bytes, or a nested store.
#[derive(Debug, PartialEq, Eq)]
pub enum Value {
    Ch(char),
    String(String),
    Binary(Vec<u8>),
    Bool(bool),
    Int(Integer),
    Store(Store),
}

/// The mathematical content of a [`Value`].
pub enum ValueView {
    Ch(char),
    String(Seq<char>),
    Binary(Seq<u8>),
    Bool(bool),
    Int(Integer),
    Store(StoreView),
}

/// The kind of a value, which the top three bits of its first byte name.
#[derive(Copy, Clone, Debug, PartialEq, Eq, Structural)]
pub enum ValueTy {
    Ch,
    String,
    Binary,
    Bool,
    Int,
    Store,
}

/// Why a value could not be decoded.
#[derive(Debug)]
pub enum ValueSerError {
    /// The top three bits of the first byte name no kind; they are attached.
    InvalidType(u8),
    /// The value was announced with a length of zero.
    Empty,
    /// The integer inside a number or a character could not be read.
    IntegerSerFailure(IntegerSerError),
    /// The input ended inside the value.
    NotEnoughBytes,
    /// The number read for a character is no Unicode scalar value.
    InvalidCharacter,
    /// The bytes of a string are not UTF-8.
    NonUTF8String(FromUtf8Error),
    /// A boolean, whose whole state sits in its first byte, was announced
    /// with further content.
    UnexpectedContent,
    /// A string or bytes stand where no length is announced for them.
    UnknownLength,
    /// The nested store could not be decoded.
    Store(Box<StoreError>),
}

impl From<IntegerSerError> for ValueSerError {
    /// A failure to read an integer, as a failure of the value.
    fn from(value: IntegerSerError) -> (r: ValueSerError)
        ensures
            r == ValueSerError::IntegerSerFailure(value),
    {
        ValueSerError::IntegerSerFailure(value)
    }
}

impl vstd::std_specs::convert::FromSpecImpl<IntegerSerError> for ValueSerError {
    open spec fn obeys_from_spec() -> bool {
        true
    }

    open spec fn from_spec(value: IntegerSerError) -> ValueSerError {
        ValueSerError::IntegerSerFailure(value)
    }
}

impl From<FromUtf8Error> for ValueSerError {
    /// Bytes that are not UTF-8, as a failure of the value.
    fn from(value: FromUtf8Error) -> (r: ValueSerError)
        ensures
            r == ValueSerError::NonUTF8String(value),
    {
        ValueSerError::NonUTF8String(value)
    }
}

impl vstd::std_specs::convert::FromSpecImpl<FromUtf8Error> for ValueSerError {
    open spec fn obeys_from_spec() -> bool {
        true
    }

    open spec fn from_spec(value: FromUtf8Error) -> ValueSerError {
        ValueSerError::NonUTF8String(value)
    }
}

/// Where the decoder of a value stands: before the first byte, right behind
/// it, or inside the content.
#[derive(Copy, Clone, Debug)]
pub enum DeserState {
    Start,
    FoundType(ValueTy, u8),
    FindingContent(ValueTy),
}

impl DeserState {
    /// Takes one byte. At the start the byte names the kind; after that it
    /// is content and goes to the end of `tmp`.
    pub fn step(self, byte: u8, tmp: &mut Vec<u8>) -> (r: Result<DeserState, ValueSerError>)
        ensures
            match self {
                DeserState::Start => final(tmp)@ == old(tmp)@ && match r {
                    Ok(next) => next matches DeserState::FoundType(ty, first) && first == byte
                        && spec_ty_of(byte) == Ok::<ValueTy, ValueSerError>(ty),
                    Err(e) => spec_ty_of(byte) == Err::<ValueTy, ValueSerError>(e),
                },
                DeserState::FoundType(ty, _) => final(tmp)@ == old(tmp)@.push(byte) && (r matches Ok(
                    DeserState::FindingContent(next),
                ) && next == ty),
                DeserState::FindingContent(ty) => final(tmp)@ == old(tmp)@.push(byte) && (
                r matches Ok(DeserState::FindingContent(next)) && next == ty),
            },
    {
        match self {
            DeserState::Start => {
                match ValueTy::from_tag(byte) {
                    Ok(ty) => Ok(DeserState::FoundType(ty, byte)),
                    Err(e) => Err(e),
                }
            },
            DeserState::FoundType(ty, _) => {
                tmp.push(byte);
                Ok(DeserState::FindingContent(ty))
            },
            DeserState::FindingContent(ty) => {
                tmp.push(byte);
                Ok(DeserState::FindingContent(ty))
            },
        }
    }

    /// Makes the value once the announced bytes are used up. Nothing read
    /// is an empty value; a first byte alone is resolved from its niche;
    /// otherwise `tmp` is the content.
    pub fn finish(self, tmp: Vec<u8>) -> (r: Result<Value, ValueSerError>)
        requires
            self matches DeserState::FoundType(ty, _) ==> (ty is String || ty is Binary || ty
                is Bool) && tmp@.len() == 0,
            self matches DeserState::FindingContent(ty) ==> (ty is String || ty is Binary || ty
                is Bool) && tmp@.len() > 0,
        ensures
            r matches Ok(v) ==> !(v is Store),
            self is Start ==> r matches Err(ValueSerError::Empty),
            self matches DeserState::FoundType(ty, first) ==> match spec_resolve(ty, first, tmp@) {
                Ok(l) => r matches Ok(v) && v@ == l@,
                Err(e) => r matches Err(x) && x == e,
            },
            self matches DeserState::FindingContent(ty) ==> match spec_resolve(ty, 0, tmp@) {
                Ok(l) => r matches Ok(v) && v@ == l@,
                Err(e) => r matches Err(x) && x == e,
            },
    {
        reveal(spec_resolve);
        match self {
            DeserState::Start => Err(ValueSerError::Empty),
            DeserState::FoundType(ty, first) => {
                let niche = first & 0b0001_1111;
                assert(first & 0b0001_1111 == first % 32) by (bit_vector);
                match ty {
                    ValueTy::Bool => Ok(Value::Bool(niche > 0)),
                    ValueTy::String => match string_from_utf8(tmp) {
                        Ok(s) => Ok(Value::String(s)),
                        Err(e) => Err(ValueSerError::NonUTF8String(e)),
                    },
                    ValueTy::Binary => Ok(Value::Binary(tmp)),
                    _ => unreached(),
                }
            },
            DeserState::FindingContent(ty) => match ty {
                ValueTy::Bool => Err(ValueSerError::UnexpectedContent),
                ValueTy::String => match string_from_utf8(tmp) {
                    Ok(s) => Ok(Value::String(s)),
                    Err(e) => Err(ValueSerError::NonUTF8String(e)),
                },
                ValueTy::Binary => Ok(Value::Binary(tmp)),
                _ => unreached(),
            },
        }
    }
}

impl ValueView {
    /// The kind of the value.
    pub open spec fn ty(self) -> ValueTy {
        match self {
            ValueView::Ch(_) => ValueTy::Ch,
            ValueView::String(_) => ValueTy::String,
            ValueView::Binary(_) => ValueTy::Binary,
            ValueView::Bool(_) => ValueTy::Bool,
            ValueView::Int(_) => ValueTy::Int,
            ValueView::Store(_) => ValueTy::Store,
        }
    }
}

impl ValueTy {
    /// The kind that the top three bits of `byte` name.
    pub fn from_tag(byte: u8) -> (r: Result<ValueTy, ValueSerError>)
        ensures
            match r {
                Ok(ty) => spec_ty_of(byte) == Ok::<ValueTy, ValueSerError>(ty),
                Err(e) => spec_ty_of(byte) == Err::<ValueTy, ValueSerError>(e),
            },
    {
        let ty = byte >> 5;
        assert(byte >> 5 == byte / 32) by (bit_vector);
        match ty {
            0b000 => Ok(ValueTy::Ch),
            0b001 => Ok(ValueTy::String),
            0b010 => Ok(ValueTy::Binary),
            0b011 => Ok(ValueTy::Bool),
            0b100 => Ok(ValueTy::Int),
            0b101 => Ok(ValueTy::Store),
            _ => Err(ValueSerError::InvalidType(ty)),
        }
    }

    /// The number of the kind.
    pub open spec fn spec_id(self) -> u8 {
        match self {
            ValueTy::Ch => 0,
            ValueTy::String => 1,
            ValueTy::Binary => 2,
            ValueTy::Bool => 3,
            ValueTy::Int => 4,
            ValueTy::Store => 5,
        }
    }

    /// The number of the kind, which is what the top three bits of a value's
    /// first byte hold.
    #[must_use]
    pub fn id(self) -> (r: u8)
        ensures
            r == self.spec_id(),
            r < 8,
    {
        match self {
            ValueTy::Ch => 0b000,
            ValueTy::String => 0b001,
            ValueTy::Binary => 0b010,
            ValueTy::Bool => 0b011,
            ValueTy::Int => 0b100,
            ValueTy::Store => 0b101,
        }
    }
}

impl View for Value {
    type V = ValueView;

    open spec fn view(&self) -> ValueView
        decreases self,
    {
        match self {
            Value::Ch(c) => ValueView::Ch(*c),
            Value::String(s) => ValueView::String(s@),
            Value::Binary(b) => ValueView::Binary(b@),
            Value::Bool(b) => ValueView::Bool(*b),
            Value::Int(i) => ValueView::Int(*i),
            Value::Store(s) => ValueView::Store(s.view()),
        }
    }
}

impl Value {
    /// The kind of the value.
    pub fn to_ty(&self) -> (r: ValueTy)
        ensures
            r == self@.ty(),
    {
        match self {
            Value::Ch(_) => ValueTy::Ch,
            Value::String(_) => ValueTy::String,
            Value::Binary(_) => ValueTy::Binary,
            Value::Bool(_) => ValueTy::Bool,
            Value::Int(_) => ValueTy::Int,
            Value::Store(_) => ValueTy::Store,
        }
    }

    /// Encodes the value: one byte with the kind in its top three bits, then
    /// the content. A boolean has no content; it sits in the lowest bit of
    /// that byte. A character is written as the integer of its code, a
    /// string as its UTF-8 bytes, bytes as they are, a nested store in full.
    ///
    /// Encoding never fails.
    pub fn serialise(&self) -> (r: Result<Vec<u8>, ValueSerError>)
        ensures
            r matches Ok(bytes) && encodes_value(self@, bytes@) && (!(self is Store) ==> bytes@
                == spec_ser_value(flat_layout(self@))),
        decreases self@, 0nat,
    {
        let mut res: Vec<u8> = Vec::new();
        let id = self.to_ty().id();
        let ty = id << 5;
        assert(id << 5 == id * 32) by (bit_vector)
            requires
                id < 8,
        ;
        match self {
            Value::Bool(b) => {
                let niche: u8 = if *b {
                    1
                } else {
                    0
                };
                assert(ty | niche == ty + niche) by (bit_vector)
                    requires
                        ty == 96,
                        niche <= 1,
                ;
                res.push(ty | niche);
                proof {
                    let l = ValueLayout::Bool(*b);
                    assert(res@ =~= spec_ser_value(l));
                    assert(lays_out_value(l, self@));
                }
                Ok(res)
            },
            Value::Ch(ch) => {
                res.push(ty);
                let code = Integer::u32(*ch as u32).ser();
                extend(&mut res, code.as_slice());
                let total = res.len();
                proof {
                    let l = ValueLayout::Ch(*ch);
                    assert(res@ =~= spec_ser_value(l));
                    assert(res@.len() == total);
                    assert(lays_out_value(l, self@));
                }
                Ok(res)
            },
            Value::String(s) => {
                res.push(ty);
                extend(&mut res, s.as_str().as_bytes());
                let total = res.len();
                proof {
                    let l = ValueLayout::String(s@);
                    assert(res@ =~= spec_ser_value(l));
                    assert(res@.len() == total);
                    assert(lays_out_value(l, self@));
                }
                Ok(res)
            },
            Value::Binary(b) => {
                res.push(ty);
                extend(&mut res, b.as_slice());
                let total = res.len();
                proof {
                    let l = ValueLayout::Binary(b@);
                    assert(res@ =~= spec_ser_value(l));
                    assert(res@.len() == total);
                    assert(lays_out_value(l, self@));
                }
                Ok(res)
            },
            Value::Int(i) => {
                res.push(ty);
                let code = i.ser();
                extend(&mut res, code.as_slice());
                let total = res.len();
                proof {
                    let l = ValueLayout::Int(*i);
                    assert(res@ =~= spec_ser_value(l));
                    assert(res@.len() == total);
                    assert(lays_out_value(l, self@));
                }
                Ok(res)
            },
            Value::Store(s) => {
                res.push(ty);
                proof {
                    let v = self@;
                    assert(v == ValueView::Store(s@));
                    assert(decreases_to!(v => v->Store_0));
                }
                let inner = match s.ser() {
                    Ok(inner) => inner,
                    Err(e) => {
                        return Err(ValueSerError::Store(Box::new(e)));
                    },
                };
                extend(&mut res, inner.as_slice());
                let total = res.len();
                proof {
                    let o = choose|o: StoreLayout|
                        lays_out_store(o, s@) && inner@ == spec_ser_store(o);
                    let l = ValueLayout::Store(o);
                    assert(res@ =~= spec_ser_value(l));
                    assert(res@.len() == total);
                    assert(lays_out_value(l, self@));
                }
                Ok(res)
            },
        }
    }

    /// Decodes a value that was announced with `len` bytes.
    ///
    /// The first byte names the kind. A number, a character and a nested
    /// store say themselves where they end: they are read at once and `len`
    /// is not consulted further. Otherwise `len` bytes are taken in all: a
    /// boolean is the lowest five bits of the first byte and must have no
    /// content behind it, a string must be UTF-8, bytes are taken as they are.
    pub fn deserialise(bytes: &mut Cursor, len: usize) -> (r: Result<Value, ValueSerError>)
        ensures
            final(bytes).bytes() == old(bytes).bytes(),
            final(bytes).pos() >= old(bytes).pos(),
            len == 0 ==> final(bytes).pos() == old(bytes).pos() && final(bytes)@ == old(bytes)@,
            r matches Ok(v) ==> crate::format::wf_value(v@) && crate::format::lengths_known_value(
                v@,
            ),
            match spec_deser_value(old(bytes)@, len as nat) {
                Ok((l, n)) => r matches Ok(v) && v@ == l@ && final(bytes)@ == old(bytes)@.skip(
                    n as int,
                ) && final(bytes).pos() == old(bytes).pos() + n,
                Err(e) => r matches Err(x) && x == e,
            },
        decreases old(bytes)@.len(), 0nat,
    {
        let ghost b = bytes@;
        let mut tmp: Vec<u8> = Vec::new();
        if len == 0 {
            return DeserState::Start.finish(tmp);
        }
        let first = match bytes.next() {
            Some(first) => first,
            None => {
                return Err(ValueSerError::NotEnoughBytes);
            },
        };
        let state = match DeserState::Start.step(first, &mut tmp) {
            Ok(state) => state,
            Err(e) => {
                return Err(e);
            },
        };
        proof {
            old(bytes).lemma_pos_in_bounds();
            assert(bytes@ =~= tail(b, 1));
        }
        match state {
            DeserState::FoundType(ValueTy::Ch, _) => {
                let r = Value::deser_ch(bytes);
                proof {
                    bytes.lemma_pos_in_bounds();
                    if spec_deser_ch(tail(b, 1)) is Ok {
                        let n = spec_deser_ch(tail(b, 1))->Ok_0.1;
                        assert(b.skip(1).skip(n as int) =~= b.skip(n as int + 1));
                    }
                }
                r
            },
            DeserState::FoundType(ValueTy::Int, _) => {
                let r = Value::deser_int(bytes);
                proof {
                    bytes.lemma_pos_in_bounds();
                    if spec_deser_int(tail(b, 1)) is Ok {
                        let n = spec_deser_int(tail(b, 1))->Ok_0.1;
                        assert(b.skip(1).skip(n as int) =~= b.skip(n as int + 1));
                    }
                }
                r
            },
            DeserState::FoundType(ValueTy::Store, _) => {
                match Store::deser(bytes) {
                    Ok(store) => {
                        proof {
                            let n = spec_deser_store(tail(b, 1))->Ok_0.1;
                            bytes.lemma_pos_in_bounds();
                            assert(b.skip(1).skip(n as int) =~= b.skip(n as int + 1));
                        }
                        Ok(Value::Store(store))
                    },
                    Err(e) => Err(ValueSerError::Store(Box::new(e))),
                }
            },
            _ => {
                let r = Value::deser_framed(bytes, state, len);
                proof {
                    if b.len() >= len {
                        assert(b.skip(1).take(len - 1) =~= b.subrange(1, len as int));
                        assert(b.skip(1).skip(len - 1) =~= b.skip(len as int));
                    }
                }
                r
            },
        }
    }

    /// Decodes a value for which no length is announced, as it stands in an
    /// array.
    ///
    /// The first byte names the kind. A boolean is that byte; a number, a
    /// character and a nested store say themselves where they end. A string
    /// and bytes do not: they are refused, and the cursor stays where it was.
    pub fn deser(bytes: &mut Cursor) -> (r: Result<Value, ValueSerError>)
        ensures
            final(bytes).bytes() == old(bytes).bytes(),
            final(bytes).pos() >= old(bytes).pos(),
            r matches Ok(v) ==> crate::store_codec::item_wf(v@),
            r matches Err(ValueSerError::UnknownLength) ==> final(bytes).pos() == old(
                bytes,
            ).pos(),
            match spec_deser_item(old(bytes)@) {
                Ok((l, n)) => r matches Ok(v) && v@ == l@ && final(bytes)@ == old(bytes)@.skip(
                    n as int,
                ) && final(bytes).pos() == old(bytes).pos() + n,
                Err(e) => r matches Err(x) && x == e,
            },
        decreases old(bytes)@.len(), 1nat,
    {
        let first = match bytes.peek() {
            Some(first) => first,
            None => {
                return Err(ValueSerError::NotEnoughBytes);
            },
        };
        match ValueTy::from_tag(first) {
            Err(e) => {
                return Err(e);
            },
            Ok(ValueTy::String) => {
                return Err(ValueSerError::UnknownLength);
            },
            Ok(ValueTy::Binary) => {
                return Err(ValueSerError::UnknownLength);
            },
            Ok(_) => {},
        }
        let r = Value::deserialise(bytes, 1);
        proof {
            reveal(spec_resolve);
            reveal(crate::format::spec_deser_ch);
            reveal(crate::format::spec_deser_int);
        }
        r
    }

    /// Reads the content of a value whose length the framing supplies: the
    /// `len - 1` bytes behind the first one, byte by byte.
    fn deser_framed(bytes: &mut Cursor, found: DeserState, len: usize) -> (r: Result<
        Value,
        ValueSerError,
    >)
        requires
            len >= 1,
            found matches DeserState::FoundType(ty, _) && (ty is String || ty is Binary || ty
                is Bool),
        ensures
            final(bytes).bytes() == old(bytes).bytes(),
            final(bytes).pos() >= old(bytes).pos(),
            r matches Ok(v) ==> !(v is Store),
            old(bytes)@.len() < len - 1 ==> r matches Err(ValueSerError::NotEnoughBytes),
            old(bytes)@.len() >= len - 1 ==> final(bytes)@ == old(bytes)@.skip(len - 1)
                && final(bytes).pos() == old(bytes).pos() + len - 1 && match spec_resolve(
                found->FoundType_0,
                found->FoundType_1,
                old(bytes)@.take(len - 1),
            ) {
                Ok(l) => r matches Ok(v) && v@ == l@,
                Err(e) => r matches Err(x) && x == e,
            },
    {
        reveal(spec_resolve);
        let ghost b = bytes@;
        let mut state = found;
        let mut tmp: Vec<u8> = Vec::new();
        let mut i: usize = 1;
        while i < len
            invariant
                1 <= i <= len,
                i - 1 <= b.len(),
                b == old(bytes)@,
                bytes.bytes() == old(bytes).bytes(),
                bytes.pos() == old(bytes).pos() + i - 1,
                bytes@ == b.skip(i - 1),
                tmp@ == b.take(i - 1),
                i == 1 ==> state == found,
                i > 1 ==> state == DeserState::FindingContent(found->FoundType_0),
                found matches DeserState::FoundType(ty, _) && (ty is String || ty is Binary || ty
                    is Bool),
            decreases len - i,
        {
            let byte = match bytes.next() {
                Some(byte) => byte,
                None => {
                    return Err(ValueSerError::NotEnoughBytes);
                },
            };
            state =
            match state.step(byte, &mut tmp) {
                Ok(next) => next,
                Err(e) => {
                    return Err(e);
                },
            };
            proof {
                assert(b.skip(i - 1).skip(1) =~= b.skip(i as int));
                assert(tmp@ =~= b.take(i as int));
            }
            i = i + 1;
        }
        state.finish(tmp)
    }

    /// Reads the content of a character: the integer of its code.
    fn deser_ch(bytes: &mut Cursor) -> (r: Result<Value, ValueSerError>)
        ensures
            final(bytes).bytes() == old(bytes).bytes(),
            final(bytes).pos() >= old(bytes).pos(),
            r matches Ok(v) ==> v is Ch,
            match spec_deser_ch(old(bytes)@) {
                Ok((l, n)) => r matches Ok(v) && v@ == l@ && final(bytes)@ == old(bytes)@.skip(
                    n as int,
                ) && final(bytes).pos() == old(bytes).pos() + n,
                Err(e) => r matches Err(x) && x == e,
            },
    {
        reveal(spec_deser_ch);
        let number = match Integer::deser(bytes) {
            Ok(number) => number,
            Err(e) => {
                return Err(ValueSerError::IntegerSerFailure(e));
            },
        };
        let code = match number.to_u32() {
            Ok(code) => code,
            Err(e) => {
                return Err(ValueSerError::IntegerSerFailure(e));
            },
        };
        match char_from_u32(code) {
            Some(ch) => {
                proof {
                    char_u32_cast(ch, code);
                }
                Ok(Value::Ch(ch))
            },
            None => Err(ValueSerError::InvalidCharacter),
        }
    }

    /// Reads the content of a number.
    fn deser_int(bytes: &mut Cursor) -> (r: Result<Value, ValueSerError>)
        ensures
            final(bytes).bytes() == old(bytes).bytes(),
            final(bytes).pos() >= old(bytes).pos(),
            r matches Ok(v) ==> v is Int,
            match spec_deser_int(old(bytes)@) {
                Ok((l, n)) => r matches Ok(v) && v@ == l@ && final(bytes)@ == old(bytes)@.skip(
                    n as int,
                ) && final(bytes).pos() == old(bytes).pos() + n,
                Err(e) => r matches Err(x) && x == e,
            },
    {
        reveal(spec_deser_int);
        match Integer::deser(bytes) {
            Ok(number) => Ok(Value::Int(number)),
            Err(e) => Err(ValueSerError::IntegerSerFailure(e)),
        }
    }

    /// Whether the value is an array-shaped store.
    pub fn is_array(&self) -> (b: bool)
        ensures
            b <==> self@ matches ValueView::Store(StoreView::Array(_)),
    {
        match self {
            Value::Store(Store::Array { .. }) => true,
            _ => false,
        }
    }

    /// Whether the reserved key holds an array in every keyed store inside
    /// the value, at any depth.
    pub fn is_valid(&self) -> (b: bool)
        ensures
            b == crate::format::wf_value(self@),
        decreases self@, 0nat,
    {
        match self {
            Value::Store(s) => {
                proof {
                    let v = self@;
                    assert(v == ValueView::Store(s@));
                    assert(decreases_to!(v => v->Store_0));
                }
                s.is_valid()
            },
            _ => true,
        }
    }

    /// A copy with the same content, nested stores included.
    pub fn deep_clone(&self) -> (r: Value)
        ensures
            r@ == self@,
        decreases self,
    {
        match self {
            Value::Ch(c) => Value::Ch(*c),
            Value::String(s) => Value::String(s.clone()),
            Value::Binary(b) => {
                let copy = b.clone();
                assert(copy@ =~= b@);
                Value::Binary(copy)
            },
            Value::Bool(b) => Value::Bool(*b),
            Value::Int(i) => Value::Int(*i),
            Value::Store(s) => Value::Store(s.deep_clone()),
        }
    }
}

impl Clone for Value {
    fn clone(&self) -> (r: Value)
        ensures
            r@ == self@,
    {
        self.deep_clone()
    }
}

} // verus!
