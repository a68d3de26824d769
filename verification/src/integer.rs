//! Signed integers of up to 128 bits of magnitude, and their byte encoding.
//!
//! An integer is written as a sign and a magnitude. The magnitude takes the
//! narrowest of 1, 2, 4, 8 or 16 bytes that holds it, most significant byte
//! first. Sign and width travel either out of band or in one header byte:
//! the top bit is set for a negative sign and the low seven bits hold the
//! width. Only that narrowest form is accepted when decoding.
use crate::cursor::Cursor;
use vstd::prelude::*;

verus! {

/// The sign carried next to a magnitude.
#[derive(Copy, Clone, Debug, PartialEq, Eq, Structural)]
pub enum SignedState {
    Positive,
    Negative,
}

/// A sign and a magnitude. Two integers are equal when both parts are, so a
/// negative zero is a value of its own and survives encoding.
#[derive(Copy, Clone, Debug, PartialEq, Eq, Structural)]
pub struct Integer {
    pub signed_state: SignedState,
    pub magnitude: u128,
}

/// Why an integer could not be decoded or narrowed.
#[derive(Copy, Clone, Debug, PartialEq, Eq, Structural)]
pub enum IntegerSerError {
    /// The width is none of 1, 2, 4, 8 and 16; the offending byte is attached.
    InvalidWidth(u8),
    /// The input ended before the header or inside the magnitude.
    NotEnoughBytes,
    /// The magnitude would have fitted in fewer bytes than were used.
    NonCanonical,
    /// The value lies outside the range of the requested machine type.
    OutOfRange,
}

/// 256 to the power `n`.
pub open spec fn pow256(n: nat) -> nat
    decreases n,
{
    if n == 0 {
        1
    } else {
        256 * pow256((n - 1) as nat)
    }
}

/// Whether `w` is one of the widths a magnitude may take.
pub open spec fn is_width(w: nat) -> bool {
    w == 1 || w == 2 || w == 4 || w == 8 || w == 16
}

/// The narrowest permitted width, in bytes, that holds `m`.
pub open spec fn spec_width(m: nat) -> nat {
    if m < 0x100 {
        1
    } else if m < 0x1_0000 {
        2
    } else if m < 0x1_0000_0000 {
        4
    } else if m < 0x1_0000_0000_0000_0000 {
        8
    } else {
        16
    }
}

/// The low `w` bytes of `m`, most significant first.
pub open spec fn be_bytes(m: nat, w: nat) -> Seq<u8>
    decreases w,
{
    if w == 0 {
        Seq::empty()
    } else {
        be_bytes(m / 256, (w - 1) as nat).push((m % 256) as u8)
    }
}

/// The number that `b` spells, most significant byte first.
pub open spec fn be_value(b: Seq<u8>) -> nat
    decreases b.len(),
{
    if b.len() == 0 {
        0
    } else {
        be_value(b.drop_last()) * 256 + b.last() as nat
    }
}

/// The header byte for a sign and a width.
pub open spec fn spec_header(sign: SignedState, w: nat) -> u8 {
    if sign is Negative {
        (128 + w) as u8
    } else {
        w as u8
    }
}

/// The sign that a header byte announces.
pub open spec fn header_sign(h: u8) -> SignedState {
    if h >= 128 {
        SignedState::Negative
    } else {
        SignedState::Positive
    }
}

/// The width that a header byte announces.
pub open spec fn header_width(h: u8) -> nat {
    (h % 128) as nat
}

/// What decoding a magnitude of announced sign and width from the front of
/// `b` yields: the integer and the number of bytes used, or the failure.
#[verifier::opaque]
pub open spec fn spec_deser_magnitude(sign: SignedState, w: u8, b: Seq<u8>) -> Result<
    (Integer, nat),
    IntegerSerError,
> {
    if !is_width(w as nat) {
        Err(IntegerSerError::InvalidWidth(w))
    } else if b.len() < w {
        Err(IntegerSerError::NotEnoughBytes)
    } else {
        let m = be_value(b.take(w as int));
        if spec_width(m) != w {
            Err(IntegerSerError::NonCanonical)
        } else {
            Ok((Integer { signed_state: sign, magnitude: m as u128 }, w as nat))
        }
    }
}

/// What decoding a header byte and the magnitude behind it from the front of
/// `b` yields.
#[verifier::opaque]
pub open spec fn spec_deser(b: Seq<u8>) -> Result<(Integer, nat), IntegerSerError> {
    if b.len() == 0 {
        Err(IntegerSerError::NotEnoughBytes)
    } else if !is_width(header_width(b[0])) {
        Err(IntegerSerError::InvalidWidth(b[0]))
    } else {
        match spec_deser_magnitude(header_sign(b[0]), (b[0] % 128) as u8, b.skip(1)) {
            Ok((i, n)) => Ok((i, n + 1)),
            Err(e) => Err(e),
        }
    }
}

pub proof fn lemma_pow256_values()
    ensures
        pow256(0) == 1,
        pow256(1) == 0x100,
        pow256(2) == 0x1_0000,
        pow256(4) == 0x1_0000_0000,
        pow256(8) == 0x1_0000_0000_0000_0000,
        pow256(16) == 0x1_0000_0000_0000_0000_0000_0000_0000_0000,
{
    reveal_with_fuel(pow256, 17);
}

pub proof fn lemma_pow256_monotonic(a: nat, b: nat)
    requires
        a <= b,
    ensures
        0 < pow256(a) <= pow256(b),
    decreases b,
{
    if b == 0 {
    } else if a == b {
        lemma_pow256_monotonic((b - 1) as nat, (b - 1) as nat);
    } else {
        lemma_pow256_monotonic(a, (b - 1) as nat);
    }
}

pub proof fn lemma_be_bytes_len(m: nat, w: nat)
    ensures
        be_bytes(m, w).len() == w,
    decreases w,
{
    if w > 0 {
        lemma_be_bytes_len(m / 256, (w - 1) as nat);
    }
}

pub proof fn lemma_be_value_bound(b: Seq<u8>)
    ensures
        be_value(b) < pow256(b.len()),
    decreases b.len(),
{
    if b.len() > 0 {
        lemma_be_value_bound(b.drop_last());
    }
}

/// Reading back the bytes of a magnitude that fits in `w` bytes gives it again.
pub proof fn lemma_be_round_trip(m: nat, w: nat)
    requires
        m < pow256(w),
    ensures
        be_value(be_bytes(m, w)) == m,
    decreases w,
{
    if w > 0 {
        let front = be_bytes(m / 256, (w - 1) as nat);
        let all = front.push((m % 256) as u8);
        lemma_be_round_trip(m / 256, (w - 1) as nat);
        assert(all.drop_last() =~= front);
        assert(all.last() == (m % 256) as u8);
    }
}

impl Integer {
    /// The number this integer stands for.
    pub open spec fn value(self) -> int {
        if self.signed_state is Negative {
            -(self.magnitude as int)
        } else {
            self.magnitude as int
        }
    }

    /// The self-describing encoding: header byte, then the magnitude.
    #[verifier::opaque]
    pub open spec fn spec_ser(self) -> Seq<u8> {
        let w = spec_width(self.magnitude as nat);
        seq![spec_header(self.signed_state, w)] + be_bytes(self.magnitude as nat, w)
    }

    /// An integer from its two parts.
    pub fn new(signed_state: SignedState, magnitude: u128) -> (r: Integer)
        ensures
            r == (Integer { signed_state, magnitude }),
    {
        Integer { signed_state, magnitude }
    }

    /// Whether the sign is negative.
    pub fn is_negative(&self) -> (b: bool)
        ensures
            b <==> self.signed_state is Negative,
    {
        match self.signed_state {
            SignedState::Negative => true,
            SignedState::Positive => false,
        }
    }

    /// The number of bytes the magnitude is written in.
    pub fn width(&self) -> (w: u8)
        ensures
            w == spec_width(self.magnitude as nat),
            is_width(w as nat),
    {
        let m = self.magnitude;
        if m < 0x100 {
            1
        } else if m < 0x1_0000 {
            2
        } else if m < 0x1_0000_0000 {
            4
        } else if m < 0x1_0000_0000_0000_0000 {
            8
        } else {
            16
        }
    }

    /// The sign, and the magnitude in its narrowest width, for a caller that
    /// stores sign and width elsewhere. The width is the length of the bytes.
    pub fn ser_magnitude(&self) -> (r: (SignedState, Vec<u8>))
        ensures
            r.0 == self.signed_state,
            r.1@ == be_bytes(self.magnitude as nat, spec_width(self.magnitude as nat)),
            r.1@.len() == spec_width(self.magnitude as nat),
    {
        let mut out: Vec<u8> = Vec::new();
        let w = self.width();
        push_be(&mut out, self.magnitude, w);
        proof {
            lemma_be_bytes_len(self.magnitude as nat, w as nat);
            assert(Seq::<u8>::empty() + be_bytes(self.magnitude as nat, w as nat) =~= be_bytes(
                self.magnitude as nat,
                w as nat,
            ));
        }
        (self.signed_state, out)
    }

    /// The self-describing encoding: a header byte with sign and width, then
    /// the magnitude.
    pub fn ser(&self) -> (r: Vec<u8>)
        ensures
            r@ == self.spec_ser(),
            r@.len() == 1 + spec_width(self.magnitude as nat),
    {
        let mut out: Vec<u8> = Vec::new();
        let w = self.width();
        let header: u8 = if self.is_negative() {
            128 + w
        } else {
            w
        };
        out.push(header);
        push_be(&mut out, self.magnitude, w);
        proof {
            reveal(Integer::spec_ser);
            lemma_be_bytes_len(self.magnitude as nat, w as nat);
            assert(out@ =~= self.spec_ser());
        }
        out
    }

    /// Reads a magnitude whose sign and width the caller already knows.
    ///
    /// On success exactly `width` bytes are consumed. On failure the cursor
    /// has not moved.
    pub fn deser_magnitude(signed_state: SignedState, width: u8, cursor: &mut Cursor) -> (r: Result<
        Integer,
        IntegerSerError,
    >)
        ensures
            final(cursor).bytes() == old(cursor).bytes(),
            match spec_deser_magnitude(signed_state, width, old(cursor)@) {
                Ok((i, n)) => r == Ok::<Integer, IntegerSerError>(i) && final(cursor)@ == old(
                    cursor,
                )@.skip(n as int) && final(cursor).pos() == old(cursor).pos() + n,
                Err(e) => r == Err::<Integer, IntegerSerError>(e) && final(cursor).pos() == old(
                    cursor,
                ).pos() && final(cursor)@ == old(cursor)@,
            },
    {
        reveal(spec_deser_magnitude);
        if !(width == 1 || width == 2 || width == 4 || width == 8 || width == 16) {
            return Err(IntegerSerError::InvalidWidth(width));
        }
        if cursor.remaining() < width as usize {
            return Err(IntegerSerError::NotEnoughBytes);
        }
        let ghost start = cursor@;
        let mut probe = Cursor::new_at(cursor);
        let mut m: u128 = 0;
        let mut i: u8 = 0;
        while i < width
            invariant
                i <= width <= 16,
                width <= start.len(),
                probe.bytes() == cursor.bytes(),
                probe.pos() == cursor.pos() + i,
                probe@ == start.skip(i as int),
                cursor@ == start,
                m == be_value(start.take(i as int)),
            decreases width - i,
        {
            let b = probe.next().unwrap();
            proof {
                let before = start.take(i as int);
                let after = start.take(i + 1);
                assert(after.drop_last() =~= before);
                assert(after.last() == b);
                lemma_be_value_bound(before);
                lemma_be_value_bound(after);
                lemma_pow256_monotonic((i + 1) as nat, 16);
                lemma_pow256_values();
            }
            m = m * 256 + b as u128;
            i = i + 1;
        }
        let found = Integer { signed_state, magnitude: m };
        if found.width() != width {
            return Err(IntegerSerError::NonCanonical);
        }
        let moved = cursor.seek(width as usize);
        Ok(found)
    }

    /// Reads a header byte and the magnitude it announces.
    ///
    /// On failure the cursor has not moved.
    pub fn deser(cursor: &mut Cursor) -> (r: Result<Integer, IntegerSerError>)
        ensures
            final(cursor).bytes() == old(cursor).bytes(),
            match spec_deser(old(cursor)@) {
                Ok((i, n)) => r == Ok::<Integer, IntegerSerError>(i) && final(cursor)@ == old(
                    cursor,
                )@.skip(n as int) && final(cursor).pos() == old(cursor).pos() + n,
                Err(e) => r == Err::<Integer, IntegerSerError>(e) && final(cursor).pos() == old(
                    cursor,
                ).pos() && final(cursor)@ == old(cursor)@,
            },
    {
        reveal(spec_deser);
        reveal(spec_deser_magnitude);
        let header = match cursor.peek() {
            Some(h) => h,
            None => {
                return Err(IntegerSerError::NotEnoughBytes);
            },
        };
        let width = header % 128;
        if !(width == 1 || width == 2 || width == 4 || width == 8 || width == 16) {
            return Err(IntegerSerError::InvalidWidth(header));
        }
        let signed_state = if header >= 128 {
            SignedState::Negative
        } else {
            SignedState::Positive
        };
        let mut probe = Cursor::new_at(cursor);
        let stepped = probe.seek(1);
        match Integer::deser_magnitude(signed_state, width, &mut probe) {
            Ok(i) => {
                let moved = cursor.seek(1 + width as usize);
                proof {
                    assert(old(cursor)@.skip(1).skip(width as int) =~= old(cursor)@.skip(
                        1 + width,
                    ));
                }
                Ok(i)
            },
            Err(e) => Err(e),
        }
    }
}

impl Integer {
    /// The integer that stands for `n`.
    pub fn u8(n: u8) -> (r: Integer)
        ensures
            r.signed_state is Positive,
            r.magnitude == n,
            r.value() == n,
    {
        Integer { signed_state: SignedState::Positive, magnitude: n as u128 }
    }

    /// The integer that stands for `n`.
    pub fn u16(n: u16) -> (r: Integer)
        ensures
            r.signed_state is Positive,
            r.magnitude == n,
            r.value() == n,
    {
        Integer { signed_state: SignedState::Positive, magnitude: n as u128 }
    }

    /// The integer that stands for `n`.
    pub fn u32(n: u32) -> (r: Integer)
        ensures
            r.signed_state is Positive,
            r.magnitude == n,
            r.value() == n,
    {
        Integer { signed_state: SignedState::Positive, magnitude: n as u128 }
    }

    /// The integer that stands for `n`.
    pub fn u64(n: u64) -> (r: Integer)
        ensures
            r.signed_state is Positive,
            r.magnitude == n,
            r.value() == n,
    {
        Integer { signed_state: SignedState::Positive, magnitude: n as u128 }
    }

    /// The integer that stands for `n`.
    pub fn u128(n: u128) -> (r: Integer)
        ensures
            r.signed_state is Positive,
            r.magnitude == n,
            r.value() == n,
    {
        Integer { signed_state: SignedState::Positive, magnitude: n as u128 }
    }

    /// The integer that stands for `n`.
    pub fn usize(n: usize) -> (r: Integer)
        ensures
            r.signed_state is Positive,
            r.magnitude == n,
            r.value() == n,
    {
        Integer { signed_state: SignedState::Positive, magnitude: n as u128 }
    }

    /// The integer that stands for `n`; the sign is negative exactly when `n` is.
    pub fn i8(n: i8) -> (r: Integer)
        ensures
            r.signed_state is Negative <==> n < 0,
            r.value() == n,
    {
        if n < 0 {
            Integer { signed_state: SignedState::Negative, magnitude: ((-(n + 1)) as u128) + 1 }
        } else {
            Integer { signed_state: SignedState::Positive, magnitude: n as u128 }
        }
    }

    /// The integer that stands for `n`; the sign is negative exactly when `n` is.
    pub fn i16(n: i16) -> (r: Integer)
        ensures
            r.signed_state is Negative <==> n < 0,
            r.value() == n,
    {
        if n < 0 {
            Integer { signed_state: SignedState::Negative, magnitude: ((-(n + 1)) as u128) + 1 }
        } else {
            Integer { signed_state: SignedState::Positive, magnitude: n as u128 }
        }
    }

    /// The integer that stands for `n`; the sign is negative exactly when `n` is.
    pub fn i32(n: i32) -> (r: Integer)
        ensures
            r.signed_state is Negative <==> n < 0,
            r.value() == n,
    {
        if n < 0 {
            Integer { signed_state: SignedState::Negative, magnitude: ((-(n + 1)) as u128) + 1 }
        } else {
            Integer { signed_state: SignedState::Positive, magnitude: n as u128 }
        }
    }

    /// The integer that stands for `n`; the sign is negative exactly when `n` is.
    pub fn i64(n: i64) -> (r: Integer)
        ensures
            r.signed_state is Negative <==> n < 0,
            r.value() == n,
    {
        if n < 0 {
            Integer { signed_state: SignedState::Negative, magnitude: ((-(n + 1)) as u128) + 1 }
        } else {
            Integer { signed_state: SignedState::Positive, magnitude: n as u128 }
        }
    }

    /// The integer that stands for `n`; the sign is negative exactly when `n` is.
    pub fn i128(n: i128) -> (r: Integer)
        ensures
            r.signed_state is Negative <==> n < 0,
            r.value() == n,
    {
        if n < 0 {
            Integer { signed_state: SignedState::Negative, magnitude: ((-(n + 1)) as u128) + 1 }
        } else {
            Integer { signed_state: SignedState::Positive, magnitude: n as u128 }
        }
    }

    /// The integer that stands for `n`; the sign is negative exactly when `n` is.
    pub fn isize(n: isize) -> (r: Integer)
        ensures
            r.signed_state is Negative <==> n < 0,
            r.value() == n,
    {
        if n < 0 {
            Integer { signed_state: SignedState::Negative, magnitude: ((-(n + 1)) as u128) + 1 }
        } else {
            Integer { signed_state: SignedState::Positive, magnitude: n as u128 }
        }
    }

    /// Narrows to `u8`. Fails on a negative sign and on a magnitude above
    /// `u8::MAX`; nothing is wrapped or saturated.
    pub fn to_u8(&self) -> (r: Result<u8, IntegerSerError>)
        ensures
            match r {
                Ok(x) => self.signed_state is Positive && x == self.magnitude,
                Err(e) => e == IntegerSerError::OutOfRange && !(self.signed_state is Positive
                    && self.magnitude <= u8::MAX),
            },
    {
        if self.is_negative() || self.magnitude > u8::MAX as u128 {
            Err(IntegerSerError::OutOfRange)
        } else {
            Ok(self.magnitude as u8)
        }
    }

    /// Narrows to `u16`. Fails on a negative sign and on a magnitude above
    /// `u16::MAX`; nothing is wrapped or saturated.
    pub fn to_u16(&self) -> (r: Result<u16, IntegerSerError>)
        ensures
            match r {
                Ok(x) => self.signed_state is Positive && x == self.magnitude,
                Err(e) => e == IntegerSerError::OutOfRange && !(self.signed_state is Positive
                    && self.magnitude <= u16::MAX),
            },
    {
        if self.is_negative() || self.magnitude > u16::MAX as u128 {
            Err(IntegerSerError::OutOfRange)
        } else {
            Ok(self.magnitude as u16)
        }
    }

    /// Narrows to `u32`. Fails on a negative sign and on a magnitude above
    /// `u32::MAX`; nothing is wrapped or saturated.
    pub fn to_u32(&self) -> (r: Result<u32, IntegerSerError>)
        ensures
            match r {
                Ok(x) => self.signed_state is Positive && x == self.magnitude,
                Err(e) => e == IntegerSerError::OutOfRange && !(self.signed_state is Positive
                    && self.magnitude <= u32::MAX),
            },
    {
        if self.is_negative() || self.magnitude > u32::MAX as u128 {
            Err(IntegerSerError::OutOfRange)
        } else {
            Ok(self.magnitude as u32)
        }
    }

    /// Narrows to `u64`. Fails on a negative sign and on a magnitude above
    /// `u64::MAX`; nothing is wrapped or saturated.
    pub fn to_u64(&self) -> (r: Result<u64, IntegerSerError>)
        ensures
            match r {
                Ok(x) => self.signed_state is Positive && x == self.magnitude,
                Err(e) => e == IntegerSerError::OutOfRange && !(self.signed_state is Positive
                    && self.magnitude <= u64::MAX),
            },
    {
        if self.is_negative() || self.magnitude > u64::MAX as u128 {
            Err(IntegerSerError::OutOfRange)
        } else {
            Ok(self.magnitude as u64)
        }
    }

    /// Narrows to `u128`. Fails on a negative sign and on a magnitude above
    /// `u128::MAX`; nothing is wrapped or saturated.
    pub fn to_u128(&self) -> (r: Result<u128, IntegerSerError>)
        ensures
            match r {
                Ok(x) => self.signed_state is Positive && x == self.magnitude,
                Err(e) => e == IntegerSerError::OutOfRange && !(self.signed_state is Positive
                    && self.magnitude <= u128::MAX),
            },
    {
        if self.is_negative() || self.magnitude > u128::MAX as u128 {
            Err(IntegerSerError::OutOfRange)
        } else {
            Ok(self.magnitude as u128)
        }
    }

    /// Narrows to `usize`. Fails on a negative sign and on a magnitude above
    /// `usize::MAX`; nothing is wrapped or saturated.
    pub fn to_usize(&self) -> (r: Result<usize, IntegerSerError>)
        ensures
            match r {
                Ok(x) => self.signed_state is Positive && x == self.magnitude,
                Err(e) => e == IntegerSerError::OutOfRange && !(self.signed_state is Positive
                    && self.magnitude <= usize::MAX),
            },
    {
        if self.is_negative() || self.magnitude > usize::MAX as u128 {
            Err(IntegerSerError::OutOfRange)
        } else {
            Ok(self.magnitude as usize)
        }
    }

    /// Narrows to `i8`. Fails when the value lies outside `i8::MIN..=i8::MAX`;
    /// nothing is wrapped or saturated.
    pub fn to_i8(&self) -> (r: Result<i8, IntegerSerError>)
        ensures
            match r {
                Ok(x) => x == self.value(),
                Err(e) => e == IntegerSerError::OutOfRange && !(i8::MIN <= self.value()
                    <= i8::MAX),
            },
    {
        if self.is_negative() {
            if self.magnitude == 0 {
                Ok(0)
            } else if self.magnitude - 1 <= i8::MAX as u128 {
                Ok(-((self.magnitude - 1) as i8) - 1)
            } else {
                Err(IntegerSerError::OutOfRange)
            }
        } else if self.magnitude <= i8::MAX as u128 {
            Ok(self.magnitude as i8)
        } else {
            Err(IntegerSerError::OutOfRange)
        }
    }

    /// Narrows to `i16`. Fails when the value lies outside `i16::MIN..=i16::MAX`;
    /// nothing is wrapped or saturated.
    pub fn to_i16(&self) -> (r: Result<i16, IntegerSerError>)
        ensures
            match r {
                Ok(x) => x == self.value(),
                Err(e) => e == IntegerSerError::OutOfRange && !(i16::MIN <= self.value()
                    <= i16::MAX),
            },
    {
        if self.is_negative() {
            if self.magnitude == 0 {
                Ok(0)
            } else if self.magnitude - 1 <= i16::MAX as u128 {
                Ok(-((self.magnitude - 1) as i16) - 1)
            } else {
                Err(IntegerSerError::OutOfRange)
            }
        } else if self.magnitude <= i16::MAX as u128 {
            Ok(self.magnitude as i16)
        } else {
            Err(IntegerSerError::OutOfRange)
        }
    }

    /// Narrows to `i32`. Fails when the value lies outside `i32::MIN..=i32::MAX`;
    /// nothing is wrapped or saturated.
    pub fn to_i32(&self) -> (r: Result<i32, IntegerSerError>)
        ensures
            match r {
                Ok(x) => x == self.value(),
                Err(e) => e == IntegerSerError::OutOfRange && !(i32::MIN <= self.value()
                    <= i32::MAX),
            },
    {
        if self.is_negative() {
            if self.magnitude == 0 {
                Ok(0)
            } else if self.magnitude - 1 <= i32::MAX as u128 {
                Ok(-((self.magnitude - 1) as i32) - 1)
            } else {
                Err(IntegerSerError::OutOfRange)
            }
        } else if self.magnitude <= i32::MAX as u128 {
            Ok(self.magnitude as i32)
        } else {
            Err(IntegerSerError::OutOfRange)
        }
    }

    /// Narrows to `i64`. Fails when the value lies outside `i64::MIN..=i64::MAX`;
    /// nothing is wrapped or saturated.
    pub fn to_i64(&self) -> (r: Result<i64, IntegerSerError>)
        ensures
            match r {
                Ok(x) => x == self.value(),
                Err(e) => e == IntegerSerError::OutOfRange && !(i64::MIN <= self.value()
                    <= i64::MAX),
            },
    {
        if self.is_negative() {
            if self.magnitude == 0 {
                Ok(0)
            } else if self.magnitude - 1 <= i64::MAX as u128 {
                Ok(-((self.magnitude - 1) as i64) - 1)
            } else {
                Err(IntegerSerError::OutOfRange)
            }
        } else if self.magnitude <= i64::MAX as u128 {
            Ok(self.magnitude as i64)
        } else {
            Err(IntegerSerError::OutOfRange)
        }
    }

    /// Narrows to `i128`. Fails when the value lies outside `i128::MIN..=i128::MAX`;
    /// nothing is wrapped or saturated.
    pub fn to_i128(&self) -> (r: Result<i128, IntegerSerError>)
        ensures
            match r {
                Ok(x) => x == self.value(),
                Err(e) => e == IntegerSerError::OutOfRange && !(i128::MIN <= self.value()
                    <= i128::MAX),
            },
    {
        if self.is_negative() {
            if self.magnitude == 0 {
                Ok(0)
            } else if self.magnitude - 1 <= i128::MAX as u128 {
                Ok(-((self.magnitude - 1) as i128) - 1)
            } else {
                Err(IntegerSerError::OutOfRange)
            }
        } else if self.magnitude <= i128::MAX as u128 {
            Ok(self.magnitude as i128)
        } else {
            Err(IntegerSerError::OutOfRange)
        }
    }

    /// Narrows to `isize`. Fails when the value lies outside `isize::MIN..=isize::MAX`;
    /// nothing is wrapped or saturated.
    pub fn to_isize(&self) -> (r: Result<isize, IntegerSerError>)
        ensures
            match r {
                Ok(x) => x == self.value(),
                Err(e) => e == IntegerSerError::OutOfRange && !(isize::MIN <= self.value()
                    <= isize::MAX),
            },
    {
        if self.is_negative() {
            if self.magnitude == 0 {
                Ok(0)
            } else if self.magnitude - 1 <= isize::MAX as u128 {
                Ok(-((self.magnitude - 1) as isize) - 1)
            } else {
                Err(IntegerSerError::OutOfRange)
            }
        } else if self.magnitude <= isize::MAX as u128 {
            Ok(self.magnitude as isize)
        } else {
            Err(IntegerSerError::OutOfRange)
        }
    }

}

/// Decoding what `ser` wrote gives the integer back and stops right behind
/// it, whatever follows.
pub proof fn lemma_deser_ser(i: Integer, rest: Seq<u8>)
    ensures
        spec_deser(i.spec_ser() + rest) == Ok::<(Integer, nat), IntegerSerError>(
            (i, i.spec_ser().len()),
        ),
        i.spec_ser().len() == 1 + spec_width(i.magnitude as nat),
{
    reveal(spec_deser);
    reveal(spec_deser_magnitude);
    reveal(Integer::spec_ser);
    let m = i.magnitude as nat;
    let w = spec_width(m);
    let body = be_bytes(m, w);
    let all = i.spec_ser() + rest;
    lemma_pow256_values();
    lemma_be_bytes_len(m, w);
    lemma_be_round_trip(m, w);
    assert(all[0] == spec_header(i.signed_state, w));
    assert(all.skip(1).take(w as int) =~= body);
}

/// Cutting an encoded integer short anywhere makes decoding report that
/// bytes are missing.
pub proof fn lemma_deser_truncated(i: Integer, k: int)
    requires
        0 <= k < i.spec_ser().len(),
    ensures
        spec_deser(i.spec_ser().take(k)) == Err::<(Integer, nat), IntegerSerError>(
            IntegerSerError::NotEnoughBytes,
        ),
{
    reveal(spec_deser);
    reveal(spec_deser_magnitude);
    reveal(Integer::spec_ser);
    let m = i.magnitude as nat;
    let w = spec_width(m);
    lemma_be_bytes_len(m, w);
    let cut = i.spec_ser().take(k);
    if k > 0 {
        assert(cut[0] == spec_header(i.signed_state, w));
        assert(cut.skip(1).len() == k - 1);
    }
}

/// A magnitude written in a wider permitted width than it needs is refused.
pub proof fn lemma_deser_rejects_padding(i: Integer, w: nat, rest: Seq<u8>)
    requires
        is_width(w),
        w > spec_width(i.magnitude as nat),
    ensures
        spec_deser(seq![spec_header(i.signed_state, w)] + be_bytes(i.magnitude as nat, w) + rest)
            == Err::<(Integer, nat), IntegerSerError>(IntegerSerError::NonCanonical),
{
    reveal(spec_deser);
    reveal(spec_deser_magnitude);
    let m = i.magnitude as nat;
    let body = be_bytes(m, w);
    let all = seq![spec_header(i.signed_state, w)] + body + rest;
    lemma_pow256_values();
    lemma_pow256_monotonic(spec_width(m), w);
    lemma_be_bytes_len(m, w);
    lemma_be_round_trip(m, w);
    assert(all[0] == spec_header(i.signed_state, w));
    assert(all.skip(1).take(w as int) =~= body);
}

/// Appends the low `w` bytes of `m` to `out`, most significant first.
fn push_be(out: &mut Vec<u8>, m: u128, w: u8)
    ensures
        final(out)@ == old(out)@ + be_bytes(m as nat, w as nat),
    decreases w,
{
    if w > 0 {
        push_be(out, m / 256, w - 1);
        out.push((m % 256) as u8);
        proof {
            assert(out@ =~= old(out)@ + be_bytes(m as nat, w as nat));
        }
    } else {
        proof {
            assert(out@ =~= old(out)@ + be_bytes(m as nat, 0));
        }
    }
}

} // verus!
