//! The version tag at the head of an encoded store.
use crate::cursor::Cursor;
use vstd::prelude::*;

verus! {

/// The layouts an encoded store can have. The tag is read before anything
/// else and decides how the rest is read.
#[derive(Copy, Clone, Debug, PartialEq, Eq, Structural)]
pub enum Version {
    /// The keyed layout: a block of keys, then a block of values.
    V0_1_0,
    /// The array layout: values one after the other.
    V0_2_0,
}

/// Why a version tag could not be read.
#[derive(Copy, Clone, Debug, PartialEq, Eq, Structural)]
pub enum VersionSerError {
    /// The six bytes are no known tag.
    Invalid,
    /// Fewer than six bytes are left.
    NotEnoughBytes,
}

/// What reading a version tag from the front of `b` yields.
pub open spec fn spec_from_bytes(b: Seq<u8>) -> Result<Version, VersionSerError> {
    if b.len() < 6 {
        Err(VersionSerError::NotEnoughBytes)
    } else if b.take(6) == Version::V0_1_0.spec_bytes() {
        Ok(Version::V0_1_0)
    } else if b.take(6) == Version::V0_2_0.spec_bytes() {
        Ok(Version::V0_2_0)
    } else {
        Err(VersionSerError::Invalid)
    }
}

impl Version {
    /// The six bytes of the tag.
    #[must_use]
    pub fn to_bytes(self) -> (r: [u8; 6])
        ensures
            r@ == self.spec_bytes(),
    {
        let r: [u8; 6] = match self {
            Version::V0_1_0 => [86, 48, 95, 49, 95, 48],
            Version::V0_2_0 => [86, 48, 95, 50, 95, 48],
        };
        assert(r@ =~= self.spec_bytes());
        r
    }

    /// Reads the six bytes of a tag. They are consumed whenever six bytes
    /// are left, known tag or not.
    pub fn from_bytes(cursor: &mut Cursor) -> (r: Result<Version, VersionSerError>)
        ensures
            r == spec_from_bytes(old(cursor)@),
            final(cursor).bytes() == old(cursor).bytes(),
            old(cursor)@.len() >= 6 ==> final(cursor)@ == old(cursor)@.skip(6)
                && final(cursor).pos() == old(cursor).pos() + 6,
            old(cursor)@.len() < 6 ==> final(cursor)@ == old(cursor)@ && final(cursor).pos()
                == old(cursor).pos(),
    {
        let tag = match cursor.read(6) {
            Some(t) => t,
            None => {
                return Err(VersionSerError::NotEnoughBytes);
            },
        };
        if tag[0] == 86 && tag[1] == 48 && tag[2] == 95 && tag[4] == 95 && tag[5] == 48 {
            if tag[3] == 49 {
                assert(tag@ =~= Version::V0_1_0.spec_bytes());
                return Ok(Version::V0_1_0);
            }
            if tag[3] == 50 {
                assert(tag@ =~= Version::V0_2_0.spec_bytes());
                return Ok(Version::V0_2_0);
            }
        }
        Err(VersionSerError::Invalid)
    }

    /// The six bytes of the tag.
    pub open spec fn spec_bytes(self) -> Seq<u8> {
        match self {
            Version::V0_1_0 => seq![86u8, 48u8, 95u8, 49u8, 95u8, 48u8],
            Version::V0_2_0 => seq![86u8, 48u8, 95u8, 50u8, 95u8, 48u8],
        }
    }
}

} // verus!
