//! Answer-to-reset bytes of a card.

use vstd::prelude::*;
use vstd::slice::slice_to_vec;

verus! {

/// Shortest answer to reset: the initial character and the format character.
pub const ATR_MIN_LEN: usize = 2;

/// Longest answer to reset.
pub const ATR_MAX_LEN: usize = 33;

/// Direct-convention initial character.
pub const TS_DIRECT: u8 = 0x3B;

/// Inverse-convention initial character.
pub const TS_INVERSE: u8 = 0x3F;

/// The shortest direct-convention answer to reset.
pub const MINIMAL_DIRECT_ATR: [u8; 2] = [0x3B, 0x00];

/// Why bytes are no answer to reset.
#[derive(Debug, Clone, Copy, PartialEq, Eq, Structural)]
pub enum AtrError {
    /// Fewer than two or more than thirty-three bytes.
    Length {
        /// The rejected length.
        got: usize,
    },
    /// The initial character names neither convention.
    InitialCharacter {
        /// The rejected byte.
        byte: u8,
    },
}

/// A card's answer to reset.
#[derive(Debug, PartialEq, Eq)]
pub struct Atr {
    bytes: Vec<u8>,
}

impl View for Atr {
    type V = Seq<u8>;

    closed spec fn view(&self) -> Seq<u8> {
        self.bytes@
    }
}

impl Atr {
    /// Wrap answer-to-reset bytes after checking the length window and the
    /// initial character.
    pub fn new(bytes: &[u8]) -> (r: Result<Self, AtrError>)
        ensures
            r == Err::<Atr, AtrError>(AtrError::Length { got: bytes@.len() as usize }) <==> !(
            ATR_MIN_LEN <= bytes@.len() <= ATR_MAX_LEN),
            ATR_MIN_LEN <= bytes@.len() <= ATR_MAX_LEN ==> {
                &&& r is Ok <==> bytes@[0] == TS_DIRECT || bytes@[0] == TS_INVERSE
                &&& r matches Err(e) ==> e == (AtrError::InitialCharacter { byte: bytes@[0] })
                &&& r matches Ok(a) ==> a@ == bytes@
            },
    {
        if bytes.len() < ATR_MIN_LEN || bytes.len() > ATR_MAX_LEN {
            return Err(AtrError::Length { got: bytes.len() });
        }
        if bytes[0] != TS_DIRECT && bytes[0] != TS_INVERSE {
            return Err(AtrError::InitialCharacter { byte: bytes[0] });
        }
        Ok(Atr { bytes: slice_to_vec(bytes) })
    }

    /// The bytes as the card sent them.
    pub fn to_wire_bytes(&self) -> (r: Vec<u8>)
        ensures
            r@ == self@,
    {
        slice_to_vec(self.bytes.as_slice())
    }
}

/// An answer to reset has 2 to 33 bytes, of which the first is 3B or 3F; nothing else is one,
/// and it is kept as it is.
pub proof fn law_answers_to_reset(bytes: &[u8], r: Result<Atr, AtrError>)
    requires
        call_ensures(Atr::new, (bytes,), r),
    ensures
        r is Ok <==> 2 <= bytes@.len() <= 33 && (bytes@[0] == 0x3B || bytes@[0] == 0x3F),
        r matches Ok(a) ==> a@ == bytes@,
        r matches Err(AtrError::InitialCharacter { byte }) ==> 2 <= bytes@.len() <= 33 && byte
            == bytes@[0] && byte != 0x3B && byte != 0x3F,
{
}

} // verus!
