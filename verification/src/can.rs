//! Card access number.

use vstd::prelude::*;

verus! {

/// The six digits printed on the card.
pub struct Can([u8; 6]);

impl View for Can {
    type V = Seq<u8>;

    closed spec fn view(&self) -> Seq<u8> {
        self.0@
    }
}

/// Every byte is an ASCII digit.
pub open spec fn all_digit_bytes(bytes: Seq<u8>) -> bool {
    forall|i: int| 0 <= i < bytes.len() ==> 0x30 <= #[trigger] bytes[i] <= 0x39
}

impl Can {
    /// Wrap six ASCII digits; `None` for anything else.
    pub fn new(digits: [u8; 6]) -> (r: Option<Self>)
        ensures
            r is Some <==> all_digit_bytes(digits@),
            r matches Some(c) ==> c@ == digits@,
    {
        let mut i: usize = 0;
        while i < 6
            invariant
                i <= 6,
                forall|j: int| 0 <= j < i ==> 0x30 <= #[trigger] digits@[j] <= 0x39,
            decreases 6 - i,
        {
            if digits[i] < 0x30 || digits[i] > 0x39 {
                assert(!(0x30 <= digits@[i as int] <= 0x39));
                return None;
            }
            i += 1;
        }
        Some(Can(digits))
    }

    /// The digits.
    pub fn as_bytes(&self) -> (r: &[u8; 6])
        ensures
            r@ == self@,
    {
        &self.0
    }
}

} // verus!
