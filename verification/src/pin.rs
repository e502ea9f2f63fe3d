//! Secret codes.
//!
//! A code is held in fixed storage that is wiped when it is dropped. It is never
//! rendered.

use crate::ascii::{DIGIT_0, DIGIT_9};
use crate::crypto::secret::{wipe_vec, Secret};
use crate::render::{dec, push_dec};
use vstd::prelude::*;
use vstd::slice::slice_subrange;
use vstd::string::*;

verus! {

/// Why digits are no code of a role.
#[derive(Debug, Clone, Copy, PartialEq, Eq, Structural)]
pub enum PinRoleError {
    /// There are no digits.
    Empty,
    /// The number of digits is out of range.
    WrongLength {
        /// Least number of digits.
        expected_min: usize,
        /// Greatest number of digits.
        expected_max: usize,
        /// Number of digits given.
        got: usize,
    },
    /// A byte is no digit.
    NonDigit {
        /// Position of the byte.
        at: usize,
    },
}

impl PinRoleError {
    /// The diagnostic text of the error.
    pub fn message(&self) -> (r: String)
        ensures
            r@ == match *self {
                PinRoleError::Empty => "PIN code cannot be empty"@,
                PinRoleError::WrongLength { expected_min, expected_max, .. } => if expected_min
                    == expected_max {
                    "PIN code wrong length: expected exactly "@ + dec(expected_min as nat)
                        + " digits"@
                } else {
                    "PIN code wrong length: expected "@ + dec(expected_min as nat) + "-"@ + dec(
                        expected_max as nat,
                    ) + " digits"@
                },
                PinRoleError::NonDigit { at } => {
                    "PIN code must be ASCII digits only; non-digit at offset "@ + dec(at as nat)
                },
            },
    {
        match self {
            PinRoleError::Empty => "PIN code cannot be empty".to_owned(),
            PinRoleError::WrongLength { expected_min, expected_max, .. } => {
                if *expected_min == *expected_max {
                    let mut out = "PIN code wrong length: expected exactly ".to_owned();
                    push_dec(&mut out, *expected_min as u128);
                    out.append(" digits");
                    out
                } else {
                    let mut out = "PIN code wrong length: expected ".to_owned();
                    push_dec(&mut out, *expected_min as u128);
                    out.append("-");
                    push_dec(&mut out, *expected_max as u128);
                    out.append(" digits");
                    out
                }
            },
            PinRoleError::NonDigit { at } => {
                let mut out = "PIN code must be ASCII digits only; non-digit at offset ".to_owned();
                push_dec(&mut out, *at as u128);
                out
            },
        }
    }
}

/// An ASCII digit.
pub open spec fn is_pin_digit(b: u8) -> bool {
    DIGIT_0 <= b <= DIGIT_9
}

/// Every byte is an ASCII digit.
pub open spec fn all_pin_digits(bytes: Seq<u8>) -> bool {
    forall|i: int| 0 <= i < bytes.len() ==> is_pin_digit(#[trigger] bytes[i])
}

/// Position of the first byte that is no digit.
pub open spec fn first_non_digit(bytes: Seq<u8>) -> int
    decreases bytes.len(),
{
    if bytes.len() == 0 {
        0
    } else if first_non_digit(bytes.drop_last()) < bytes.len() - 1 {
        first_non_digit(bytes.drop_last())
    } else if is_pin_digit(bytes.last()) {
        bytes.len() as int
    } else {
        bytes.len() - 1
    }
}

/// What is wrong with `bytes` as a code of `min` to `max` digits.
pub open spec fn code_error(bytes: Seq<u8>, min: int, max: int) -> Option<PinRoleError> {
    if bytes.len() == 0 {
        Some(PinRoleError::Empty)
    } else if bytes.len() < min || bytes.len() > max {
        Some(
            PinRoleError::WrongLength {
                expected_min: min as usize,
                expected_max: max as usize,
                got: bytes.len() as usize,
            },
        )
    } else if !all_pin_digits(bytes) {
        Some(PinRoleError::NonDigit { at: first_non_digit(bytes) as usize })
    } else {
        None
    }
}

proof fn lemma_first_non_digit(bytes: Seq<u8>, n: int)
    requires
        0 <= n <= bytes.len(),
        forall|i: int| 0 <= i < n ==> is_pin_digit(#[trigger] bytes[i]),
        n < bytes.len() ==> !is_pin_digit(bytes[n]),
    ensures
        first_non_digit(bytes) == n,
    decreases bytes.len(),
{
    if bytes.len() > 0 {
        let front = bytes.drop_last();
        if n < bytes.len() {
            lemma_first_non_digit(front, n);
        } else {
            lemma_first_non_digit(front, front.len() as int);
        }
    }
}

/// Check that `bytes` are a code of `min` to `max` digits.
pub fn validate_digits(bytes: &[u8], min: usize, max: usize) -> (r: Result<(), PinRoleError>)
    ensures
        r == match code_error(bytes@, min as int, max as int) {
            Some(e) => Err(e),
            None => Ok(()),
        },
{
    if bytes.len() == 0 {
        return Err(PinRoleError::Empty);
    }
    if bytes.len() < min || bytes.len() > max {
        return Err(
            PinRoleError::WrongLength { expected_min: min, expected_max: max, got: bytes.len() },
        );
    }
    let mut i: usize = 0;
    while i < bytes.len()
        invariant
            i <= bytes@.len(),
            bytes@.len() > 0,
            min <= bytes@.len() <= max,
            forall|j: int| 0 <= j < i ==> is_pin_digit(#[trigger] bytes@[j]),
        decreases bytes@.len() - i,
    {
        if bytes[i] < DIGIT_0 || bytes[i] > DIGIT_9 {
            proof {
                assert(!is_pin_digit(bytes@[i as int]));
                lemma_first_non_digit(bytes@, i as int);
            }
            return Err(PinRoleError::NonDigit { at: i });
        }
        i += 1;
    }
    Ok(())
}

/// A code of four to twelve digits. Roles may ask for more.
pub struct PinBytes {
    storage: Secret<12>,
    length: u8,
}

impl View for PinBytes {
    type V = Seq<u8>;

    closed spec fn view(&self) -> Seq<u8> {
        self.storage@.take(self.length as int)
    }
}

/// The digits of a code.
pub open spec fn is_code(digits: Seq<u8>) -> bool {
    PinBytes::MIN_LENGTH <= digits.len() <= PinBytes::MAX_LENGTH && all_pin_digits(digits)
}

impl PinBytes {
    /// Least number of digits of any code.
    pub const MIN_LENGTH: usize = 4;

    /// Greatest number of digits of any code.
    pub const MAX_LENGTH: usize = 12;

    /// The stored digits are a code.
    #[verifier::type_invariant]
    closed spec fn holds_code(&self) -> bool {
        &&& self.storage@.len() == 12
        &&& self.length <= 12
        &&& is_code(self.storage@.take(self.length as int))
    }

    fn copy_digits(bytes: &[u8]) -> (r: PinBytes)
        requires
            is_code(bytes@),
        ensures
            r@ == bytes@,
    {
        let mut storage: [u8; 12] = [0; 12];
        let length: usize = bytes.len();
        let mut i: usize = 0;
        while i < length
            invariant
                i <= length <= 12,
                length == bytes@.len(),
                forall|j: int| 0 <= j < i ==> storage@[j] == bytes@[j],
            decreases length - i,
        {
            storage[i] = bytes[i];
            i += 1;
        }
        assert(storage@.take(length as int) =~= bytes@);
        PinBytes { storage: Secret::new(storage), length: length as u8 }
    }

    /// Check the digits and take them over. The given buffer is wiped either way.
    pub fn new(bytes: Vec<u8>) -> (r: Result<Self, PinRoleError>)
        ensures
            match code_error(bytes@, PinBytes::MIN_LENGTH as int, PinBytes::MAX_LENGTH as int) {
                Some(e) => r == Err::<PinBytes, PinRoleError>(e),
                None => r matches Ok(p) && p@ == bytes@,
            },
    {
        let mut bytes = bytes;
        match validate_digits(bytes.as_slice(), PinBytes::MIN_LENGTH, PinBytes::MAX_LENGTH) {
            Err(error) => {
                wipe_vec(&mut bytes);
                Err(error)
            },
            Ok(()) => {
                let pin = PinBytes::copy_digits(bytes.as_slice());
                wipe_vec(&mut bytes);
                Ok(pin)
            },
        }
    }

    /// Check the digits of an array and take them over.
    pub fn from_array<const N: usize>(bytes: [u8; N]) -> (r: Result<Self, PinRoleError>)
        ensures
            match code_error(bytes@, PinBytes::MIN_LENGTH as int, PinBytes::MAX_LENGTH as int) {
                Some(e) => r == Err::<PinBytes, PinRoleError>(e),
                None => r matches Ok(p) && p@ == bytes@,
            },
    {
        let held = Secret::new(bytes);
        let digits = held.as_bytes().as_slice();
        match validate_digits(digits, PinBytes::MIN_LENGTH, PinBytes::MAX_LENGTH) {
            Err(error) => Err(error),
            Ok(()) => Ok(PinBytes::copy_digits(digits)),
        }
    }

    /// Borrow the digits.
    pub fn as_bytes(&self) -> (r: &[u8])
        ensures
            r@ == self@,
            is_code(r@),
    {
        proof {
            use_type_invariant(self);
        }
        let r = slice_subrange(self.storage.as_bytes().as_slice(), 0, self.length as usize);
        assert(r@ =~= self@);
        r
    }

    /// Number of digits.
    pub fn digit_count(&self) -> (r: usize)
        ensures
            r == self@.len(),
            PinBytes::MIN_LENGTH <= r <= PinBytes::MAX_LENGTH,
    {
        proof {
            use_type_invariant(self);
        }
        self.length as usize
    }

    /// Check that the code has `min` to `max` digits.
    pub fn validate_digits(&self, min: usize, max: usize) -> (r: Result<(), PinRoleError>)
        ensures
            r == match code_error(self@, min as int, max as int) {
                Some(e) => Err(e),
                None => Ok(()),
            },
    {
        validate_digits(self.as_bytes(), min, max)
    }

    /// A rendering for traces, which shows no digit.
    pub fn debug_text(&self) -> (r: String)
        ensures
            r@ == "PinBytes([redacted])"@,
    {
        "PinBytes([redacted])".to_owned()
    }
}

impl Clone for PinBytes {
    fn clone(&self) -> (r: Self)
        ensures
            r@ == self@,
    {
        proof {
            use_type_invariant(self);
        }
        PinBytes { storage: self.storage.clone(), length: self.length }
    }
}

/// Unblocking code of seven or eight digits.
pub enum Puk {
    /// Seven digits.
    Seven(PinBytes),
    /// Eight digits.
    Eight(PinBytes),
}

impl View for Puk {
    type V = Seq<u8>;

    open spec fn view(&self) -> Seq<u8> {
        match self {
            Puk::Seven(bytes) => bytes@,
            Puk::Eight(bytes) => bytes@,
        }
    }
}

impl Puk {
    /// Shorter length.
    pub const MIN_LENGTH: usize = 7;

    /// Longer length.
    pub const MAX_LENGTH: usize = 8;

    /// Take a code as an unblocking code.
    pub fn new(bytes: PinBytes) -> (r: Result<Self, PinRoleError>)
        ensures
            match r {
                Ok(p) => p@ == bytes@ && (p is Seven <==> bytes@.len() == 7) && (p is Eight
                    <==> bytes@.len() == 8),
                Err(e) => bytes@.len() != 7 && bytes@.len() != 8 && e == (
                PinRoleError::WrongLength {
                    expected_min: Puk::MIN_LENGTH,
                    expected_max: Puk::MAX_LENGTH,
                    got: bytes@.len() as usize,
                }),
            },
            r is Ok <==> bytes@.len() == 7 || bytes@.len() == 8,
    {
        let got: usize = bytes.digit_count();
        if got == Puk::MIN_LENGTH {
            Ok(Puk::Seven(bytes))
        } else if got == Puk::MAX_LENGTH {
            Ok(Puk::Eight(bytes))
        } else {
            Err(
                PinRoleError::WrongLength {
                    expected_min: Puk::MIN_LENGTH,
                    expected_max: Puk::MAX_LENGTH,
                    got,
                },
            )
        }
    }

    /// Borrow the digits.
    pub fn as_bytes(&self) -> (r: &[u8])
        ensures
            r@ == self@,
    {
        match self {
            Puk::Seven(bytes) => bytes.as_bytes(),
            Puk::Eight(bytes) => bytes.as_bytes(),
        }
    }

    /// A copy as a plain code.
    pub fn to_pin_bytes(&self) -> (r: PinBytes)
        ensures
            r@ == self@,
    {
        match self {
            Puk::Seven(bytes) => bytes.clone(),
            Puk::Eight(bytes) => bytes.clone(),
        }
    }

    /// Number of digits.
    pub fn digit_count(&self) -> (r: usize)
        ensures
            r == self@.len(),
    {
        match self {
            Puk::Seven(bytes) => bytes.digit_count(),
            Puk::Eight(bytes) => bytes.digit_count(),
        }
    }

    /// A rendering for traces, which shows no digit.
    pub fn debug_text(&self) -> (r: String)
        ensures
            r@ == "Puk([redacted])"@,
    {
        "Puk([redacted])".to_owned()
    }
}

impl Clone for Puk {
    fn clone(&self) -> (r: Self)
        ensures
            r@ == self@,
            r is Seven == self is Seven,
    {
        match self {
            Puk::Seven(bytes) => Puk::Seven(bytes.clone()),
            Puk::Eight(bytes) => Puk::Eight(bytes.clone()),
        }
    }
}

/// Activation code of newer cards: seven digits, for one use.
pub struct ActivationPinSeven(PinBytes);

impl View for ActivationPinSeven {
    type V = Seq<u8>;

    closed spec fn view(&self) -> Seq<u8> {
        self.0@
    }
}

impl ActivationPinSeven {
    /// Number of digits.
    pub const LENGTH: usize = 7;

    /// The code has seven digits.
    #[verifier::type_invariant]
    closed spec fn has_length(&self) -> bool {
        self.0@.len() == ActivationPinSeven::LENGTH
    }

    /// Take a code as an activation code.
    pub fn new(bytes: PinBytes) -> (r: Result<Self, PinRoleError>)
        ensures
            match code_error(bytes@, 7, 7) {
                Some(e) => r == Err::<ActivationPinSeven, PinRoleError>(e),
                None => r matches Ok(p) && p@ == bytes@,
            },
            r is Ok <==> bytes@.len() == 7,
    {
        let digits = bytes.as_bytes();
        assert(is_code(digits@));
        match bytes.validate_digits(ActivationPinSeven::LENGTH, ActivationPinSeven::LENGTH) {
            Ok(()) => Ok(ActivationPinSeven(bytes)),
            Err(e) => Err(e),
        }
    }

    /// Borrow the digits.
    pub fn as_bytes(&self) -> (r: &[u8])
        ensures
            r@ == self@,
    {
        self.0.as_bytes()
    }

    /// Number of digits.
    pub fn digit_count(&self) -> (r: usize)
        ensures
            r == self@.len(),
            r == ActivationPinSeven::LENGTH,
    {
        proof {
            use_type_invariant(self);
        }
        self.0.digit_count()
    }

    /// A rendering for traces, which shows no digit.
    pub fn debug_text(&self) -> (r: String)
        ensures
            r@ == "ActivationPinSeven([redacted])"@,
    {
        "ActivationPinSeven([redacted])".to_owned()
    }
}

impl Clone for ActivationPinSeven {
    fn clone(&self) -> (r: Self)
        ensures
            r@ == self@,
    {
        proof {
            use_type_invariant(self);
        }
        ActivationPinSeven(self.0.clone())
    }
}

/// Activation code of older cards: eight digits, which also unblock.
pub struct ActivationPinEight(PinBytes);

impl View for ActivationPinEight {
    type V = Seq<u8>;

    closed spec fn view(&self) -> Seq<u8> {
        self.0@
    }
}

impl ActivationPinEight {
    /// Number of digits.
    pub const LENGTH: usize = 8;

    /// The code has eight digits.
    #[verifier::type_invariant]
    closed spec fn has_length(&self) -> bool {
        self.0@.len() == ActivationPinEight::LENGTH
    }

    /// Take a code as an activation code.
    pub fn new(bytes: PinBytes) -> (r: Result<Self, PinRoleError>)
        ensures
            match code_error(bytes@, 8, 8) {
                Some(e) => r == Err::<ActivationPinEight, PinRoleError>(e),
                None => r matches Ok(p) && p@ == bytes@,
            },
            r is Ok <==> bytes@.len() == 8,
    {
        let digits = bytes.as_bytes();
        assert(is_code(digits@));
        match bytes.validate_digits(ActivationPinEight::LENGTH, ActivationPinEight::LENGTH) {
            Ok(()) => Ok(ActivationPinEight(bytes)),
            Err(e) => Err(e),
        }
    }

    /// Borrow the digits.
    pub fn as_bytes(&self) -> (r: &[u8])
        ensures
            r@ == self@,
    {
        self.0.as_bytes()
    }

    /// Number of digits.
    pub fn digit_count(&self) -> (r: usize)
        ensures
            r == self@.len(),
            r == ActivationPinEight::LENGTH,
    {
        proof {
            use_type_invariant(self);
        }
        self.0.digit_count()
    }

    /// A rendering for traces, which shows no digit.
    pub fn debug_text(&self) -> (r: String)
        ensures
            r@ == "ActivationPinEight([redacted])"@,
    {
        "ActivationPinEight([redacted])".to_owned()
    }
}

impl Clone for ActivationPinEight {
    fn clone(&self) -> (r: Self)
        ensures
            r@ == self@,
    {
        proof {
            use_type_invariant(self);
        }
        ActivationPinEight(self.0.clone())
    }
}

/// Either activation code.
pub enum ActivationCode {
    /// Of a newer card.
    Seven(ActivationPinSeven),
    /// Of an older card.
    Eight(ActivationPinEight),
}

impl View for ActivationCode {
    type V = Seq<u8>;

    open spec fn view(&self) -> Seq<u8> {
        match self {
            ActivationCode::Seven(p) => p@,
            ActivationCode::Eight(p) => p@,
        }
    }
}

impl ActivationCode {
    /// Borrow the digits.
    pub fn as_bytes(&self) -> (r: &[u8])
        ensures
            r@ == self@,
    {
        match self {
            ActivationCode::Seven(p) => p.as_bytes(),
            ActivationCode::Eight(p) => p.as_bytes(),
        }
    }

    /// A copy as a plain code.
    pub fn to_pin_bytes(&self) -> (r: PinBytes)
        ensures
            r@ == self@,
    {
        match self {
            ActivationCode::Seven(p) => p.0.clone(),
            ActivationCode::Eight(p) => p.0.clone(),
        }
    }

    /// Which of the codes it is.
    pub open spec fn label(self) -> Seq<char> {
        match self {
            ActivationCode::Seven(_) => "ActivationPinSeven"@,
            ActivationCode::Eight(_) => "ActivationPinEight"@,
        }
    }

    /// Which of the codes it is.
    pub fn variant_label(&self) -> (r: &'static str)
        ensures
            r@ == self.label(),
    {
        match self {
            ActivationCode::Seven(_) => "ActivationPinSeven",
            ActivationCode::Eight(_) => "ActivationPinEight",
        }
    }

    /// A rendering for traces, which shows no digit.
    pub fn debug_text(&self) -> (r: String)
        ensures
            r@ == "ActivationCode::"@ + self.label() + "([redacted])"@,
    {
        "ActivationCode::".to_owned().concat(self.variant_label()).concat("([redacted])")
    }
}

impl Clone for ActivationCode {
    fn clone(&self) -> (r: Self)
        ensures
            r@ == self@,
            r is Seven == self is Seven,
    {
        match self {
            ActivationCode::Seven(p) => ActivationCode::Seven(p.clone()),
            ActivationCode::Eight(p) => ActivationCode::Eight(p.clone()),
        }
    }
}

/// Bytes are a code exactly if they are digits, 30 to 39, and as many as are asked for. A
/// refusal names what is wrong: that there are none, else their number, else the first that
/// is no digit.
pub proof fn law_codes(bytes: Seq<u8>, min: int, max: int)
    requires
        0 <= min <= usize::MAX,
        0 <= max <= usize::MAX,
        bytes.len() <= usize::MAX,
    ensures
        code_error(bytes, min, max) is None <==> {
            &&& bytes.len() > 0 && min <= bytes.len() <= max
            &&& forall|i: int| 0 <= i < bytes.len() ==> 0x30 <= #[trigger] bytes[i] <= 0x39
        },
        code_error(bytes, min, max) == Some(PinRoleError::Empty) <==> bytes.len() == 0,
        code_error(bytes, min, max) matches Some(
            PinRoleError::WrongLength { expected_min, expected_max, got },
        ) ==> {
            &&& bytes.len() > 0 && !(min <= bytes.len() <= max)
            &&& expected_min == min && expected_max == max && got == bytes.len()
        },
        code_error(bytes, min, max) matches Some(PinRoleError::NonDigit { at }) ==> {
            &&& min <= bytes.len() <= max
            &&& at < bytes.len() && !(0x30 <= bytes[at as int] <= 0x39)
            &&& forall|i: int| 0 <= i < at ==> 0x30 <= #[trigger] bytes[i] <= 0x39
        },
{
    lemma_first_fault(bytes);
}

proof fn lemma_first_fault(bytes: Seq<u8>)
    ensures
        ({
            let n = first_non_digit(bytes);
            &&& 0 <= n <= bytes.len()
            &&& n < bytes.len() ==> !is_pin_digit(bytes[n])
            &&& forall|i: int| 0 <= i < n ==> is_pin_digit(#[trigger] bytes[i])
        }),
    decreases bytes.len(),
{
    if bytes.len() > 0 {
        let front = bytes.drop_last();
        lemma_first_fault(front);
        assert forall|i: int| 0 <= i < first_non_digit(bytes) implies is_pin_digit(
            #[trigger] bytes[i],
        ) by {
            if i < front.len() {
                assert(bytes[i] == front[i]);
            }
        }
    }
}

/// Codes have four to twelve digits, unblocking codes seven or eight, and the two kinds of
/// activation codes seven and eight.
pub proof fn law_code_lengths(digits: Seq<u8>)
    ensures
        is_code(digits) <==> 4 <= digits.len() <= 12 && forall|i: int|
            0 <= i < digits.len() ==> 0x30 <= #[trigger] digits[i] <= 0x39,
        Puk::MIN_LENGTH == 7 && Puk::MAX_LENGTH == 8,
        ActivationPinSeven::LENGTH == 7 && ActivationPinEight::LENGTH == 8,
{
}

/// An unblocking code has seven or eight digits and is of the kind that its length says; it
/// keeps its digits.
pub proof fn law_unblocking_codes(bytes: PinBytes, r: Result<Puk, PinRoleError>)
    requires
        call_ensures(Puk::new, (bytes,), r),
    ensures
        r is Ok <==> bytes@.len() == 7 || bytes@.len() == 8,
        r matches Ok(p) ==> p@ == bytes@ && (p is Seven <==> bytes@.len() == 7),
{
}

} // verus!
