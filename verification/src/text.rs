//! Text validated to a narrow character set, and the one URL type.
//!
//! A bare `String` admits any Unicode. Each type here is a base type plus a
//! predicate whose constructor admits only what the predicate allows, so a value
//! of the type is proof that the text is well-formed.
//!
//! - [`AlphaString`] and [`LowerAlphaString`]: letters.
//! - [`AlphaNumString`] and [`LowerAlphaNumString`]: letters and digits.
//! - [`TokenString`] and [`LowerTokenString`]: the above and `. _ -`.
//! - [`Uri`]: an `http(s)` URL taken apart into validated components.

use crate::ascii::{AMPERSAND, APOSTROPHE, AT_SIGN, BANG, COLON, COMMA, DIGIT_0, DIGIT_9, DOLLAR,
    DOT, EQUALS, HASH, HYPHEN, LOWER_A, LOWER_F, LOWER_H, LOWER_P, LOWER_S, LOWER_T, LOWER_Z,
    PAREN_CLOSE, PAREN_OPEN, PERCENT, PLUS, QUESTION, SEMICOLON, SLASH, STAR, TILDE, UNDERSCORE,
    UPPER_A, UPPER_F, UPPER_Z};
use crate::bytes::{all_ascii, holds_at, push_all, text_from_utf8, lemma_ascii_utf8};
use crate::render::{dec, hex2, push_dec, push_hex2};
use vstd::prelude::*;
use vstd::slice::{slice_subrange, slice_to_vec};
use vstd::string::*;
use vstd::utf8::encode_utf8;

pub mod reading;

verus! {

/// A byte outside a type's allowed character set.
#[derive(Debug, Clone, Copy, PartialEq, Eq, Structural)]
pub struct CharsetError {
    /// Zero-based byte offset of the first offending byte.
    pub position: usize,
    /// The offending byte.
    pub byte: u8,
}

impl CharsetError {
    /// The diagnostic text of the error.
    pub fn message(&self) -> (r: String)
        ensures
            r@ == "byte 0x"@ + hex2(self.byte) + " at position "@ + dec(self.position as nat)
                + " is outside the allowed charset"@,
    {
        let mut out = "byte 0x".to_owned();
        push_hex2(&mut out, self.byte);
        out.append(" at position ");
        push_dec(&mut out, self.position as u128);
        out.append(" is outside the allowed charset");
        out
    }
}

pub open spec fn is_upper(b: u8) -> bool {
    UPPER_A <= b <= UPPER_Z
}

pub open spec fn is_lower(b: u8) -> bool {
    LOWER_A <= b <= LOWER_Z
}

pub open spec fn is_digit(b: u8) -> bool {
    DIGIT_0 <= b <= DIGIT_9
}

pub open spec fn is_alphanumeric(b: u8) -> bool {
    is_upper(b) || is_lower(b) || is_digit(b)
}

pub open spec fn is_hex_digit(b: u8) -> bool {
    is_digit(b) || LOWER_A <= b <= LOWER_F || UPPER_A <= b <= UPPER_F
}

/// A character set of the string family.
#[derive(Debug, Clone, Copy, PartialEq, Eq, Structural)]
pub enum Charset {
    /// `[A-Za-z]`.
    Alpha,
    /// `[a-z]`.
    LowerAlpha,
    /// `[A-Za-z0-9]`.
    AlphaNum,
    /// `[a-z0-9]`.
    LowerAlphaNum,
    /// `[A-Za-z0-9._-]`.
    Token,
    /// `[a-z0-9._-]`.
    LowerToken,
}

impl Charset {
    /// The set holds `b`.
    pub open spec fn holds(self, b: u8) -> bool {
        let mark = b == DOT || b == UNDERSCORE || b == HYPHEN;
        match self {
            Charset::Alpha => is_upper(b) || is_lower(b),
            Charset::LowerAlpha => is_lower(b),
            Charset::AlphaNum => is_alphanumeric(b),
            Charset::LowerAlphaNum => is_lower(b) || is_digit(b),
            Charset::Token => is_alphanumeric(b) || mark,
            Charset::LowerToken => is_lower(b) || is_digit(b) || mark,
        }
    }

    /// The set holds every byte.
    pub open spec fn admits(self, bytes: Seq<u8>) -> bool {
        forall|i: int| 0 <= i < bytes.len() ==> self.holds(#[trigger] bytes[i])
    }

    /// `e` is the first byte that the set does not hold.
    pub open spec fn first_alien(self, bytes: Seq<u8>, e: CharsetError) -> bool {
        &&& e.position < bytes.len()
        &&& bytes[e.position as int] == e.byte
        &&& !self.holds(e.byte)
        &&& self.admits(bytes.take(e.position as int))
    }

    /// Whether the set holds `b`.
    pub fn allows(self, b: u8) -> (r: bool)
        ensures
            r == self.holds(b),
    {
        let upper = UPPER_A <= b && b <= UPPER_Z;
        let lower = LOWER_A <= b && b <= LOWER_Z;
        let digit = DIGIT_0 <= b && b <= DIGIT_9;
        let mark = b == DOT || b == UNDERSCORE || b == HYPHEN;
        match self {
            Charset::Alpha => upper || lower,
            Charset::LowerAlpha => lower,
            Charset::AlphaNum => upper || lower || digit,
            Charset::LowerAlphaNum => lower || digit,
            Charset::Token => upper || lower || digit || mark,
            Charset::LowerToken => lower || digit || mark,
        }
    }

    /// First byte of `text` that the set does not hold, with its position.
    pub fn first_violation(self, text: &str) -> (r: Option<CharsetError>)
        ensures
            r is None <==> self.admits(encode_utf8(text@)),
            r matches Some(e) ==> self.first_alien(encode_utf8(text@), e),
    {
        let bytes = text.as_bytes();
        let mut i: usize = 0;
        while i < bytes.len()
            invariant
                bytes@ == encode_utf8(text@),
                i <= bytes@.len(),
                forall|j: int| 0 <= j < i ==> self.holds(#[trigger] bytes@[j]),
            decreases bytes@.len() - i,
        {
            let b: u8 = bytes[i];
            if !self.allows(b) {
                let e = CharsetError { position: i, byte: b };
                proof {
                    assert(!self.holds(bytes@[i as int]));
                    assert forall|j: int| 0 <= j < i implies self.holds(
                        #[trigger] bytes@.take(i as int)[j],
                    ) by {
                        assert(bytes@.take(i as int)[j] == bytes@[j]);
                    }
                }
                return Some(e);
            }
            i += 1;
        }
        None
    }
}

/// Text restricted to `[A-Za-z]`.
#[derive(Debug, PartialEq, Eq)]
pub struct AlphaString(String);

impl View for AlphaString {
    type V = Seq<char>;

    closed spec fn view(&self) -> Seq<char> {
        self.0@
    }
}

impl AlphaString {
    /// The text keeps to the set.
    #[verifier::type_invariant]
    closed spec fn well_formed(&self) -> bool {
        Charset::Alpha.admits(encode_utf8(self.0@))
    }

    /// Validate `text` against the set.
    pub fn parse(text: String) -> (r: Result<Self, CharsetError>)
        ensures
            r is Ok <==> Charset::Alpha.admits(encode_utf8(text@)),
            r matches Ok(s) ==> s@ == text@,
            r matches Err(e) ==> Charset::Alpha.first_alien(encode_utf8(text@), e),
    {
        match Charset::Alpha.first_violation(text.as_str()) {
            Some(error) => Err(error),
            None => Ok(AlphaString(text)),
        }
    }

    /// The validated text.
    pub fn as_str(&self) -> (r: &str)
        ensures
            r@ == self@,
            Charset::Alpha.admits(encode_utf8(r@)),
    {
        proof {
            use_type_invariant(self);
        }
        self.0.as_str()
    }
}

impl Clone for AlphaString {
    fn clone(&self) -> (r: Self)
        ensures
            r@ == self@,
    {
        proof {
            use_type_invariant(self);
        }
        AlphaString(self.0.clone())
    }
}

/// Text restricted to `[a-z]`.
#[derive(Debug, PartialEq, Eq)]
pub struct LowerAlphaString(String);

impl View for LowerAlphaString {
    type V = Seq<char>;

    closed spec fn view(&self) -> Seq<char> {
        self.0@
    }
}

impl LowerAlphaString {
    /// The text keeps to the set.
    #[verifier::type_invariant]
    closed spec fn well_formed(&self) -> bool {
        Charset::LowerAlpha.admits(encode_utf8(self.0@))
    }

    /// Validate `text` against the set.
    pub fn parse(text: String) -> (r: Result<Self, CharsetError>)
        ensures
            r is Ok <==> Charset::LowerAlpha.admits(encode_utf8(text@)),
            r matches Ok(s) ==> s@ == text@,
            r matches Err(e) ==> Charset::LowerAlpha.first_alien(encode_utf8(text@), e),
    {
        match Charset::LowerAlpha.first_violation(text.as_str()) {
            Some(error) => Err(error),
            None => Ok(LowerAlphaString(text)),
        }
    }

    /// The validated text.
    pub fn as_str(&self) -> (r: &str)
        ensures
            r@ == self@,
            Charset::LowerAlpha.admits(encode_utf8(r@)),
    {
        proof {
            use_type_invariant(self);
        }
        self.0.as_str()
    }
}

impl Clone for LowerAlphaString {
    fn clone(&self) -> (r: Self)
        ensures
            r@ == self@,
    {
        proof {
            use_type_invariant(self);
        }
        LowerAlphaString(self.0.clone())
    }
}

/// Text restricted to `[A-Za-z0-9]`.
#[derive(Debug, PartialEq, Eq)]
pub struct AlphaNumString(String);

impl View for AlphaNumString {
    type V = Seq<char>;

    closed spec fn view(&self) -> Seq<char> {
        self.0@
    }
}

impl AlphaNumString {
    /// The text keeps to the set.
    #[verifier::type_invariant]
    closed spec fn well_formed(&self) -> bool {
        Charset::AlphaNum.admits(encode_utf8(self.0@))
    }

    /// Validate `text` against the set.
    pub fn parse(text: String) -> (r: Result<Self, CharsetError>)
        ensures
            r is Ok <==> Charset::AlphaNum.admits(encode_utf8(text@)),
            r matches Ok(s) ==> s@ == text@,
            r matches Err(e) ==> Charset::AlphaNum.first_alien(encode_utf8(text@), e),
    {
        match Charset::AlphaNum.first_violation(text.as_str()) {
            Some(error) => Err(error),
            None => Ok(AlphaNumString(text)),
        }
    }

    /// The validated text.
    pub fn as_str(&self) -> (r: &str)
        ensures
            r@ == self@,
            Charset::AlphaNum.admits(encode_utf8(r@)),
    {
        proof {
            use_type_invariant(self);
        }
        self.0.as_str()
    }
}

impl Clone for AlphaNumString {
    fn clone(&self) -> (r: Self)
        ensures
            r@ == self@,
    {
        proof {
            use_type_invariant(self);
        }
        AlphaNumString(self.0.clone())
    }
}

/// Text restricted to `[a-z0-9]`.
#[derive(Debug, PartialEq, Eq)]
pub struct LowerAlphaNumString(String);

impl View for LowerAlphaNumString {
    type V = Seq<char>;

    closed spec fn view(&self) -> Seq<char> {
        self.0@
    }
}

impl LowerAlphaNumString {
    /// The text keeps to the set.
    #[verifier::type_invariant]
    closed spec fn well_formed(&self) -> bool {
        Charset::LowerAlphaNum.admits(encode_utf8(self.0@))
    }

    /// Validate `text` against the set.
    pub fn parse(text: String) -> (r: Result<Self, CharsetError>)
        ensures
            r is Ok <==> Charset::LowerAlphaNum.admits(encode_utf8(text@)),
            r matches Ok(s) ==> s@ == text@,
            r matches Err(e) ==> Charset::LowerAlphaNum.first_alien(encode_utf8(text@), e),
    {
        match Charset::LowerAlphaNum.first_violation(text.as_str()) {
            Some(error) => Err(error),
            None => Ok(LowerAlphaNumString(text)),
        }
    }

    /// The validated text.
    pub fn as_str(&self) -> (r: &str)
        ensures
            r@ == self@,
            Charset::LowerAlphaNum.admits(encode_utf8(r@)),
    {
        proof {
            use_type_invariant(self);
        }
        self.0.as_str()
    }
}

impl Clone for LowerAlphaNumString {
    fn clone(&self) -> (r: Self)
        ensures
            r@ == self@,
    {
        proof {
            use_type_invariant(self);
        }
        LowerAlphaNumString(self.0.clone())
    }
}

/// Text restricted to `[A-Za-z0-9._-]`.
#[derive(Debug, PartialEq, Eq)]
pub struct TokenString(String);

impl View for TokenString {
    type V = Seq<char>;

    closed spec fn view(&self) -> Seq<char> {
        self.0@
    }
}

impl TokenString {
    /// The text keeps to the set.
    #[verifier::type_invariant]
    closed spec fn well_formed(&self) -> bool {
        Charset::Token.admits(encode_utf8(self.0@))
    }

    /// Validate `text` against the set.
    pub fn parse(text: String) -> (r: Result<Self, CharsetError>)
        ensures
            r is Ok <==> Charset::Token.admits(encode_utf8(text@)),
            r matches Ok(s) ==> s@ == text@,
            r matches Err(e) ==> Charset::Token.first_alien(encode_utf8(text@), e),
    {
        match Charset::Token.first_violation(text.as_str()) {
            Some(error) => Err(error),
            None => Ok(TokenString(text)),
        }
    }

    /// The validated text.
    pub fn as_str(&self) -> (r: &str)
        ensures
            r@ == self@,
            Charset::Token.admits(encode_utf8(r@)),
    {
        proof {
            use_type_invariant(self);
        }
        self.0.as_str()
    }
}

impl Clone for TokenString {
    fn clone(&self) -> (r: Self)
        ensures
            r@ == self@,
    {
        proof {
            use_type_invariant(self);
        }
        TokenString(self.0.clone())
    }
}

/// Text restricted to `[a-z0-9._-]`.
#[derive(Debug, PartialEq, Eq)]
pub struct LowerTokenString(String);

impl View for LowerTokenString {
    type V = Seq<char>;

    closed spec fn view(&self) -> Seq<char> {
        self.0@
    }
}

impl LowerTokenString {
    /// The text keeps to the set.
    #[verifier::type_invariant]
    closed spec fn well_formed(&self) -> bool {
        Charset::LowerToken.admits(encode_utf8(self.0@))
    }

    /// Validate `text` against the set.
    pub fn parse(text: String) -> (r: Result<Self, CharsetError>)
        ensures
            r is Ok <==> Charset::LowerToken.admits(encode_utf8(text@)),
            r matches Ok(s) ==> s@ == text@,
            r matches Err(e) ==> Charset::LowerToken.first_alien(encode_utf8(text@), e),
    {
        match Charset::LowerToken.first_violation(text.as_str()) {
            Some(error) => Err(error),
            None => Ok(LowerTokenString(text)),
        }
    }

    /// The validated text.
    pub fn as_str(&self) -> (r: &str)
        ensures
            r@ == self@,
            Charset::LowerToken.admits(encode_utf8(r@)),
    {
        proof {
            use_type_invariant(self);
        }
        self.0.as_str()
    }
}

impl Clone for LowerTokenString {
    fn clone(&self) -> (r: Self)
        ensures
            r@ == self@,
    {
        proof {
            use_type_invariant(self);
        }
        LowerTokenString(self.0.clone())
    }
}

/// Longest URI accepted, in bytes.
pub const MAX_URI_LEN: usize = 8000;

/// Longest host, in bytes.
pub const MAX_HOST_LEN: usize = 253;

/// Longest host label, in bytes.
pub const MAX_LABEL_LEN: usize = 63;

/// Default port of `http`.
pub const DEFAULT_HTTP_PORT: u16 = 80;

/// Default port of `https`.
pub const DEFAULT_HTTPS_PORT: u16 = 443;

/// Why a path or query was refused.
#[derive(Debug, Clone, Copy, PartialEq, Eq, Structural)]
pub enum UriCharError {
    /// A byte that is no URI character and not part of an escape.
    IllegalByte {
        /// Zero-based byte offset.
        position: usize,
        /// The offending byte.
        byte: u8,
    },
    /// A `%` not followed by two hex digits.
    MalformedEscape {
        /// Zero-based byte offset of the `%`.
        position: usize,
    },
}

impl UriCharError {
    /// The text of the error.
    pub open spec fn text(self) -> Seq<char> {
        match self {
            UriCharError::IllegalByte { position, byte } => "byte 0x"@ + hex2(byte)
                + " at position "@ + dec(position as nat) + " is not a URI character"@,
            UriCharError::MalformedEscape { position } => "malformed percent-escape at position "@
                + dec(position as nat),
        }
    }

    /// The diagnostic text of the error.
    pub fn message(&self) -> (r: String)
        ensures
            r@ == self.text(),
    {
        match *self {
            UriCharError::IllegalByte { position, byte } => {
                let mut out = "byte 0x".to_owned();
                push_hex2(&mut out, byte);
                out.append(" at position ");
                push_dec(&mut out, position as u128);
                out.append(" is not a URI character");
                out
            },
            UriCharError::MalformedEscape { position } => {
                let mut out = "malformed percent-escape at position ".to_owned();
                push_dec(&mut out, position as u128);
                out
            },
        }
    }
}

/// Why a host is no DNS name.
#[derive(Debug, Clone, Copy, PartialEq, Eq, Structural)]
pub enum HostError {
    /// The host was empty.
    Empty,
    /// The host exceeded [`MAX_HOST_LEN`].
    TooLong {
        /// The rejected length.
        len: usize,
    },
    /// A label was empty.
    EmptyLabel,
    /// A label exceeded [`MAX_LABEL_LEN`].
    LabelTooLong {
        /// The rejected length.
        len: usize,
    },
    /// A label began or ended with a hyphen.
    LabelHyphenBoundary,
    /// A byte outside `[a-z0-9.-]`.
    Byte {
        /// The offending byte, in lower case.
        byte: u8,
    },
}

impl HostError {
    /// The text of the error.
    pub open spec fn text(self) -> Seq<char> {
        match self {
            HostError::Empty => "empty host"@,
            HostError::TooLong { len } => "host is "@ + dec(len as nat)
                + " octets, over the 253 limit"@,
            HostError::EmptyLabel => "empty host label (leading, trailing, or double dot)"@,
            HostError::LabelTooLong { len } => "host label is "@ + dec(len as nat)
                + " octets, over the 63 limit"@,
            HostError::LabelHyphenBoundary => "host label begins or ends with a hyphen"@,
            HostError::Byte { byte } => "byte 0x"@ + hex2(byte)
                + " is outside the host charset [a-z0-9.-]"@,
        }
    }

    /// The diagnostic text of the error.
    pub fn message(&self) -> (r: String)
        ensures
            r@ == self.text(),
    {
        match *self {
            HostError::Empty => "empty host".to_owned(),
            HostError::TooLong { len } => {
                let mut out = "host is ".to_owned();
                push_dec(&mut out, len as u128);
                out.append(" octets, over the 253 limit");
                out
            },
            HostError::EmptyLabel => {
                "empty host label (leading, trailing, or double dot)".to_owned()
            },
            HostError::LabelTooLong { len } => {
                let mut out = "host label is ".to_owned();
                push_dec(&mut out, len as u128);
                out.append(" octets, over the 63 limit");
                out
            },
            HostError::LabelHyphenBoundary => "host label begins or ends with a hyphen".to_owned(),
            HostError::Byte { byte } => {
                let mut out = "byte 0x".to_owned();
                push_hex2(&mut out, byte);
                out.append(" is outside the host charset [a-z0-9.-]");
                out
            },
        }
    }
}

/// Why a string is no `http(s)` URI.
#[derive(Debug, Clone, Copy, PartialEq, Eq, Structural)]
pub enum UriError {
    /// Longer than [`MAX_URI_LEN`].
    TooLong {
        /// The rejected length.
        len: usize,
    },
    /// No `http://` or `https://` prefix.
    Scheme,
    /// The authority carried userinfo.
    Userinfo,
    /// A port that is no number from 1 to 65535 in plain digits.
    BadPort,
    /// The host was invalid.
    Host(HostError),
    /// The path was invalid.
    Path(UriCharError),
    /// The query was invalid.
    Query(UriCharError),
}

impl UriError {
    /// The text of the error.
    pub open spec fn text(self) -> Seq<char> {
        match self {
            UriError::TooLong { len } => "URI is "@ + dec(len as nat)
                + " bytes, over the 8000 limit"@,
            UriError::Scheme => "URI scheme is not http:// or https://"@,
            UriError::Userinfo => "URI authority carries userinfo (user@host), not accepted"@,
            UriError::BadPort => "URI port is not a u16-range *DIGIT"@,
            UriError::Host(e) => "URI host: "@ + e.text(),
            UriError::Path(e) => "URI path: "@ + e.text(),
            UriError::Query(e) => "URI query: "@ + e.text(),
        }
    }

    /// The diagnostic text of the error.
    pub fn message(&self) -> (r: String)
        ensures
            r@ == self.text(),
    {
        match self {
            UriError::TooLong { len } => {
                let mut out = "URI is ".to_owned();
                push_dec(&mut out, *len as u128);
                out.append(" bytes, over the 8000 limit");
                out
            },
            UriError::Scheme => "URI scheme is not http:// or https://".to_owned(),
            UriError::Userinfo => {
                "URI authority carries userinfo (user@host), not accepted".to_owned()
            },
            UriError::BadPort => "URI port is not a u16-range *DIGIT".to_owned(),
            UriError::Host(e) => "URI host: ".to_owned().concat(e.message().as_str()),
            UriError::Path(e) => "URI path: ".to_owned().concat(e.message().as_str()),
            UriError::Query(e) => "URI query: ".to_owned().concat(e.message().as_str()),
        }
    }
}

/// The two schemes spoken here.
#[derive(Debug, Clone, Copy, PartialEq, Eq, Structural)]
pub enum Scheme {
    /// The `http` scheme.
    Http,
    /// The `https` scheme.
    Https,
}

impl Scheme {
    /// The scheme-default port.
    pub open spec fn port_spec(self) -> u16 {
        match self {
            Scheme::Http => DEFAULT_HTTP_PORT,
            Scheme::Https => DEFAULT_HTTPS_PORT,
        }
    }

    /// `http://` or `https://`.
    pub open spec fn prefix(self) -> Seq<u8> {
        match self {
            Scheme::Http => seq![LOWER_H, LOWER_T, LOWER_T, LOWER_P, COLON, SLASH, SLASH],
            Scheme::Https => seq![LOWER_H, LOWER_T, LOWER_T, LOWER_P, LOWER_S, COLON, SLASH, SLASH],
        }
    }

    /// The scheme-default port.
    pub fn default_port(self) -> (r: u16)
        ensures
            r == self.port_spec(),
    {
        match self {
            Scheme::Http => DEFAULT_HTTP_PORT,
            Scheme::Https => DEFAULT_HTTPS_PORT,
        }
    }

    /// `http://` or `https://`.
    fn prefix_bytes(self) -> (r: Vec<u8>)
        ensures
            r@ == self.prefix(),
    {
        let r = match self {
            Scheme::Http => vec![LOWER_H, LOWER_T, LOWER_T, LOWER_P, COLON, SLASH, SLASH],
            Scheme::Https => vec![LOWER_H, LOWER_T, LOWER_T, LOWER_P, LOWER_S, COLON, SLASH, SLASH],
        };
        assert(r@ =~= self.prefix());
        r
    }

    /// `http` or `https`.
    pub fn to_text(self) -> (r: String)
        ensures
            r@ == match self {
                Scheme::Http => "http"@,
                Scheme::Https => "https"@,
            },
    {
        match self {
            Scheme::Http => "http".to_owned(),
            Scheme::Https => "https".to_owned(),
        }
    }
}

/// The byte set shared by path and query segments: `unreserved`, `sub-delims`,
/// `:` and `@`.
pub open spec fn is_pchar_spec(b: u8) -> bool {
    ||| is_alphanumeric(b)
    ||| b == HYPHEN || b == DOT || b == UNDERSCORE || b == TILDE
    ||| b == BANG || b == DOLLAR || b == AMPERSAND || b == APOSTROPHE || b == PAREN_OPEN || b == PAREN_CLOSE
    ||| b == STAR || b == PLUS || b == COMMA || b == SEMICOLON || b == EQUALS
    ||| b == COLON || b == AT_SIGN
}

/// Whether a byte is in the set shared by path and query segments.
pub fn is_pchar(b: u8) -> (r: bool)
    ensures
        r == is_pchar_spec(b),
{
    Charset::AlphaNum.allows(b) || b == HYPHEN || b == DOT || b == UNDERSCORE || b == TILDE || b == BANG
        || b == DOLLAR || b == AMPERSAND || b == APOSTROPHE || b == PAREN_OPEN || b == PAREN_CLOSE || b == STAR || b == PLUS
        || b == COMMA || b == SEMICOLON || b == EQUALS || b == COLON || b == AT_SIGN
}

/// Which component an escape-aware scan validates.
#[derive(Debug, Clone, Copy, PartialEq, Eq, Structural)]
pub enum PctScan {
    /// The path: segments and `/`.
    Path,
    /// The query: segments, `/` and `?`.
    Query,
}

impl PctScan {
    /// The component admits the plain byte `b`.
    pub open spec fn holds(self, b: u8) -> bool {
        is_pchar_spec(b) || b == SLASH || (self is Query && b == QUESTION)
    }

    /// The first violation in `bytes` at or after `at`: bytes are admitted one
    /// by one, `%XX` escapes as a whole.
    pub open spec fn violation(self, bytes: Seq<u8>, at: int) -> Option<UriCharError>
        decreases bytes.len() - at,
    {
        if at >= bytes.len() {
            None
        } else if bytes[at] == PERCENT {
            if at + 2 < bytes.len() && is_hex_digit(bytes[at + 1]) && is_hex_digit(bytes[at + 2]) {
                self.violation(bytes, at + 3)
            } else {
                Some(UriCharError::MalformedEscape { position: at as usize })
            }
        } else if self.holds(bytes[at]) {
            self.violation(bytes, at + 1)
        } else {
            Some(UriCharError::IllegalByte { position: at as usize, byte: bytes[at] })
        }
    }

    /// Whether the component admits the plain byte `b`.
    fn allows(self, b: u8) -> (r: bool)
        ensures
            r == self.holds(b),
    {
        is_pchar(b) || b == SLASH || match self {
            PctScan::Query => b == QUESTION,
            PctScan::Path => false,
        }
    }

    /// First violation in `bytes`, or `None` when every byte is admitted or part
    /// of a well-formed escape.
    pub fn first_error(self, bytes: &[u8]) -> (r: Option<UriCharError>)
        ensures
            r == self.violation(bytes@, 0),
    {
        let mut at: usize = 0;
        while at < bytes.len()
            invariant
                at <= bytes@.len(),
                self.violation(bytes@, at as int) == self.violation(bytes@, 0),
            decreases bytes@.len() - at,
        {
            let b: u8 = bytes[at];
            if b == PERCENT {
                if bytes.len() - at > 2 && hex_digit(bytes[at + 1]) && hex_digit(bytes[at + 2]) {
                    at += 3;
                } else {
                    return Some(UriCharError::MalformedEscape { position: at });
                }
            } else if self.allows(b) {
                at += 1;
            } else {
                return Some(UriCharError::IllegalByte { position: at, byte: b });
            }
        }
        None
    }
}

fn hex_digit(b: u8) -> (r: bool)
    ensures
        r == is_hex_digit(b),
{
    (DIGIT_0 <= b && b <= DIGIT_9) || (LOWER_A <= b && b <= LOWER_F) || (UPPER_A <= b && b <= UPPER_F)
}

/// Everything a scan without violation lets through.
proof fn lemma_scan_bytes(scan: PctScan, bytes: Seq<u8>, at: int)
    requires
        0 <= at <= bytes.len(),
        scan.violation(bytes, at) is None,
    ensures
        forall|i: int|
            at <= i < bytes.len() ==> scan.holds(#[trigger] bytes[i]) || bytes[i] == PERCENT
                || is_hex_digit(bytes[i]),
    decreases bytes.len() - at,
{
    if at < bytes.len() {
        if bytes[at] == PERCENT {
            lemma_scan_bytes(scan, bytes, at + 3);
            assert forall|i: int| at <= i < bytes.len() implies scan.holds(#[trigger] bytes[i])
                || bytes[i] == PERCENT || is_hex_digit(bytes[i]) by {
                if i == at || i == at + 1 || i == at + 2 {
                    assert(is_hex_digit(bytes[at + 1]) && is_hex_digit(bytes[at + 2]));
                }
            }
        } else {
            lemma_scan_bytes(scan, bytes, at + 1);
        }
    }
}

/// The lower-case form of an ASCII letter; other bytes are their own.
pub open spec fn lower_byte(b: u8) -> u8 {
    if is_upper(b) {
        (b + 32) as u8
    } else {
        b
    }
}

/// ASCII letters in lower case.
pub open spec fn lower(bytes: Seq<u8>) -> Seq<u8> {
    Seq::new(bytes.len(), |i: int| lower_byte(bytes[i]))
}

fn lower_bytes(bytes: &[u8]) -> (r: Vec<u8>)
    ensures
        r@ == lower(bytes@),
{
    let mut out: Vec<u8> = Vec::new();
    let mut i: usize = 0;
    while i < bytes.len()
        invariant
            i <= bytes@.len(),
            out@ == lower(bytes@).take(i as int),
        decreases bytes@.len() - i,
    {
        let b: u8 = bytes[i];
        let l: u8 = if UPPER_A <= b && b <= UPPER_Z {
            b + 32
        } else {
            b
        };
        out.push(l);
        i += 1;
        assert(out@ =~= lower(bytes@).take(i as int));
    }
    assert(out@ =~= lower(bytes@));
    out
}

/// Position of the first byte at or after `from` that is one of the three
/// stops; the length when there is none.
pub open spec fn first_of(bytes: Seq<u8>, from: int, a: u8, b: u8, c: u8) -> int
    decreases bytes.len() - from,
{
    if from >= bytes.len() {
        bytes.len() as int
    } else if bytes[from] == a || bytes[from] == b || bytes[from] == c {
        from
    } else {
        first_of(bytes, from + 1, a, b, c)
    }
}

/// Position of the first `stop` at or after `from`; the length when there is
/// none.
pub open spec fn first_stop(bytes: Seq<u8>, from: int, stop: u8) -> int {
    first_of(bytes, from, stop, stop, stop)
}

fn find_of(bytes: &[u8], from: usize, a: u8, b: u8, c: u8) -> (r: usize)
    requires
        from <= bytes@.len(),
    ensures
        r == first_of(bytes@, from as int, a, b, c),
        from <= r <= bytes@.len(),
{
    let mut i: usize = from;
    while i < bytes.len()
        invariant
            from <= i <= bytes@.len(),
            first_of(bytes@, i as int, a, b, c) == first_of(bytes@, from as int, a, b, c),
        decreases bytes@.len() - i,
    {
        if bytes[i] == a || bytes[i] == b || bytes[i] == c {
            return i;
        }
        i += 1;
    }
    i
}

/// What [`first_of`] finds.
proof fn lemma_first_of(bytes: Seq<u8>, from: int, a: u8, b: u8, c: u8)
    requires
        0 <= from <= bytes.len(),
    ensures
        ({
            let r = first_of(bytes, from, a, b, c);
            &&& from <= r <= bytes.len()
            &&& r < bytes.len() ==> bytes[r] == a || bytes[r] == b || bytes[r] == c
            &&& forall|i: int|
                from <= i < r ==> (#[trigger] bytes[i]) != a && bytes[i] != b && bytes[i] != c
        }),
    decreases bytes.len() - from,
{
    if from < bytes.len() && bytes[from] != a && bytes[from] != b && bytes[from] != c {
        lemma_first_of(bytes, from + 1, a, b, c);
    }
}

/// What [`first_of`] must find.
proof fn lemma_first_of_is(bytes: Seq<u8>, from: int, a: u8, b: u8, c: u8, at: int)
    requires
        0 <= from <= at <= bytes.len(),
        forall|i: int|
            from <= i < at ==> (#[trigger] bytes[i]) != a && bytes[i] != b && bytes[i] != c,
        at < bytes.len() ==> bytes[at] == a || bytes[at] == b || bytes[at] == c,
    ensures
        first_of(bytes, from, a, b, c) == at,
    decreases at - from,
{
    if from < at {
        lemma_first_of_is(bytes, from + 1, a, b, c, at);
    }
}

/// Position of the last `stop` before `end`; -1 when there is none.
pub open spec fn last_stop(bytes: Seq<u8>, end: int, stop: u8) -> int
    decreases end,
{
    if end <= 0 {
        -1
    } else if bytes[end - 1] == stop {
        end - 1
    } else {
        last_stop(bytes, end - 1, stop)
    }
}

fn find_last(bytes: &[u8], stop: u8) -> (r: Option<usize>)
    ensures
        r matches Some(i) ==> i == last_stop(bytes@, bytes@.len() as int, stop) && i < bytes@.len(),
        r is None ==> last_stop(bytes@, bytes@.len() as int, stop) == -1,
{
    let mut end: usize = bytes.len();
    while end > 0
        invariant
            end <= bytes@.len(),
            last_stop(bytes@, end as int, stop) == last_stop(bytes@, bytes@.len() as int, stop),
        decreases end,
    {
        if bytes[end - 1] == stop {
            return Some(end - 1);
        }
        end -= 1;
    }
    None
}

proof fn lemma_last_stop_is(bytes: Seq<u8>, end: int, stop: u8, at: int)
    requires
        -1 <= at < end <= bytes.len(),
        at >= 0 ==> bytes[at] == stop,
        forall|i: int| at < i < end ==> (#[trigger] bytes[i]) != stop,
    ensures
        last_stop(bytes, end, stop) == at,
    decreases end,
{
    if at < end - 1 {
        lemma_last_stop_is(bytes, end - 1, stop, at);
    }
}

proof fn lemma_last_stop_none(bytes: Seq<u8>, end: int, stop: u8)
    requires
        0 <= end <= bytes.len(),
        forall|i: int| 0 <= i < end ==> (#[trigger] bytes[i]) != stop,
    ensures
        last_stop(bytes, end, stop) == -1,
    decreases end,
{
    if end > 0 {
        lemma_last_stop_none(bytes, end - 1, stop);
    }
}

/// A byte of a host label.
pub open spec fn is_label_byte(b: u8) -> bool {
    is_lower(b) || is_digit(b) || b == HYPHEN
}

/// Position of the first byte of `label` that no label may hold; the length when
/// there is none.
pub open spec fn first_bad_label_byte(label: Seq<u8>, from: int) -> int
    decreases label.len() - from,
{
    if from >= label.len() {
        label.len() as int
    } else if !is_label_byte(label[from]) {
        from
    } else {
        first_bad_label_byte(label, from + 1)
    }
}

/// Why a label is refused: it is empty, too long, has a hyphen at either end, or
/// holds another byte.
pub open spec fn label_error(label: Seq<u8>) -> Option<HostError> {
    let bad = first_bad_label_byte(label, 0);
    if label.len() == 0 {
        Some(HostError::EmptyLabel)
    } else if label.len() > MAX_LABEL_LEN {
        Some(HostError::LabelTooLong { len: label.len() as usize })
    } else if label[0] == HYPHEN || label.last() == HYPHEN {
        Some(HostError::LabelHyphenBoundary)
    } else if bad < label.len() {
        Some(HostError::Byte { byte: label[bad] })
    } else {
        None
    }
}

/// The first refusal among the dot-separated labels from `from` on.
pub open spec fn labels_error(host: Seq<u8>, from: int) -> Option<HostError>
    decreases host.len() - from + 1,
    when 0 <= from <= host.len()
    via labels_error_decreases
{
    let dot = first_stop(host, from, DOT);
    match label_error(host.subrange(from, dot)) {
        Some(e) => Some(e),
        None => if dot < host.len() {
            labels_error(host, dot + 1)
        } else {
            None
        },
    }
}

#[via_fn]
proof fn labels_error_decreases(host: Seq<u8>, from: int) {
    lemma_first_of(host, from, DOT, DOT, DOT);
}

/// Why a lower-case host is refused.
pub open spec fn host_error(host: Seq<u8>) -> Option<HostError> {
    if host.len() == 0 {
        Some(HostError::Empty)
    } else if host.len() > MAX_HOST_LEN {
        Some(HostError::TooLong { len: host.len() as usize })
    } else {
        labels_error(host, 0)
    }
}

fn check_label(label: &[u8]) -> (r: Option<HostError>)
    ensures
        r == label_error(label@),
{
    if label.len() == 0 {
        return Some(HostError::EmptyLabel);
    }
    if label.len() > MAX_LABEL_LEN {
        return Some(HostError::LabelTooLong { len: label.len() });
    }
    if label[0] == HYPHEN || label[label.len() - 1] == HYPHEN {
        return Some(HostError::LabelHyphenBoundary);
    }
    let mut i: usize = 0;
    while i < label.len()
        invariant
            i <= label@.len(),
            0 < label@.len() <= MAX_LABEL_LEN,
            label@[0] != HYPHEN && label@.last() != HYPHEN,
            first_bad_label_byte(label@, i as int) == first_bad_label_byte(label@, 0),
        decreases label@.len() - i,
    {
        let b: u8 = label[i];
        if !((LOWER_A <= b && b <= LOWER_Z) || (DIGIT_0 <= b && b <= DIGIT_9) || b == HYPHEN) {
            return Some(HostError::Byte { byte: b });
        }
        i += 1;
    }
    None
}

fn check_host(host: &[u8]) -> (r: Option<HostError>)
    ensures
        r == host_error(host@),
{
    if host.len() == 0 {
        return Some(HostError::Empty);
    }
    if host.len() > MAX_HOST_LEN {
        return Some(HostError::TooLong { len: host.len() });
    }
    let mut from: usize = 0;
    loop
        invariant
            from <= host@.len() <= MAX_HOST_LEN,
            labels_error(host@, from as int) == labels_error(host@, 0),
            host@.len() > 0,
            host_error(host@) == labels_error(host@, 0),
        decreases host@.len() - from,
    {
        let dot: usize = find_of(host, from, DOT, DOT, DOT);
        if let Some(e) = check_label(slice_subrange(host, from, dot)) {
            return Some(e);
        }
        if dot >= host.len() {
            return None;
        }
        from = dot + 1;
    }
}

/// DNS host in lower case.
///
/// `[a-z0-9.-]`, dot-separated labels of 1 to 63 bytes, at most 253 bytes in
/// all, no label that begins or ends with a hyphen. Two hosts that differ only in
/// case are equal.
#[derive(Debug, PartialEq, Eq)]
pub struct Host(String);

impl View for Host {
    type V = Seq<u8>;

    closed spec fn view(&self) -> Seq<u8> {
        encode_utf8(self.0@)
    }
}

impl Host {
    /// The host is well-formed.
    #[verifier::type_invariant]
    closed spec fn well_formed(&self) -> bool {
        host_error(encode_utf8(self.0@)) is None
    }

    /// Validate `text` (an authority with any port split off) as a host, in
    /// lower case.
    pub fn parse(text: String) -> (r: Result<Self, HostError>)
        ensures
            r is Ok <==> host_error(lower(encode_utf8(text@))) is None,
            r matches Ok(h) ==> h@ == lower(encode_utf8(text@)),
            r matches Err(e) ==> host_error(lower(encode_utf8(text@))) == Some(e),
    {
        Host::from_bytes(text.as_str().as_bytes())
    }

    fn from_bytes(bytes: &[u8]) -> (r: Result<Self, HostError>)
        ensures
            r is Ok <==> host_error(lower(bytes@)) is None,
            r matches Ok(h) ==> h@ == lower(bytes@),
            r matches Err(e) ==> host_error(lower(bytes@)) == Some(e),
    {
        let low = lower_bytes(bytes);
        match check_host(low.as_slice()) {
            Some(e) => Err(e),
            None => {
                proof {
                    lemma_host_bytes(low@);
                    lemma_ascii_utf8(low@);
                }
                match text_from_utf8(low) {
                    Some(text) => Ok(Host(text)),
                    None => Err(HostError::Empty),
                }
            },
        }
    }

    /// The host as text.
    pub fn to_text(&self) -> (r: String)
        ensures
            encode_utf8(r@) == self@,
            host_error(self@) is None,
    {
        proof {
            use_type_invariant(self);
        }
        self.0.clone()
    }
}

impl Clone for Host {
    fn clone(&self) -> (r: Self)
        ensures
            r@ == self@,
    {
        proof {
            use_type_invariant(self);
        }
        Host(self.0.clone())
    }
}

proof fn lemma_label_bytes(label: Seq<u8>, from: int)
    requires
        0 <= from <= label.len(),
        first_bad_label_byte(label, from) == label.len(),
    ensures
        forall|i: int| from <= i < label.len() ==> is_label_byte(#[trigger] label[i]),
    decreases label.len() - from,
{
    if from < label.len() {
        lemma_label_bytes(label, from + 1);
    }
}

proof fn lemma_labels_bytes(host: Seq<u8>, from: int)
    requires
        0 <= from <= host.len(),
        labels_error(host, from) is None,
    ensures
        forall|i: int|
            from <= i < host.len() ==> is_label_byte(#[trigger] host[i]) || host[i] == DOT,
    decreases host.len() - from,
{
    let dot = first_stop(host, from, DOT);
    lemma_first_of(host, from, DOT, DOT, DOT);
    let label = host.subrange(from, dot);
    let bad = first_bad_label_byte(label, 0);
    assert(bad >= label.len());
    lemma_bad_label_byte_bound(label, 0);
    lemma_label_bytes(label, 0);
    if dot < host.len() {
        lemma_labels_bytes(host, dot + 1);
    }
    assert forall|i: int| from <= i < host.len() implies is_label_byte(#[trigger] host[i])
        || host[i] == DOT by {
        if i < dot {
            assert(label[i - from] == host[i]);
        }
    }
}

proof fn lemma_bad_label_byte_bound(label: Seq<u8>, from: int)
    requires
        0 <= from <= label.len(),
    ensures
        from <= first_bad_label_byte(label, from) <= label.len(),
    decreases label.len() - from,
{
    if from < label.len() {
        lemma_bad_label_byte_bound(label, from + 1);
    }
}

/// Everything a well-formed host holds.
proof fn lemma_host_bytes(host: Seq<u8>)
    requires
        host_error(host) is None,
    ensures
        forall|i: int|
            0 <= i < host.len() ==> is_label_byte(#[trigger] host[i]) || host[i] == DOT,
        all_ascii(host),
        lower(host) == host,
{
    lemma_labels_bytes(host, 0);
    assert(lower(host) =~= host);
}

/// Path in origin form.
///
/// Segments of admitted bytes and `%XX` escapes, led by `/`. An empty path is
/// `/`.
#[derive(Debug, PartialEq, Eq)]
pub struct Path(String);

impl View for Path {
    type V = Seq<u8>;

    closed spec fn view(&self) -> Seq<u8> {
        encode_utf8(self.0@)
    }
}

/// A path in its normal form: an empty one is `/`.
pub open spec fn normal_path(raw: Seq<u8>) -> Seq<u8> {
    if raw.len() == 0 {
        seq![SLASH]
    } else {
        raw
    }
}

impl Path {
    /// The path is well-formed.
    #[verifier::type_invariant]
    closed spec fn well_formed(&self) -> bool {
        PctScan::Path.violation(encode_utf8(self.0@), 0) is None
    }

    /// Validate `text` as a path.
    pub fn parse(text: String) -> (r: Result<Self, UriCharError>)
        ensures
            r is Ok <==> PctScan::Path.violation(encode_utf8(text@), 0) is None,
            r matches Ok(p) ==> p@ == normal_path(encode_utf8(text@)),
            r matches Err(e) ==> PctScan::Path.violation(encode_utf8(text@), 0) == Some(e),
    {
        Path::from_bytes(text.as_str().as_bytes())
    }

    fn from_bytes(bytes: &[u8]) -> (r: Result<Self, UriCharError>)
        ensures
            r is Ok <==> PctScan::Path.violation(bytes@, 0) is None,
            r matches Ok(p) ==> p@ == normal_path(bytes@),
            r matches Err(e) ==> PctScan::Path.violation(bytes@, 0) == Some(e),
    {
        if let Some(e) = PctScan::Path.first_error(bytes) {
            return Err(e);
        }
        let normal = if bytes.len() == 0 {
            vec![SLASH]
        } else {
            slice_to_vec(bytes)
        };
        proof {
            assert(normal@ =~= normal_path(bytes@));
            reveal_with_fuel(PctScan::violation, 2);
            assert(PctScan::Path.violation(normal@, 0) is None);
            lemma_scan_bytes(PctScan::Path, normal@, 0);
            assert(all_ascii(normal@));
            lemma_ascii_utf8(normal@);
        }
        match text_from_utf8(normal) {
            Some(text) => Ok(Path(text)),
            None => Err(UriCharError::MalformedEscape { position: 0 }),
        }
    }

    /// The path as text.
    pub fn to_text(&self) -> (r: String)
        ensures
            encode_utf8(r@) == self@,
            PctScan::Path.violation(self@, 0) is None,
    {
        proof {
            use_type_invariant(self);
        }
        self.0.clone()
    }
}

impl Clone for Path {
    fn clone(&self) -> (r: Self)
        ensures
            r@ == self@,
    {
        proof {
            use_type_invariant(self);
        }
        Path(self.0.clone())
    }
}

/// Query component: admitted bytes and `%XX` escapes. An absent query and an
/// empty one are the same.
#[derive(Debug, PartialEq, Eq)]
pub struct Query(String);

impl View for Query {
    type V = Seq<u8>;

    closed spec fn view(&self) -> Seq<u8> {
        encode_utf8(self.0@)
    }
}

impl Query {
    /// The query is well-formed.
    #[verifier::type_invariant]
    closed spec fn well_formed(&self) -> bool {
        PctScan::Query.violation(encode_utf8(self.0@), 0) is None
    }

    /// Validate `text` as a query (the part after `?`).
    pub fn parse(text: String) -> (r: Result<Self, UriCharError>)
        ensures
            r is Ok <==> PctScan::Query.violation(encode_utf8(text@), 0) is None,
            r matches Ok(q) ==> q@ == encode_utf8(text@),
            r matches Err(e) ==> PctScan::Query.violation(encode_utf8(text@), 0) == Some(e),
    {
        Query::from_bytes(text.as_str().as_bytes())
    }

    fn from_bytes(bytes: &[u8]) -> (r: Result<Self, UriCharError>)
        ensures
            r is Ok <==> PctScan::Query.violation(bytes@, 0) is None,
            r matches Ok(q) ==> q@ == bytes@,
            r matches Err(e) ==> PctScan::Query.violation(bytes@, 0) == Some(e),
    {
        if let Some(e) = PctScan::Query.first_error(bytes) {
            return Err(e);
        }
        proof {
            lemma_scan_bytes(PctScan::Query, bytes@, 0);
            assert(all_ascii(bytes@));
            lemma_ascii_utf8(bytes@);
        }
        match text_from_utf8(slice_to_vec(bytes)) {
            Some(text) => Ok(Query(text)),
            None => Err(UriCharError::MalformedEscape { position: 0 }),
        }
    }

    /// `true` when the URI carried no query at all.
    pub fn is_empty(&self) -> (r: bool)
        ensures
            r == (self@.len() == 0),
    {
        self.0.as_str().as_bytes().len() == 0
    }

    /// The query as text.
    pub fn to_text(&self) -> (r: String)
        ensures
            encode_utf8(r@) == self@,
            PctScan::Query.violation(self@, 0) is None,
    {
        proof {
            use_type_invariant(self);
        }
        self.0.clone()
    }
}

impl Clone for Query {
    fn clone(&self) -> (r: Self)
        ensures
            r@ == self@,
    {
        proof {
            use_type_invariant(self);
        }
        Query(self.0.clone())
    }
}

/// The components of a URI.
#[verifier::ext_equal]
pub struct UriView {
    pub scheme: Scheme,
    pub host: Seq<u8>,
    pub port: u16,
    pub path: Seq<u8>,
    pub query: Seq<u8>,
}

/// `bytes` starts with `prefix` in either case.
pub open spec fn starts_with_any_case(bytes: Seq<u8>, prefix: Seq<u8>) -> bool {
    bytes.len() >= prefix.len() && lower(bytes.take(prefix.len() as int)) == prefix
}

/// The scheme of a URI.
pub open spec fn scheme_of(bytes: Seq<u8>) -> Option<Scheme> {
    if starts_with_any_case(bytes, Scheme::Https.prefix()) {
        Some(Scheme::Https)
    } else if starts_with_any_case(bytes, Scheme::Http.prefix()) {
        Some(Scheme::Http)
    } else {
        None
    }
}

/// Every byte is a decimal digit.
pub open spec fn all_digits(bytes: Seq<u8>) -> bool {
    forall|i: int| 0 <= i < bytes.len() ==> is_digit(#[trigger] bytes[i])
}

/// The number that decimal digits spell.
pub open spec fn dec_value(bytes: Seq<u8>) -> nat
    decreases bytes.len(),
{
    if bytes.len() == 0 {
        0
    } else {
        dec_value(bytes.drop_last()) * 10 + (bytes.last() - DIGIT_0) as nat
    }
}

/// The port that digits name: a number from 1 to 65535.
pub open spec fn port_of(bytes: Seq<u8>) -> Option<u16> {
    if bytes.len() > 0 && all_digits(bytes) && 0 < dec_value(bytes) <= 0xFFFF {
        Some(dec_value(bytes) as u16)
    } else {
        None
    }
}

/// An authority taken apart: the host as written, and the port where one is
/// written (`None` when it is no port).
pub open spec fn authority_host(authority: Seq<u8>) -> Seq<u8> {
    let colon = last_stop(authority, authority.len() as int, COLON);
    if colon < 0 {
        authority
    } else {
        authority.take(colon)
    }
}

/// The port of an authority: the written one, or the scheme default.
pub open spec fn authority_port(authority: Seq<u8>, scheme: Scheme) -> Option<u16> {
    let colon = last_stop(authority, authority.len() as int, COLON);
    if colon < 0 {
        Some(scheme.port_spec())
    } else {
        port_of(authority.skip(colon + 1))
    }
}

/// The components of the URI that `bytes` spell, or the first refusal in the
/// order length, scheme, userinfo, port, host, path, query. A fragment is
/// dropped.
pub open spec fn uri_of(bytes: Seq<u8>) -> Result<UriView, UriError> {
    match scheme_of(bytes) {
        _ if bytes.len() > MAX_URI_LEN => Err(UriError::TooLong { len: bytes.len() as usize }),
        None => Err(UriError::Scheme),
        Some(scheme) => uri_after_scheme(scheme, bytes.skip(scheme.prefix().len() as int)),
    }
}

/// [`uri_of`] behind the scheme.
pub open spec fn uri_after_scheme(scheme: Scheme, rest: Seq<u8>) -> Result<UriView, UriError> {
    let end = first_of(rest, 0, SLASH, QUESTION, HASH);
    let authority = rest.take(end);
    let host = lower(authority_host(authority));
    let port = authority_port(authority, scheme);
    let tail = rest.skip(end);
    let target = tail.take(first_stop(tail, 0, HASH));
    let mark = first_stop(target, 0, QUESTION);
    let path = target.take(mark);
    let query = if mark < target.len() {
        target.skip(mark + 1)
    } else {
        Seq::empty()
    };
    if authority.contains(AT_SIGN) {
        Err(UriError::Userinfo)
    } else if port is None {
        Err(UriError::BadPort)
    } else if host_error(host) is Some {
        Err(UriError::Host(host_error(host)->Some_0))
    } else if PctScan::Path.violation(path, 0) is Some {
        Err(UriError::Path(PctScan::Path.violation(path, 0)->Some_0))
    } else if PctScan::Query.violation(query, 0) is Some {
        Err(UriError::Query(PctScan::Query.violation(query, 0)->Some_0))
    } else {
        Ok(
            UriView {
                scheme,
                host,
                port: port->Some_0,
                path: normal_path(path),
                query,
            },
        )
    }
}

/// `n` in decimal, as bytes.
pub open spec fn dec_bytes(n: nat) -> Seq<u8>
    decreases n,
{
    if n < 10 {
        seq![(DIGIT_0 + n) as u8]
    } else {
        dec_bytes(n / 10).push((DIGIT_0 + n % 10) as u8)
    }
}

impl UriView {
    /// Host, and the port where it is not the scheme default.
    pub open spec fn authority(self) -> Seq<u8> {
        if self.port == self.scheme.port_spec() {
            self.host
        } else {
            self.host + seq![COLON] + dec_bytes(self.port as nat)
        }
    }

    /// The URI as bytes.
    pub open spec fn render(self) -> Seq<u8> {
        self.scheme.prefix() + self.authority() + self.path + if self.query.len() == 0 {
            Seq::empty()
        } else {
            seq![QUESTION] + self.query
        }
    }

    /// The path up to and including its last `/`.
    pub open spec fn directory(self) -> Seq<u8> {
        self.path.take(last_stop(self.path, self.path.len() as int, SLASH) + 1)
    }

    /// What a redirect to `location` asks for: an absolute URL, its scheme in either
    /// case, stands for itself; `//authority` keeps the scheme; `/path` keeps the authority;
    /// anything else is relative to the directory. Dot segments stay as they are.
    pub open spec fn redirect(self, location: Seq<u8>) -> Seq<u8> {
        if scheme_of(location) is Some {
            location
        } else if seq![SLASH, SLASH].is_prefix_of(location) {
            self.scheme.prefix() + location.skip(2)
        } else if seq![SLASH].is_prefix_of(location) {
            self.scheme.prefix() + self.authority() + location
        } else {
            self.scheme.prefix() + self.authority() + self.directory() + location
        }
    }
}

fn push_dec_bytes(out: &mut Vec<u8>, n: u16)
    ensures
        final(out)@ == old(out)@ + dec_bytes(n as nat),
    decreases n,
{
    let ghost start = out@;
    if n >= 10 {
        push_dec_bytes(out, n / 10);
    }
    let d: u8 = (n % 10) as u8;
    out.push(DIGIT_0 + d);
    proof {
        assert(dec_bytes(n as nat) =~= if n < 10 {
            seq![(DIGIT_0 + n) as u8]
        } else {
            dec_bytes(n as nat / 10).push((DIGIT_0 + n % 10) as u8)
        });
        assert(out@ =~= start + dec_bytes(n as nat));
    }
}

fn starts_any_case(bytes: &[u8], prefix: &[u8]) -> (r: bool)
    ensures
        r == starts_with_any_case(bytes@, prefix@),
{
    if bytes.len() < prefix.len() {
        return false;
    }
    let head = lower_bytes(slice_subrange(bytes, 0, prefix.len()));
    assert(head@ =~= lower(bytes@.take(prefix@.len() as int)));
    crate::bytes::same_bytes(head.as_slice(), prefix)
}

proof fn lemma_dec_value_grows(bytes: Seq<u8>, n: int)
    requires
        all_digits(bytes),
        0 <= n <= bytes.len(),
    ensures
        dec_value(bytes.take(n)) <= dec_value(bytes),
    decreases bytes.len() - n,
{
    if n < bytes.len() {
        let longer = bytes.take(n + 1);
        assert(longer.drop_last() =~= bytes.take(n));
        assert(is_digit(bytes[n]));
        lemma_dec_value_grows(bytes, n + 1);
    } else {
        assert(bytes.take(n) =~= bytes);
    }
}

fn parse_port(bytes: &[u8]) -> (r: Option<u16>)
    ensures
        r == port_of(bytes@),
{
    if bytes.len() == 0 {
        return None;
    }
    let mut i: usize = 0;
    while i < bytes.len()
        invariant
            i <= bytes@.len(),
            forall|j: int| 0 <= j < i ==> is_digit(#[trigger] bytes@[j]),
        decreases bytes@.len() - i,
    {
        let b: u8 = bytes[i];
        if b < DIGIT_0 || b > DIGIT_9 {
            assert(!is_digit(bytes@[i as int]));
            return None;
        }
        i += 1;
    }
    assert(all_digits(bytes@));
    let mut value: u32 = 0;
    let mut k: usize = 0;
    while k < bytes.len()
        invariant
            k <= bytes@.len(),
            bytes@.len() > 0,
            all_digits(bytes@),
            value == dec_value(bytes@.take(k as int)),
            value <= 0xFFFF,
        decreases bytes@.len() - k,
    {
        assert(is_digit(bytes@[k as int]));
        let d: u8 = bytes[k] - DIGIT_0;
        value = value * 10 + d as u32;
        k += 1;
        proof {
            assert(bytes@.take(k as int).drop_last() =~= bytes@.take(k - 1));
        }
        if value > 0xFFFF {
            proof {
                lemma_dec_value_grows(bytes@, k as int);
            }
            return None;
        }
    }
    assert(bytes@.take(k as int) =~= bytes@);
    if value == 0 {
        return None;
    }
    Some(value as u16)
}

/// The one URL type: an `http(s)://host[:port]/path[?query]` taken apart into
/// validated components.
#[derive(Debug, PartialEq, Eq)]
pub struct Uri {
    scheme: Scheme,
    host: Host,
    port: u16,
    path: Path,
    query: Query,
}

impl View for Uri {
    type V = UriView;

    closed spec fn view(&self) -> UriView {
        UriView {
            scheme: self.scheme,
            host: self.host@,
            port: self.port,
            path: self.path@,
            query: self.query@,
        }
    }
}

impl Uri {
    /// Take `input` apart and validate each component.
    pub fn parse(input: String) -> (r: Result<Self, UriError>)
        ensures
            r is Ok <==> uri_of(encode_utf8(input@)) is Ok,
            r matches Ok(u) ==> uri_of(encode_utf8(input@)) == Ok::<UriView, UriError>(u@),
            r matches Err(e) ==> uri_of(encode_utf8(input@)) == Err::<UriView, UriError>(e),
    {
        Uri::parse_bytes(input.as_str().as_bytes())
    }

    /// [`Uri::parse`] on UTF-8 bytes.
    pub fn parse_bytes(bytes: &[u8]) -> (r: Result<Self, UriError>)
        ensures
            r is Ok <==> uri_of(bytes@) is Ok,
            r matches Ok(u) ==> uri_of(bytes@) == Ok::<UriView, UriError>(u@),
            r matches Err(e) ==> uri_of(bytes@) == Err::<UriView, UriError>(e),
    {
        if bytes.len() > MAX_URI_LEN {
            return Err(UriError::TooLong { len: bytes.len() });
        }
        let https = Scheme::Https.prefix_bytes();
        let http = Scheme::Http.prefix_bytes();
        if starts_any_case(bytes, https.as_slice()) {
            let rest = slice_subrange(bytes, https.len(), bytes.len());
            assert(rest@ =~= bytes@.skip(https@.len() as int));
            Uri::parse_after_scheme(Scheme::Https, rest)
        } else if starts_any_case(bytes, http.as_slice()) {
            let rest = slice_subrange(bytes, http.len(), bytes.len());
            assert(rest@ =~= bytes@.skip(http@.len() as int));
            Uri::parse_after_scheme(Scheme::Http, rest)
        } else {
            Err(UriError::Scheme)
        }
    }

    fn parse_after_scheme(scheme: Scheme, rest: &[u8]) -> (r: Result<Self, UriError>)
        ensures
            r is Ok <==> uri_after_scheme(scheme, rest@) is Ok,
            r matches Ok(u) ==> uri_after_scheme(scheme, rest@) == Ok::<UriView, UriError>(u@),
            r matches Err(e) ==> uri_after_scheme(scheme, rest@) == Err::<UriView, UriError>(e),
    {
        let end: usize = find_of(rest, 0, SLASH, QUESTION, HASH);
        let authority = slice_subrange(rest, 0, end);
        let tail = slice_subrange(rest, end, rest.len());
        assert(authority@ =~= rest@.take(end as int));
        assert(tail@ =~= rest@.skip(end as int));
        let at: usize = find_of(authority, 0, AT_SIGN, AT_SIGN, AT_SIGN);
        proof {
            lemma_first_of(authority@, 0, AT_SIGN, AT_SIGN, AT_SIGN);
            if at < authority@.len() {
                assert(authority@[at as int] == AT_SIGN);
                assert(authority@.contains(AT_SIGN));
            } else {
                assert(!authority@.contains(AT_SIGN));
            }
        }
        if at < authority.len() {
            return Err(UriError::Userinfo);
        }
        let (host_raw, port) = match find_last(authority, COLON) {
            Some(colon) => {
                let port_raw = slice_subrange(authority, colon + 1, authority.len());
                assert(port_raw@ =~= authority@.skip(colon + 1));
                match parse_port(port_raw) {
                    Some(port) => {
                        let host_raw = slice_subrange(authority, 0, colon);
                        assert(host_raw@ =~= authority@.take(colon as int));
                        (host_raw, port)
                    },
                    None => return Err(UriError::BadPort),
                }
            },
            None => (authority, scheme.default_port()),
        };
        let host = match Host::from_bytes(host_raw) {
            Ok(host) => host,
            Err(e) => return Err(UriError::Host(e)),
        };
        let hash: usize = find_of(tail, 0, HASH, HASH, HASH);
        let target = slice_subrange(tail, 0, hash);
        assert(target@ =~= tail@.take(hash as int));
        let mark: usize = find_of(target, 0, QUESTION, QUESTION, QUESTION);
        let path_raw = slice_subrange(target, 0, mark);
        assert(path_raw@ =~= target@.take(mark as int));
        let query_raw = if mark < target.len() {
            slice_subrange(target, mark + 1, target.len())
        } else {
            slice_subrange(target, target.len(), target.len())
        };
        proof {
            if mark < target@.len() {
                assert(query_raw@ =~= target@.skip(mark + 1));
            } else {
                assert(query_raw@ =~= Seq::<u8>::empty());
            }
        }
        let path = match Path::from_bytes(path_raw) {
            Ok(path) => path,
            Err(e) => return Err(UriError::Path(e)),
        };
        let query = match Query::from_bytes(query_raw) {
            Ok(query) => query,
            Err(e) => return Err(UriError::Query(e)),
        };
        Ok(Uri { scheme, host, port, path, query })
    }

    /// The scheme component.
    pub fn scheme(&self) -> (r: Scheme)
        ensures
            r == self@.scheme,
    {
        self.scheme
    }

    /// The host component.
    pub fn host(&self) -> (r: &Host)
        ensures
            r@ == self@.host,
    {
        &self.host
    }

    /// The effective port: explicit, or the scheme default.
    pub fn port(&self) -> (r: u16)
        ensures
            r == self@.port,
    {
        self.port
    }

    /// The path component.
    pub fn path(&self) -> (r: &Path)
        ensures
            r@ == self@.path,
    {
        &self.path
    }

    /// The query component; empty when the URI carried none.
    pub fn query(&self) -> (r: &Query)
        ensures
            r@ == self@.query,
    {
        &self.query
    }

    /// Append scheme and authority.
    fn push_origin(&self, out: &mut Vec<u8>)
        ensures
            final(out)@ == old(out)@ + self@.scheme.prefix() + self@.authority(),
    {
        let ghost start = out@;
        let prefix = self.scheme.prefix_bytes();
        push_all(out, prefix.as_slice());
        push_all(out, self.host.0.as_str().as_bytes());
        if self.port != self.scheme.default_port() {
            out.push(COLON);
            push_dec_bytes(out, self.port);
        }
        assert(out@ =~= start + self@.scheme.prefix() + self@.authority());
    }

    /// The URI as text, with the scheme-default port left out.
    pub fn to_text(&self) -> (r: String)
        ensures
            encode_utf8(r@) == self@.render(),
    {
        let mut out: Vec<u8> = Vec::new();
        self.push_origin(&mut out);
        push_all(&mut out, self.path.0.as_str().as_bytes());
        if !self.query.is_empty() {
            out.push(QUESTION);
            push_all(&mut out, self.query.0.as_str().as_bytes());
        }
        proof {
            use_type_invariant(&self.host);
            use_type_invariant(&self.path);
            use_type_invariant(&self.query);
            assert(out@ =~= self@.render());
            lemma_render_ascii(self@);
            lemma_ascii_utf8(out@);
        }
        match text_from_utf8(out) {
            Some(text) => text,
            None => String::new(),
        }
    }

    /// Resolve a redirect `Location` against this URL and parse the result.
    pub fn join(&self, location: String) -> (r: Result<Self, UriError>)
        ensures
            ({
                let target = uri_of(self@.redirect(encode_utf8(location@)));
                &&& r is Ok <==> target is Ok
                &&& r matches Ok(u) ==> target == Ok::<UriView, UriError>(u@)
                &&& r matches Err(e) ==> target == Err::<UriView, UriError>(e)
            }),
    {
        let bytes = location.as_str().as_bytes();
        let https = Scheme::Https.prefix_bytes();
        let http = Scheme::Http.prefix_bytes();
        let ghost place = bytes@;
        proof {
            lemma_prefix_at(seq![SLASH, SLASH], place);
            lemma_prefix_at(seq![SLASH], place);
        }
        if starts_any_case(bytes, https.as_slice()) || starts_any_case(bytes, http.as_slice()) {
            return Uri::parse_bytes(bytes);
        }
        let mut target: Vec<u8> = Vec::new();
        let slashes = vec![SLASH, SLASH];
        let slash = vec![SLASH];
        assert(slashes@ =~= seq![SLASH, SLASH]);
        assert(slash@ =~= seq![SLASH]);
        if holds_at(bytes, 0, slashes.as_slice()) {
            let prefix = self.scheme.prefix_bytes();
            push_all(&mut target, prefix.as_slice());
            push_all(&mut target, slice_subrange(bytes, 2, bytes.len()));
            assert(target@ =~= self@.redirect(place));
            return Uri::parse_bytes(target.as_slice());
        }
        self.push_origin(&mut target);
        if !holds_at(bytes, 0, slash.as_slice()) {
            let path = self.path.0.as_str().as_bytes();
            let len: usize = path.len();
            let dir_end: usize = match find_last(path, SLASH) {
                Some(i) => {
                    assert(i < len);
                    i + 1
                },
                None => 0,
            };
            let ghost before = target@;
            push_all(&mut target, slice_subrange(path, 0, dir_end));
            assert(target@ =~= before + self@.directory());
        }
        push_all(&mut target, bytes);
        assert(target@ =~= self@.redirect(place));
        Uri::parse_bytes(target.as_slice())
    }
}

impl Clone for Uri {
    fn clone(&self) -> (r: Self)
        ensures
            r@ == self@,
    {
        Uri {
            scheme: self.scheme,
            host: self.host.clone(),
            port: self.port,
            path: self.path.clone(),
            query: self.query.clone(),
        }
    }
}

proof fn lemma_prefix_at(prefix: Seq<u8>, bytes: Seq<u8>)
    ensures
        prefix.is_prefix_of(bytes) == (prefix.len() <= bytes.len() && bytes.subrange(
            0,
            prefix.len() as int,
        ) == prefix),
{
}

proof fn lemma_dec_bytes(n: nat)
    ensures
        dec_bytes(n).len() > 0,
        all_digits(dec_bytes(n)),
        dec_value(dec_bytes(n)) == n,
    decreases n,
{
    if n < 10 {
        let one = dec_bytes(n);
        assert(one.drop_last() =~= Seq::<u8>::empty());
        assert(dec_value(one.drop_last()) == 0);
    } else {
        lemma_dec_bytes(n / 10);
        let all = dec_bytes(n);
        assert(all.drop_last() =~= dec_bytes(n / 10));
        assert forall|i: int| 0 <= i < all.len() implies is_digit(#[trigger] all[i]) by {
            if i < all.len() - 1 {
                assert(all[i] == dec_bytes(n / 10)[i]);
            }
        }
    }
}

/// The parts of a URI that parsed are well-formed.
pub open spec fn uri_well_formed(v: UriView) -> bool {
    &&& host_error(v.host) is None
    &&& v.port > 0
    &&& v.path.len() > 0 && v.path[0] == SLASH
    &&& PctScan::Path.violation(v.path, 0) is None
    &&& PctScan::Query.violation(v.query, 0) is None
}

proof fn lemma_render_ascii(v: UriView)
    requires
        host_error(v.host) is None,
        PctScan::Path.violation(v.path, 0) is None,
        PctScan::Query.violation(v.query, 0) is None,
    ensures
        all_ascii(v.render()),
{
    lemma_host_bytes(v.host);
    lemma_scan_bytes(PctScan::Path, v.path, 0);
    lemma_scan_bytes(PctScan::Query, v.query, 0);
    lemma_dec_bytes(v.port as nat);
    assert(all_ascii(v.scheme.prefix()));
    assert(all_ascii(dec_bytes(v.port as nat))) by {
        assert forall|i: int| 0 <= i < dec_bytes(v.port as nat).len() implies #[trigger] dec_bytes(
            v.port as nat,
        )[i] < 128 by {
            assert(is_digit(dec_bytes(v.port as nat)[i]));
        }
    }
    assert(all_ascii(v.authority()));
    assert(all_ascii(v.path));
    assert(all_ascii(v.query));
    lemma_ascii_concat(v.scheme.prefix(), v.authority());
    lemma_ascii_concat(v.scheme.prefix() + v.authority(), v.path);
    if v.query.len() > 0 {
        lemma_ascii_concat(seq![QUESTION], v.query);
        lemma_ascii_concat(
            v.scheme.prefix() + v.authority() + v.path,
            seq![QUESTION] + v.query,
        );
    } else {
        assert(v.render() =~= v.scheme.prefix() + v.authority() + v.path);
    }
}

proof fn lemma_ascii_concat(a: Seq<u8>, b: Seq<u8>)
    requires
        all_ascii(a),
        all_ascii(b),
    ensures
        all_ascii(a + b),
{
    assert forall|i: int| 0 <= i < (a + b).len() implies #[trigger] (a + b)[i] < 128 by {
        if i < a.len() {
            assert((a + b)[i] == a[i]);
        } else {
            assert((a + b)[i] == b[i - a.len()]);
        }
    }
}

/// Every URI that parses has well-formed components: a valid lower-case host, a
/// port that is not zero, a path led by `/`, and a path and a query of admitted
/// bytes and whole escapes.
pub proof fn law_parsed_components_are_well_formed(bytes: Seq<u8>, v: UriView)
    requires
        uri_of(bytes) == Ok::<UriView, UriError>(v),
    ensures
        uri_well_formed(v),
{
    let scheme = scheme_of(bytes)->Some_0;
    let rest = bytes.skip(scheme.prefix().len() as int);
    let end = first_of(rest, 0, SLASH, QUESTION, HASH);
    lemma_first_of(rest, 0, SLASH, QUESTION, HASH);
    let tail = rest.skip(end);
    let hash = first_stop(tail, 0, HASH);
    lemma_first_of(tail, 0, HASH, HASH, HASH);
    let target = tail.take(hash);
    let mark = first_stop(target, 0, QUESTION);
    lemma_first_of(target, 0, QUESTION, QUESTION, QUESTION);
    let path = target.take(mark);
    if path.len() > 0 {
        assert(path[0] == target[0]);
        assert(target[0] == tail[0]);
        assert(tail[0] == rest[end]);
        assert(target[0] != QUESTION);
        assert(tail[0] != HASH);
    } else {
        reveal_with_fuel(PctScan::violation, 2);
    }
}

proof fn lemma_render_scheme(v: UriView)
    ensures
        scheme_of(v.render()) == Some(v.scheme),
        v.render().skip(v.scheme.prefix().len() as int) == v.authority() + v.path + (
        if v.query.len() == 0 {
            Seq::empty()
        } else {
            seq![QUESTION] + v.query
        }),
{
    let all = v.render();
    let p = v.scheme.prefix();
    let rest = v.authority() + v.path + if v.query.len() == 0 {
        Seq::empty()
    } else {
        seq![QUESTION] + v.query
    };
    assert(all =~= p + rest);
    assert(all.skip(p.len() as int) =~= rest);
    assert(all.take(p.len() as int) =~= p);
    assert(lower(p) =~= p);
    if v.scheme is Http {
        let s = Scheme::Https.prefix();
        if starts_with_any_case(all, s) {
            assert(lower(all.take(8))[4] == s[4]);
            assert(all[4] == p[4]);
            assert(false);
        }
    }
}

/// Parsing a rendered URI gives back the URI: rendering and parsing are inverse
/// on everything that parsing accepts, as long as the rendered text does not
/// exceed the length limit itself.
pub proof fn law_uri_round_trip(bytes: Seq<u8>, v: UriView)
    requires
        uri_of(bytes) == Ok::<UriView, UriError>(v),
        v.render().len() <= MAX_URI_LEN,
    ensures
        uri_of(v.render()) == Ok::<UriView, UriError>(v),
{
    law_parsed_components_are_well_formed(bytes, v);
    lemma_render_parses(v);
}

/// A rendered URI of well-formed components parses.
#[verifier::rlimit(30)]
proof fn lemma_render_parses(v: UriView)
    requires
        uri_well_formed(v),
        v.render().len() <= MAX_URI_LEN,
    ensures
        uri_of(v.render()) == Ok::<UriView, UriError>(v),
{
    lemma_render_scheme(v);
    lemma_host_bytes(v.host);
    lemma_scan_bytes(PctScan::Path, v.path, 0);
    lemma_scan_bytes(PctScan::Query, v.query, 0);
    lemma_dec_bytes(v.port as nat);
    let suffix = if v.query.len() == 0 {
        Seq::empty()
    } else {
        seq![QUESTION] + v.query
    };
    let authority = v.authority();
    let tail = v.path + suffix;
    let rest = authority + v.path + suffix;
    assert(rest =~= authority + tail);
    let port_text = dec_bytes(v.port as nat);
    assert forall|i: int| 0 <= i < authority.len() implies (#[trigger] authority[i]) != SLASH
        && authority[i] != QUESTION && authority[i] != HASH && authority[i] != AT_SIGN by {
        if i < v.host.len() {
            assert(authority[i] == v.host[i]);
        } else if i > v.host.len() {
            assert(authority[i] == port_text[i - v.host.len() - 1]);
            assert(is_digit(port_text[i - v.host.len() - 1]));
        }
    }
    assert(rest[authority.len() as int] == v.path[0]);
    assert forall|i: int| 0 <= i < authority.len() implies (#[trigger] rest[i]) != SLASH && rest[i]
        != QUESTION && rest[i] != HASH by {
        assert(rest[i] == authority[i]);
    }
    lemma_first_of_is(rest, 0, SLASH, QUESTION, HASH, authority.len() as int);
    assert(rest.take(authority.len() as int) =~= authority);
    assert(rest.skip(authority.len() as int) =~= tail);
    assert(!authority.contains(AT_SIGN));
    if v.port == v.scheme.port_spec() {
        assert forall|i: int| 0 <= i < authority.len() implies (#[trigger] authority[i]) != COLON by {
            assert(authority[i] == v.host[i]);
        }
        lemma_last_stop_none(authority, authority.len() as int, COLON);
    } else {
        let colon = v.host.len() as int;
        assert(authority[colon] == COLON);
        assert forall|i: int| colon < i < authority.len() implies (#[trigger] authority[i])
            != COLON by {
            assert(authority[i] == port_text[i - colon - 1]);
            assert(is_digit(port_text[i - colon - 1]));
        }
        lemma_last_stop_is(authority, authority.len() as int, COLON, colon);
        assert(authority.take(colon) =~= v.host);
        assert(authority.skip(colon + 1) =~= port_text);
    }
    assert(lower(authority_host(authority)) == v.host);
    assert(authority_port(authority, v.scheme) == Some(v.port));
    assert forall|i: int| 0 <= i < tail.len() implies (#[trigger] tail[i]) != HASH by {
        if i < v.path.len() {
            assert(tail[i] == v.path[i]);
        } else if i > v.path.len() {
            assert(tail[i] == v.query[i - v.path.len() - 1]);
        }
    }
    lemma_first_of_is(tail, 0, HASH, HASH, HASH, tail.len() as int);
    assert(tail.take(tail.len() as int) =~= tail);
    assert forall|i: int| 0 <= i < v.path.len() implies (#[trigger] tail[i]) != QUESTION by {
        assert(tail[i] == v.path[i]);
    }
    if v.query.len() == 0 {
        assert(tail =~= v.path);
    } else {
        assert(tail[v.path.len() as int] == QUESTION);
        assert(tail.skip(v.path.len() as int + 1) =~= v.query);
    }
    lemma_first_of_is(tail, 0, QUESTION, QUESTION, QUESTION, v.path.len() as int);
    assert(tail.take(v.path.len() as int) =~= v.path);
    if v.query.len() == 0 {
        assert(v.query =~= Seq::<u8>::empty());
    }
    assert(uri_after_scheme(v.scheme, rest) == Ok::<UriView, UriError>(v));
}

} // verus!
