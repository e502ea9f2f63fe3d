//! Identity values read from a card.

use vstd::prelude::*;
use vstd::string::*;

verus! {

/// Serial of the card application, in hexadecimal.
#[derive(Debug, PartialEq, Eq)]
pub struct TokenSerial(String);

impl View for TokenSerial {
    type V = Seq<char>;

    closed spec fn view(&self) -> Seq<char> {
        self.0@
    }
}

impl TokenSerial {
    /// Wrap a serial.
    pub fn new(text: String) -> (r: Self)
        ensures
            r@ == text@,
    {
        TokenSerial(text)
    }

    /// Borrow the serial.
    pub fn as_str(&self) -> (r: &str)
        ensures
            r@ == self@,
    {
        self.0.as_str()
    }
}

impl Clone for TokenSerial {
    fn clone(&self) -> (r: Self)
        ensures
            r@ == self@,
    {
        TokenSerial(self.0.as_str().to_owned())
    }
}

/// Serial number of a certificate, as its bytes stand there.
#[derive(Debug, PartialEq, Eq)]
pub struct CertSerial(Vec<u8>);

impl View for CertSerial {
    type V = Seq<u8>;

    closed spec fn view(&self) -> Seq<u8> {
        self.0@
    }
}

impl CertSerial {
    /// Wrap serial bytes.
    pub fn from_bytes(bytes: Vec<u8>) -> (r: Self)
        ensures
            r@ == bytes@,
    {
        CertSerial(bytes)
    }

    /// Borrow the serial bytes.
    pub fn as_bytes(&self) -> (r: &[u8])
        ensures
            r@ == self@,
    {
        self.0.as_slice()
    }
}

/// White space of any script.
pub open spec fn is_space(c: char) -> bool {
    let n = c as u32;
    ||| 0x09 <= n <= 0x0D
    ||| n == 0x20 || n == 0x85 || n == 0xA0 || n == 0x1680
    ||| 0x2000 <= n <= 0x200A
    ||| n == 0x2028 || n == 0x2029 || n == 0x202F || n == 0x205F || n == 0x3000
}

/// `text` is a local part and a domain around one `@`, without white space.
pub open spec fn is_email(text: Seq<char>) -> bool {
    &&& exists|i: int| 0 < i < text.len() - 1 && #[trigger] text[i] == '@'
    &&& forall|i: int, j: int|
        0 <= i < text.len() && 0 <= j < text.len() && #[trigger] text[i] == '@'
            && #[trigger] text[j] == '@' ==> i == j
    &&& forall|i: int| 0 <= i < text.len() ==> !is_space(#[trigger] text[i])
}

/// The text when it is an e-mail address.
pub open spec fn email_of(text: Seq<char>) -> Option<Seq<char>> {
    if is_email(text) {
        Some(text)
    } else {
        None
    }
}

/// E-mail address.
#[derive(Debug, PartialEq, Eq)]
pub struct EmailAddress(String);

impl View for EmailAddress {
    type V = Seq<char>;

    closed spec fn view(&self) -> Seq<char> {
        self.0@
    }
}

/// Whether a character is white space.
pub fn space(c: char) -> (r: bool)
    ensures
        r == is_space(c),
{
    let n: u32 = c as u32;
    (0x09 <= n && n <= 0x0D) || n == 0x20 || n == 0x85 || n == 0xA0 || n == 0x1680 || (0x2000 <= n
        && n <= 0x200A) || n == 0x2028 || n == 0x2029 || n == 0x202F || n == 0x205F || n == 0x3000
}

impl EmailAddress {
    /// Check an address: exactly one `@` with something on either side, and no white
    /// space.
    pub fn new(text: &str) -> (r: Option<Self>)
        ensures
            r is Some <==> is_email(text@),
            r matches Some(e) ==> e@ == text@,
    {
        let n: usize = text.unicode_len();
        let mut at: Option<usize> = None;
        let mut i: usize = 0;
        while i < n
            invariant
                i <= n,
                n == text@.len(),
                at matches Some(a) ==> a < i && text@[a as int] == '@' && forall|j: int|
                    0 <= j < i && #[trigger] text@[j] == '@' ==> j == a,
                at is None ==> forall|j: int| 0 <= j < i ==> #[trigger] text@[j] != '@',
                forall|j: int| 0 <= j < i ==> !is_space(#[trigger] text@[j]),
            decreases n - i,
        {
            let c = text.get_char(i);
            if space(c) {
                assert(is_space(text@[i as int]));
                return None;
            }
            if c == '@' {
                match at {
                    Some(a) => {
                        assert(text@[a as int] == '@' && text@[i as int] == '@');
                        return None;
                    },
                    None => {
                        at = Some(i);
                    },
                }
            }
            i += 1;
        }
        match at {
            Some(a) => if a > 0 && a + 1 < n {
                assert(text@[a as int] == '@');
                Some(EmailAddress(text.to_owned()))
            } else {
                None
            },
            None => None,
        }
    }

    /// Borrow the address.
    pub fn as_str(&self) -> (r: &str)
        ensures
            r@ == self@,
    {
        self.0.as_str()
    }
}

/// White space, and where `nul` is set the NUL that pads fixed-size fields.
pub open spec fn is_padding(c: char, nul: bool) -> bool {
    is_space(c) || (nul && c == '\0')
}

fn padding(c: char, nul: bool) -> (r: bool)
    ensures
        r == is_padding(c, nul),
{
    space(c) || (nul && c == '\0')
}

/// `text` without leading padding.
pub open spec fn without_leading(text: Seq<char>, nul: bool) -> Seq<char>
    decreases text.len(),
{
    if text.len() > 0 && is_padding(text[0], nul) {
        without_leading(text.skip(1), nul)
    } else {
        text
    }
}

/// `text` without trailing padding.
pub open spec fn without_trailing(text: Seq<char>, nul: bool) -> Seq<char>
    decreases text.len(),
{
    if text.len() > 0 && is_padding(text.last(), nul) {
        without_trailing(text.drop_last(), nul)
    } else {
        text
    }
}

/// `text` without padding on either side.
pub open spec fn unpadded(text: Seq<char>, nul: bool) -> Seq<char> {
    without_trailing(without_leading(text, nul), nul)
}

/// Strip the padding on either side.
pub fn unpad<'a>(text: &'a str, nul: bool) -> (r: &'a str)
    ensures
        r@ == unpadded(text@, nul),
{
    let n: usize = text.unicode_len();
    let mut from: usize = 0;
    assert(text@.skip(0) =~= text@);
    while from < n && padding(text.get_char(from), nul)
        invariant
            from <= n,
            n == text@.len(),
            without_leading(text@.skip(from as int), nul) == without_leading(text@, nul),
        decreases n - from,
    {
        assert(text@.skip(from as int).skip(1) =~= text@.skip(from + 1));
        from += 1;
    }
    let ghost rest = text@.skip(from as int);
    assert(without_leading(text@, nul) == rest);
    let mut to: usize = n;
    assert(text@.subrange(from as int, n as int) =~= rest);
    while from < to && padding(text.get_char(to - 1), nul)
        invariant
            from <= to <= n,
            n == text@.len(),
            without_trailing(text@.subrange(from as int, to as int), nul) == without_trailing(
                rest,
                nul,
            ),
        decreases to,
    {
        assert(text@.subrange(from as int, to as int).drop_last() =~= text@.subrange(
            from as int,
            to - 1,
        ));
        to -= 1;
    }
    assert(unpadded(text@, nul) == text@.subrange(from as int, to as int));
    text.substring_char(from, to)
}

/// A code of ISO 3166-1 alpha-2 has two capital letters.
pub open spec fn is_country_code(text: Seq<char>) -> bool {
    text.len() == 2 && 'A' <= text[0] <= 'Z' && 'A' <= text[1] <= 'Z'
}

/// The country code that `text` holds between white space.
pub open spec fn country_code(text: Seq<char>) -> Option<Seq<char>> {
    if is_country_code(unpadded(text, false)) {
        Some(unpadded(text, false))
    } else {
        None
    }
}

/// A country code of two capital letters. Whether the code is assigned to a country is
/// not looked up.
#[derive(Debug, PartialEq, Eq)]
pub struct IsoAlpha2(String);

impl View for IsoAlpha2 {
    type V = Seq<char>;

    closed spec fn view(&self) -> Seq<char> {
        self.0@
    }
}

impl IsoAlpha2 {
    /// The code has the shape of one.
    #[verifier::type_invariant]
    closed spec fn well_formed(&self) -> bool {
        is_country_code(self.0@)
    }

    /// Read the country code that `text` holds between white space.
    pub fn new(text: &str) -> (r: Option<Self>)
        ensures
            r is Some <==> country_code(text@) is Some,
            r matches Some(c) ==> country_code(text@) == Some(c@),
    {
        let code = unpad(text, false);
        if code.unicode_len() != 2 {
            return None;
        }
        let (a, b) = (code.get_char(0), code.get_char(1));
        if 'A' <= a && a <= 'Z' && 'A' <= b && b <= 'Z' {
            Some(IsoAlpha2(code.to_owned()))
        } else {
            None
        }
    }

    /// Borrow the code.
    pub fn as_str(&self) -> (r: &str)
        ensures
            r@ == self@,
            is_country_code(r@),
    {
        proof {
            use_type_invariant(self);
        }
        self.0.as_str()
    }
}

/// The text when it is not empty: an empty attribute names nobody.
pub open spec fn named(text: Option<Seq<char>>) -> Option<Seq<char>> {
    match text {
        Some(t) => if t.len() > 0 {
            Some(t)
        } else {
            None
        },
        None => None,
    }
}

/// Common name of a person or an authority. It is not empty.
#[derive(Debug, PartialEq, Eq)]
pub struct CommonName(String);

impl View for CommonName {
    type V = Seq<char>;

    closed spec fn view(&self) -> Seq<char> {
        self.0@
    }
}

impl CommonName {
    /// The name is not empty.
    #[verifier::type_invariant]
    closed spec fn not_empty(&self) -> bool {
        self.0@.len() > 0
    }

    /// Wrap a name after checking that it is not empty.
    pub fn new(text: String) -> (r: Option<Self>)
        ensures
            match r {
                Some(n) => named(Some(text@)) == Some(n@),
                None => named(Some(text@)) is None,
            },
    {
        if text.as_str().unicode_len() == 0 {
            None
        } else {
            Some(CommonName(text))
        }
    }

    /// Borrow the name.
    pub fn as_str(&self) -> (r: &str)
        ensures
            r@ == self@,
            r@.len() > 0,
    {
        proof {
            use_type_invariant(self);
        }
        self.0.as_str()
    }
}

impl Clone for CommonName {
    fn clone(&self) -> (r: Self)
        ensures
            r@ == self@,
    {
        proof {
            use_type_invariant(self);
        }
        CommonName(self.0.as_str().to_owned())
    }
}

impl core::ops::Deref for CommonName {
    type Target = str;

    fn deref(&self) -> (r: &str)
        ensures
            r@ == self@,
    {
        self.0.as_str()
    }
}

/// Surname of a person. It is not empty.
#[derive(Debug, PartialEq, Eq)]
pub struct Surname(String);

impl View for Surname {
    type V = Seq<char>;

    closed spec fn view(&self) -> Seq<char> {
        self.0@
    }
}

impl Surname {
    /// The name is not empty.
    #[verifier::type_invariant]
    closed spec fn not_empty(&self) -> bool {
        self.0@.len() > 0
    }

    /// Wrap a name after checking that it is not empty.
    pub fn new(text: String) -> (r: Option<Self>)
        ensures
            match r {
                Some(n) => named(Some(text@)) == Some(n@),
                None => named(Some(text@)) is None,
            },
    {
        if text.as_str().unicode_len() == 0 {
            None
        } else {
            Some(Surname(text))
        }
    }

    /// Borrow the name.
    pub fn as_str(&self) -> (r: &str)
        ensures
            r@ == self@,
            r@.len() > 0,
    {
        proof {
            use_type_invariant(self);
        }
        self.0.as_str()
    }
}

impl Clone for Surname {
    fn clone(&self) -> (r: Self)
        ensures
            r@ == self@,
    {
        proof {
            use_type_invariant(self);
        }
        Surname(self.0.as_str().to_owned())
    }
}

impl core::ops::Deref for Surname {
    type Target = str;

    fn deref(&self) -> (r: &str)
        ensures
            r@ == self@,
    {
        self.0.as_str()
    }
}

/// One given name of a person. It is not empty.
#[derive(Debug, PartialEq, Eq)]
pub struct GivenName(String);

impl View for GivenName {
    type V = Seq<char>;

    closed spec fn view(&self) -> Seq<char> {
        self.0@
    }
}

impl GivenName {
    /// The name is not empty.
    #[verifier::type_invariant]
    closed spec fn not_empty(&self) -> bool {
        self.0@.len() > 0
    }

    /// Wrap a name after checking that it is not empty.
    pub fn new(text: String) -> (r: Option<Self>)
        ensures
            match r {
                Some(n) => named(Some(text@)) == Some(n@),
                None => named(Some(text@)) is None,
            },
    {
        if text.as_str().unicode_len() == 0 {
            None
        } else {
            Some(GivenName(text))
        }
    }

    /// Borrow the name.
    pub fn as_str(&self) -> (r: &str)
        ensures
            r@ == self@,
            r@.len() > 0,
    {
        proof {
            use_type_invariant(self);
        }
        self.0.as_str()
    }
}

impl Clone for GivenName {
    fn clone(&self) -> (r: Self)
        ensures
            r@ == self@,
    {
        proof {
            use_type_invariant(self);
        }
        GivenName(self.0.as_str().to_owned())
    }
}

impl core::ops::Deref for GivenName {
    type Target = str;

    fn deref(&self) -> (r: &str)
        ensures
            r@ == self@,
    {
        self.0.as_str()
    }
}

/// Personal identifier. It is not empty.
#[derive(Debug, PartialEq, Eq)]
pub struct Peuin(String);

impl View for Peuin {
    type V = Seq<char>;

    closed spec fn view(&self) -> Seq<char> {
        self.0@
    }
}

impl Peuin {
    /// The identifier is not empty.
    #[verifier::type_invariant]
    closed spec fn not_empty(&self) -> bool {
        self.0@.len() > 0
    }

    /// Wrap a identifier after checking that it is not empty.
    pub fn new(text: String) -> (r: Option<Self>)
        ensures
            match r {
                Some(n) => named(Some(text@)) == Some(n@),
                None => named(Some(text@)) is None,
            },
    {
        if text.as_str().unicode_len() == 0 {
            None
        } else {
            Some(Peuin(text))
        }
    }

    /// Borrow the identifier.
    pub fn as_str(&self) -> (r: &str)
        ensures
            r@ == self@,
            r@.len() > 0,
    {
        proof {
            use_type_invariant(self);
        }
        self.0.as_str()
    }
}

impl Clone for Peuin {
    fn clone(&self) -> (r: Self)
        ensures
            r@ == self@,
    {
        proof {
            use_type_invariant(self);
        }
        Peuin(self.0.as_str().to_owned())
    }
}

impl core::ops::Deref for Peuin {
    type Target = str;

    fn deref(&self) -> (r: &str)
        ensures
            r@ == self@,
    {
        self.0.as_str()
    }
}

/// Where the word that starts at `i` ends.
pub open spec fn word_end(text: Seq<char>, i: int) -> int
    decreases text.len() - i,
{
    if 0 <= i < text.len() && !is_space(text[i]) {
        word_end(text, i + 1)
    } else {
        i
    }
}

/// The words of `text` from `i` on, parted by white space.
pub open spec fn words_from(text: Seq<char>, i: int) -> Seq<Seq<char>>
    decreases text.len() - i,
{
    if i < 0 || i >= text.len() {
        Seq::empty()
    } else if is_space(text[i]) || !(i < word_end(text, i) <= text.len()) {
        words_from(text, i + 1)
    } else {
        seq![text.subrange(i, word_end(text, i))] + words_from(text, word_end(text, i))
    }
}

/// Given names in the order in which they are written.
#[derive(Debug)]
pub struct SplitGivenNames {
    /// The first name.
    pub first: Option<GivenName>,
    /// The second name.
    pub second: Option<GivenName>,
    /// The other names.
    pub additional: Vec<GivenName>,
}

/// What split names hold.
#[verifier::ext_equal]
pub struct SplitView {
    pub first: Option<Seq<char>>,
    pub second: Option<Seq<char>>,
    pub additional: Seq<Seq<char>>,
}

/// The view of an optional given name.
pub open spec fn given_view(name: Option<GivenName>) -> Option<Seq<char>> {
    match name {
        Some(n) => Some(n@),
        None => None,
    }
}

/// The views of given names.
pub open spec fn given_views(names: Seq<GivenName>) -> Seq<Seq<char>> {
    Seq::new(names.len(), |i: int| names[i]@)
}

impl View for SplitGivenNames {
    type V = SplitView;

    open spec fn view(&self) -> SplitView {
        SplitView {
            first: given_view(self.first),
            second: given_view(self.second),
            additional: given_views(self.additional@),
        }
    }
}

/// Words as given names: the first, the second and the others.
pub open spec fn split_words(words: Seq<Seq<char>>) -> SplitView {
    SplitView {
        first: if words.len() > 0 {
            Some(words[0])
        } else {
            None
        },
        second: if words.len() > 1 {
            Some(words[1])
        } else {
            None
        },
        additional: if words.len() > 2 {
            words.skip(2)
        } else {
            Seq::empty()
        },
    }
}

/// The given names that a text holds, none for no text.
pub open spec fn split_names(text: Option<Seq<char>>) -> SplitView {
    match text {
        Some(t) => split_words(words_from(t, 0)),
        None => split_words(Seq::empty()),
    }
}

impl Default for SplitGivenNames {
    fn default() -> (r: Self)
        ensures
            r@ == split_names(None),
    {
        let r = SplitGivenNames { first: None, second: None, additional: Vec::new() };
        assert(r@ =~= split_names(None));
        r
    }
}

proof fn lemma_word_end(text: Seq<char>, i: int)
    requires
        0 <= i <= text.len(),
    ensures
        i <= word_end(text, i) <= text.len(),
        i < text.len() && !is_space(text[i]) ==> word_end(text, i) > i,
    decreases text.len() - i,
{
    if i < text.len() && !is_space(text[i]) {
        lemma_word_end(text, i + 1);
    }
}

fn end_of_word(text: &str, from: usize) -> (r: usize)
    requires
        from <= text@.len(),
    ensures
        r == word_end(text@, from as int),
{
    let n: usize = text.unicode_len();
    let mut i: usize = from;
    while i < n && !space(text.get_char(i))
        invariant
            from <= i <= n,
            n == text@.len(),
            word_end(text@, i as int) == word_end(text@, from as int),
        decreases n - i,
    {
        i += 1;
    }
    i
}

impl SplitGivenNames {
    /// Take given names apart at white space.
    pub fn split(text: &str) -> (r: Self)
        ensures
            r@ == split_names(Some(text@)),
    {
        let n: usize = text.unicode_len();
        let mut out = SplitGivenNames::default();
        let ghost mut words: Seq<Seq<char>> = Seq::empty();
        let ghost all = words_from(text@, 0);
        assert(words + all =~= all);
        let mut i: usize = 0;
        while i < n
            invariant
                i <= n,
                n == text@.len(),
                words + words_from(text@, i as int) == all,
                out@ == split_words(words),
            decreases n - i,
        {
            proof {
                lemma_word_end(text@, i as int);
            }
            let end: usize = end_of_word(text, i);
            if end == i {
                i += 1;
            } else {
                let ghost word = text@.subrange(i as int, end as int);
                let ghost before = words;
                match GivenName::new(text.substring_char(i, end).to_owned()) {
                    Some(name) => {
                        if out.first.is_none() {
                            out.first = Some(name);
                        } else if out.second.is_none() {
                            out.second = Some(name);
                        } else {
                            let ghost others = out.additional@;
                            out.additional.push(name);
                            assert(given_views(out.additional@) =~= given_views(others).push(name@));
                        }
                    },
                    None => {},
                }
                proof {
                    words = words.push(word);
                    assert(words + words_from(text@, end as int) =~= before + words_from(
                        text@,
                        i as int,
                    ));
                    assert(out@ =~= split_words(words));
                }
                i = end;
            }
        }
        assert(words_from(text@, i as int) =~= Seq::empty());
        assert(words =~= all);
        out
    }
}

/// The characters that part words: those from tab to carriage return, the blank, and those
/// outside ASCII that are white space. No letter, digit or mark of ASCII is among them.
pub proof fn law_white_space(c: char)
    ensures
        c < '\u{80}' ==> (is_space(c) <==> c == ' ' || '\t' <= c <= '\r'),
        is_space('\u{85}') && is_space('\u{A0}') && is_space('\u{1680}') && is_space('\u{2028}')
            && is_space('\u{2029}') && is_space('\u{202F}') && is_space('\u{205F}') && is_space(
            '\u{3000}',
        ),
        '\u{2000}' <= c <= '\u{200A}' ==> is_space(c),
        c > '\u{3000}' ==> !is_space(c),
{
}

proof fn lemma_word_end_apart(a: Seq<char>, gap: char, b: Seq<char>, i: int)
    requires
        is_space(gap),
        0 <= i <= a.len(),
    ensures
        word_end(a + seq![gap] + b, i) == word_end(a, i),
        i <= word_end(a, i) <= a.len(),
    decreases a.len() - i,
{
    let all = a + seq![gap] + b;
    if i < a.len() {
        assert(all[i] == a[i]);
        if !is_space(a[i]) {
            lemma_word_end_apart(a, gap, b, i + 1);
        }
    } else {
        assert(all[i] == gap);
    }
}

proof fn lemma_words_behind(front: Seq<char>, b: Seq<char>, i: int)
    requires
        0 <= i <= b.len(),
    ensures
        words_from(front + b, front.len() + i) == words_from(b, i),
    decreases b.len() - i,
{
    let all = front + b;
    if i < b.len() {
        assert(all[front.len() + i] == b[i]);
        lemma_word_end_behind(front, b, i);
        if is_space(b[i]) {
            lemma_words_behind(front, b, i + 1);
        } else {
            let end = word_end(b, i);
            assert(end > i) by {
                lemma_word_end(b, i + 1);
            }
            lemma_word_end(b, i);
            lemma_words_behind(front, b, end);
            assert(all.subrange(front.len() + i, front.len() + end) =~= b.subrange(i, end));
        }
    }
}

proof fn lemma_word_end_behind(front: Seq<char>, b: Seq<char>, i: int)
    requires
        0 <= i <= b.len(),
    ensures
        word_end(front + b, front.len() + i) == front.len() + word_end(b, i),
    decreases b.len() - i,
{
    if i < b.len() {
        assert((front + b)[front.len() + i] == b[i]);
        if !is_space(b[i]) {
            lemma_word_end_behind(front, b, i + 1);
        }
    }
}

proof fn lemma_words_apart(a: Seq<char>, gap: char, b: Seq<char>, i: int)
    requires
        is_space(gap),
        0 <= i <= a.len(),
    ensures
        words_from(a + seq![gap] + b, i) == words_from(a, i) + words_from(b, 0),
    decreases a.len() - i,
{
    let all = a + seq![gap] + b;
    if i < a.len() {
        assert(all[i] == a[i]);
        lemma_word_end_apart(a, gap, b, i);
        if is_space(a[i]) {
            lemma_words_apart(a, gap, b, i + 1);
        } else {
            let end = word_end(a, i);
            assert(end > i) by {
                lemma_word_end_apart(a, gap, b, i + 1);
            }
            lemma_words_apart(a, gap, b, end);
            assert(all.subrange(i, end) =~= a.subrange(i, end));
            assert(seq![a.subrange(i, end)] + (words_from(a, end) + words_from(b, 0)) =~= (seq![
                a.subrange(i, end),
            ] + words_from(a, end)) + words_from(b, 0));
        }
    } else {
        let front = a + seq![gap];
        assert(all[i] == gap);
        assert(all =~= front + b);
        lemma_words_behind(front, b, 0);
        assert(words_from(a, i) =~= Seq::empty());
        assert(words_from(all, i) == words_from(all, i + 1));
        assert(Seq::<Seq<char>>::empty() + words_from(b, 0) =~= words_from(b, 0));
    }
}

/// Text is parted into words at white space: on either side of a white space the words are
/// those of the text on that side, and a text without white space is one word.
pub proof fn law_words(a: Seq<char>, gap: char, b: Seq<char>)
    ensures
        words_from(Seq::empty(), 0) == Seq::<Seq<char>>::empty(),
        is_space(gap) ==> words_from(a + seq![gap] + b, 0) == words_from(a, 0) + words_from(b, 0),
        a.len() > 0 && (forall|i: int| 0 <= i < a.len() ==> !is_space(#[trigger] a[i]))
            ==> words_from(a, 0) == seq![a],
{
    if is_space(gap) {
        lemma_words_apart(a, gap, b, 0);
    }
    if a.len() > 0 && (forall|i: int| 0 <= i < a.len() ==> !is_space(#[trigger] a[i])) {
        lemma_one_word(a, 0);
        assert(a.subrange(0, a.len() as int) =~= a);
        reveal_with_fuel(words_from, 2);
        assert(seq![a] + Seq::<Seq<char>>::empty() =~= seq![a]);
    }
}

proof fn lemma_one_word(a: Seq<char>, i: int)
    requires
        0 <= i <= a.len(),
        forall|k: int| 0 <= k < a.len() ==> !is_space(#[trigger] a[k]),
    ensures
        word_end(a, i) == a.len(),
    decreases a.len() - i,
{
    if i < a.len() {
        lemma_one_word(a, i + 1);
    }
}

/// The first word is the first name, the second word the second, and the others follow.
pub proof fn law_given_names(first: Seq<char>, gap: char, second: Seq<char>, rest: Seq<char>)
    requires
        is_space(gap),
        first.len() > 0 && (forall|i: int| 0 <= i < first.len() ==> !is_space(#[trigger] first[i])),
        second.len() > 0 && (forall|i: int|
            0 <= i < second.len() ==> !is_space(#[trigger] second[i])),
    ensures
        split_names(Some(first)) == (SplitView {
            first: Some(first),
            second: None,
            additional: Seq::empty(),
        }),
        split_names(Some(first + seq![gap] + (second + seq![gap] + rest))) == (SplitView {
            first: Some(first),
            second: Some(second),
            additional: words_from(rest, 0),
        }),
        split_names(None) == (SplitView { first: None, second: None, additional: Seq::empty() }),
{
    let tail = second + seq![gap] + rest;
    law_words(first, gap, tail);
    law_words(second, gap, rest);
    let words = seq![first] + (seq![second] + words_from(rest, 0));
    assert(words[0] == first && words[1] == second);
    assert(words.skip(2) =~= words_from(rest, 0));
    assert(split_names(Some(first + seq![gap] + tail)) =~= (SplitView {
        first: Some(first),
        second: Some(second),
        additional: words_from(rest, 0),
    }));
}

proof fn lemma_leading(front: Seq<char>, text: Seq<char>, nul: bool)
    requires
        forall|i: int| 0 <= i < front.len() ==> is_padding(#[trigger] front[i], nul),
        text.len() > 0 ==> !is_padding(text[0], nul),
    ensures
        without_leading(front + text, nul) == text,
    decreases front.len(),
{
    let all = front + text;
    if front.len() > 0 {
        assert(all[0] == front[0]);
        assert(all.skip(1) =~= front.skip(1) + text);
        assert forall|i: int| 0 <= i < front.skip(1).len() implies is_padding(
            #[trigger] front.skip(1)[i],
            nul,
        ) by {
            assert(front.skip(1)[i] == front[i + 1]);
        }
        lemma_leading(front.skip(1), text, nul);
    } else {
        assert(all =~= text);
    }
}

proof fn lemma_trailing(text: Seq<char>, back: Seq<char>, nul: bool)
    requires
        forall|i: int| 0 <= i < back.len() ==> is_padding(#[trigger] back[i], nul),
        text.len() > 0 ==> !is_padding(text.last(), nul),
    ensures
        without_trailing(text + back, nul) == text,
    decreases back.len(),
{
    let all = text + back;
    if back.len() > 0 {
        assert(all.last() == back.last());
        assert(all.drop_last() =~= text + back.drop_last());
        assert forall|i: int| 0 <= i < back.drop_last().len() implies is_padding(
            #[trigger] back.drop_last()[i],
            nul,
        ) by {
            assert(back.drop_last()[i] == back[i]);
        }
        lemma_trailing(text, back.drop_last(), nul);
    } else {
        assert(all =~= text);
    }
}

/// Padding is white space, and where it is asked for the NUL. It is taken from both sides,
/// all of it, and from nowhere else.
pub proof fn law_padding_is_stripped(front: Seq<char>, text: Seq<char>, back: Seq<char>, nul: bool)
    requires
        forall|i: int|
            0 <= i < front.len() ==> is_space(#[trigger] front[i]) || nul && front[i] == '\0',
        forall|i: int|
            0 <= i < back.len() ==> is_space(#[trigger] back[i]) || nul && back[i] == '\0',
        text.len() > 0 ==> !is_space(text[0]) && !is_space(text.last()) && !(nul && (text[0]
            == '\0' || text.last() == '\0')),
    ensures
        unpadded(front + text + back, nul) == text,
{
    assert forall|i: int| 0 <= i < front.len() implies is_padding(#[trigger] front[i], nul) by {}
    assert forall|i: int| 0 <= i < back.len() implies is_padding(#[trigger] back[i], nul) by {}
    if text.len() > 0 {
        let rest = text + back;
        assert(front + text + back =~= front + rest);
        assert(rest[0] == text[0]);
        lemma_leading(front, rest, nul);
        lemma_trailing(text, back, nul);
    } else {
        let all = front + back;
        let none = Seq::<char>::empty();
        assert(front + text + back =~= all + none);
        assert forall|i: int| 0 <= i < all.len() implies is_padding(#[trigger] all[i], nul) by {
            if i < front.len() {
                assert(all[i] == front[i]);
            } else {
                assert(all[i] == back[i - front.len()]);
            }
        }
        lemma_leading(all, none, nul);
        assert(without_trailing(none, nul) =~= text);
    }
}

/// An address is a local part, one `@` and a domain, neither of them empty and both without
/// white space and further `@`s.
pub proof fn law_email_addresses(local: Seq<char>, domain: Seq<char>)
    ensures
        is_email(local + seq!['@'] + domain) <==> {
            &&& local.len() > 0 && domain.len() > 0
            &&& forall|i: int|
                0 <= i < local.len() ==> #[trigger] local[i] != '@' && !is_space(local[i])
            &&& forall|i: int|
                0 <= i < domain.len() ==> #[trigger] domain[i] != '@' && !is_space(domain[i])
        },
        (forall|i: int| 0 <= i < local.len() ==> #[trigger] local[i] != '@') ==> !is_email(local),
{
    let text = local + seq!['@'] + domain;
    let at = local.len() as int;
    assert(text[at] == '@');
    if is_email(text) {
        assert forall|i: int| 0 <= i < local.len() implies #[trigger] local[i] != '@' && !is_space(
            local[i],
        ) by {
            assert(text[i] == local[i]);
        }
        assert forall|i: int| 0 <= i < domain.len() implies #[trigger] domain[i] != '@'
            && !is_space(domain[i]) by {
            assert(text[at + 1 + i] == domain[i]);
        }
    }
    if local.len() > 0 && domain.len() > 0 && (forall|i: int|
        0 <= i < local.len() ==> #[trigger] local[i] != '@' && !is_space(local[i])) && (forall|
        i: int,
    |
        0 <= i < domain.len() ==> #[trigger] domain[i] != '@' && !is_space(domain[i])) {
        assert forall|i: int| 0 <= i < text.len() implies !is_space(#[trigger] text[i]) && (text[i]
            == '@' ==> i == at) by {
            if i < at {
                assert(text[i] == local[i]);
            } else if i > at {
                assert(text[i] == domain[i - at - 1]);
            }
        }
        assert(is_email(text));
    }
}

/// A country code is two capital letters, with or without white space around them.
pub proof fn law_country_codes(front: Seq<char>, a: char, b: char, back: Seq<char>)
    requires
        forall|i: int| 0 <= i < front.len() ==> is_space(#[trigger] front[i]),
        forall|i: int| 0 <= i < back.len() ==> is_space(#[trigger] back[i]),
        !is_space(a) && !is_space(b),
    ensures
        country_code(front + seq![a, b] + back) == if 'A' <= a <= 'Z' && 'A' <= b <= 'Z' {
            Some(seq![a, b])
        } else {
            None
        },
{
    law_padding_is_stripped(front, seq![a, b], back, false);
}

/// An empty attribute names nobody; any other is the name.
pub proof fn law_empty_names_nobody(text: Seq<char>)
    ensures
        named(Some(text)) is None <==> text.len() == 0,
        text.len() > 0 ==> named(Some(text)) == Some(text),
        named(None) is None,
{
}

} // verus!
