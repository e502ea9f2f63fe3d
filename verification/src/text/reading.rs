//! Which texts are accepted and what they are taken apart into, stated over their bytes.

use crate::render::dec;
use crate::text::{all_digits, authority_host, authority_port, dec_bytes, dec_value,
    first_bad_label_byte, first_stop, host_error, is_digit, is_hex_digit, is_label_byte,
    is_pchar_spec, label_error, labels_error, lemma_dec_bytes, lemma_first_of, lemma_first_of_is,
    lemma_last_stop_is, lemma_last_stop_none, lemma_render_parses, lower, lower_byte, port_of,
    scheme_of, starts_with_any_case, uri_after_scheme, uri_of, uri_well_formed, AlphaNumString,
    AlphaString, Charset, CharsetError, HostError, LowerAlphaNumString, LowerAlphaString,
    LowerTokenString, PctScan, Scheme, TokenString, UriCharError, UriError, UriView};
use vstd::prelude::*;
use vstd::utf8::encode_utf8;

verus! {

/// The character sets in numbers: letters are 41 to 5A and 61 to 7A, digits 30 to 39, and
/// the marks of tokens 2D, 2E and 5F. Upper-case letters differ from lower-case ones by 20.
pub proof fn law_character_sets(b: u8)
    ensures
        Charset::Alpha.holds(b) <==> 0x41 <= b <= 0x5A || 0x61 <= b <= 0x7A,
        Charset::LowerAlpha.holds(b) <==> 0x61 <= b <= 0x7A,
        Charset::AlphaNum.holds(b) <==> 0x41 <= b <= 0x5A || 0x61 <= b <= 0x7A || 0x30 <= b <= 0x39,
        Charset::LowerAlphaNum.holds(b) <==> 0x61 <= b <= 0x7A || 0x30 <= b <= 0x39,
        Charset::Token.holds(b) <==> Charset::AlphaNum.holds(b) || b == 0x2D || b == 0x2E || b
            == 0x5F,
        Charset::LowerToken.holds(b) <==> Charset::LowerAlphaNum.holds(b) || b == 0x2D || b == 0x2E
            || b == 0x5F,
        is_hex_digit(b) <==> 0x30 <= b <= 0x39 || 0x41 <= b <= 0x46 || 0x61 <= b <= 0x66,
        is_label_byte(b) <==> 0x61 <= b <= 0x7A || 0x30 <= b <= 0x39 || b == 0x2D,
        lower_byte(b) == if 0x41 <= b <= 0x5A {
            b + 0x20
        } else {
            b as int
        },
{
}

/// The bytes of paths and queries in numbers; a query also admits `?`.
pub proof fn law_path_and_query_bytes(b: u8)
    ensures
        is_pchar_spec(b) <==> {
            ||| 0x41 <= b <= 0x5A || 0x61 <= b <= 0x7A || 0x30 <= b <= 0x3B || 0x26 <= b <= 0x2E
            ||| b == 0x21 || b == 0x24 || b == 0x3D || b == 0x40 || b == 0x5F || b == 0x7E
        },
        PctScan::Path.holds(b) <==> is_pchar_spec(b) || b == 0x2F,
        PctScan::Query.holds(b) <==> is_pchar_spec(b) || b == 0x2F || b == 0x3F,
{
}

/// Two hexadecimal digits stand at `at`.
pub open spec fn escape_at(bytes: Seq<u8>, at: int) -> bool {
    &&& at + 2 < bytes.len()
    &&& (0x30 <= bytes[at + 1] <= 0x39 || 0x41 <= bytes[at + 1] <= 0x46 || 0x61 <= bytes[at + 1]
        <= 0x66)
    &&& (0x30 <= bytes[at + 2] <= 0x39 || 0x41 <= bytes[at + 2] <= 0x46 || 0x61 <= bytes[at + 2]
        <= 0x66)
}

proof fn lemma_shifted_scan(scan: PctScan, bytes: Seq<u8>, from: int, at: int)
    requires
        0 <= from <= at <= bytes.len(),
    ensures
        scan.violation(bytes, at) is None <==> scan.violation(bytes.skip(from), at - from) is None,
    decreases bytes.len() - at,
{
    let rest = bytes.skip(from);
    if at < bytes.len() {
        assert(rest[at - from] == bytes[at]);
        if bytes[at] == 0x25 {
            if at + 2 < bytes.len() {
                assert(rest[at - from + 1] == bytes[at + 1]);
                assert(rest[at - from + 2] == bytes[at + 2]);
                lemma_shifted_scan(scan, bytes, from, at + 3);
            }
        } else {
            lemma_shifted_scan(scan, bytes, from, at + 1);
        }
    }
}

/// A component is accepted exactly if it is made up of admitted bytes and of escapes, a `%`
/// with two hexadecimal digits.
pub proof fn law_component_is_bytes_and_escapes(scan: PctScan, bytes: Seq<u8>)
    ensures
        bytes.len() == 0 ==> scan.violation(bytes, 0) is None,
        bytes.len() > 0 && bytes[0] != 0x25 ==> (scan.violation(bytes, 0) is None <==> scan.holds(
            bytes[0],
        ) && scan.violation(bytes.skip(1), 0) is None),
        bytes.len() > 0 && bytes[0] == 0x25 ==> (scan.violation(bytes, 0) is None <==> escape_at(
            bytes,
            0,
        ) && scan.violation(bytes.skip(3), 0) is None),
{
    if bytes.len() > 0 {
        if bytes[0] != 0x25 {
            lemma_shifted_scan(scan, bytes, 1, 1);
        } else if bytes.len() > 2 {
            lemma_shifted_scan(scan, bytes, 3, 3);
        }
    }
}

proof fn lemma_violation_position(scan: PctScan, bytes: Seq<u8>, at: int)
    requires
        0 <= at <= bytes.len() <= usize::MAX,
        scan.violation(bytes, at) is Some,
    ensures
        scan.violation(bytes, at) matches Some(UriCharError::MalformedEscape { position }) ==> {
            &&& at <= position < bytes.len()
            &&& bytes[position as int] == 0x25 && !escape_at(bytes, position as int)
            &&& scan.violation(bytes.take(position as int), at) is None
        },
        scan.violation(bytes, at) matches Some(UriCharError::IllegalByte { position, byte }) ==> {
            &&& at <= position < bytes.len()
            &&& bytes[position as int] == byte && byte != 0x25 && !scan.holds(byte)
            &&& scan.violation(bytes.take(position as int), at) is None
        },
    decreases bytes.len() - at,
{
    let p: int = match scan.violation(bytes, at)->Some_0 {
        UriCharError::MalformedEscape { position } => position as int,
        UriCharError::IllegalByte { position, .. } => position as int,
    };
    let front = bytes.take(p);
    if bytes[at] == 0x25 {
        if escape_at(bytes, at) {
            lemma_violation_position(scan, bytes, at + 3);
            assert(front[at] == bytes[at] && front[at + 1] == bytes[at + 1] && front[at + 2]
                == bytes[at + 2]);
        }
    } else if scan.holds(bytes[at]) {
        lemma_violation_position(scan, bytes, at + 1);
        assert(front[at] == bytes[at]);
    }
}

/// A refusal names the first place that is at fault: what stands before it is accepted, and
/// there stands a `%` without its digits or a byte that is not admitted.
pub proof fn law_first_fault_is_named(scan: PctScan, bytes: Seq<u8>)
    requires
        bytes.len() <= usize::MAX,
    ensures
        scan.violation(bytes, 0) matches Some(UriCharError::MalformedEscape { position }) ==> {
            &&& position < bytes.len()
            &&& bytes[position as int] == 0x25 && !escape_at(bytes, position as int)
            &&& scan.violation(bytes.take(position as int), 0) is None
        },
        scan.violation(bytes, 0) matches Some(UriCharError::IllegalByte { position, byte }) ==> {
            &&& position < bytes.len()
            &&& bytes[position as int] == byte && byte != 0x25 && !scan.holds(byte)
            &&& scan.violation(bytes.take(position as int), 0) is None
        },
{
    if scan.violation(bytes, 0) is Some {
        lemma_violation_position(scan, bytes, 0);
    }
}

/// A byte of a host name: a lower-case letter, a digit, `-` or `.`.
pub open spec fn is_host_byte(b: u8) -> bool {
    0x61 <= b <= 0x7A || 0x30 <= b <= 0x39 || b == 0x2D || b == 0x2E
}

/// There is a dot among the 64 bytes from `i` on.
pub open spec fn dot_within(host: Seq<u8>, i: int) -> bool {
    exists|j: int| i <= j < i + 64 && #[trigger] host[j] == 0x2E
}

/// What stands from `from` on is a list of labels: admitted bytes, no dot or hyphen at the
/// ends or beside a dot, and no 64 bytes without a dot.
pub open spec fn labels_from(host: Seq<u8>, from: int) -> bool {
    &&& from < host.len()
    &&& forall|i: int| from <= i < host.len() ==> is_host_byte(#[trigger] host[i])
    &&& host[from] != 0x2E && host[from] != 0x2D
    &&& host.last() != 0x2E && host.last() != 0x2D
    &&& forall|i: int|
        from <= i < host.len() - 1 && #[trigger] host[i] == 0x2E ==> host[i + 1] != 0x2E && host[i
            + 1] != 0x2D
    &&& forall|i: int| from < i < host.len() && #[trigger] host[i] == 0x2E ==> host[i - 1] != 0x2D
    &&& forall|i: int| from <= i <= host.len() - 64 ==> #[trigger] dot_within(host, i)
}

proof fn lemma_bad_label_byte(label: Seq<u8>, from: int)
    requires
        0 <= from <= label.len(),
    ensures
        from <= first_bad_label_byte(label, from) <= label.len(),
        first_bad_label_byte(label, from) == label.len() <==> forall|i: int|
            from <= i < label.len() ==> is_label_byte(#[trigger] label[i]),
    decreases label.len() - from,
{
    if from < label.len() && is_label_byte(label[from]) {
        lemma_bad_label_byte(label, from + 1);
    }
}

proof fn lemma_label(host: Seq<u8>, from: int, dot: int)
    requires
        0 <= from <= dot <= host.len(),
    ensures
        label_error(host.subrange(from, dot)) is None <==> {
            &&& 1 <= dot - from <= 63
            &&& host[from] != 0x2D && host[dot - 1] != 0x2D
            &&& forall|i: int| from <= i < dot ==> is_label_byte(#[trigger] host[i])
        },
{
    let label = host.subrange(from, dot);
    lemma_bad_label_byte(label, 0);
    if forall|i: int| from <= i < dot ==> is_label_byte(#[trigger] host[i]) {
        assert forall|i: int| 0 <= i < label.len() implies is_label_byte(#[trigger] label[i]) by {
            assert(label[i] == host[from + i]);
        }
    }
    if forall|i: int| 0 <= i < label.len() ==> is_label_byte(#[trigger] label[i]) {
        assert forall|i: int| from <= i < dot implies is_label_byte(#[trigger] host[i]) by {
            assert(label[i - from] == host[i]);
        }
    }
    if label.len() > 0 {
        assert(label[0] == host[from]);
        assert(label.last() == host[dot - 1]);
    }
}

proof fn lemma_accepted_labels(host: Seq<u8>, from: int)
    requires
        0 <= from <= host.len(),
        labels_error(host, from) is None,
    ensures
        labels_from(host, from),
    decreases host.len() - from,
{
    let dot = first_stop(host, from, 0x2E);
    lemma_first_of(host, from, 0x2E, 0x2E, 0x2E);
    lemma_label(host, from, dot);
    if dot < host.len() {
        lemma_accepted_labels(host, dot + 1);
    }
    assert forall|i: int| from <= i < host.len() implies is_host_byte(#[trigger] host[i]) by {
        if i < dot {
            assert(is_label_byte(host[i]));
        }
    }
    assert(is_label_byte(host[from]));
    assert(is_label_byte(host[dot - 1]));
    assert forall|i: int|
        from <= i < host.len() - 1 && #[trigger] host[i] == 0x2E implies host[i + 1] != 0x2E
        && host[i + 1] != 0x2D by {
        if i < dot {
            assert(is_label_byte(host[i]));
        }
    }
    assert forall|i: int| from < i < host.len() && #[trigger] host[i] == 0x2E implies host[i - 1]
        != 0x2D by {
        if i < dot {
            assert(is_label_byte(host[i]));
        } else if i == dot + 1 {
            assert(host[dot + 1] != 0x2E);
        }
    }
    assert forall|i: int| from <= i <= host.len() - 64 implies #[trigger] dot_within(host, i) by {
        if i <= dot {
            assert(host[dot] == 0x2E);
        }
    }
}

proof fn lemma_good_labels(host: Seq<u8>, from: int)
    requires
        0 <= from <= host.len(),
        labels_from(host, from),
    ensures
        labels_error(host, from) is None,
    decreases host.len() - from,
{
    let dot = first_stop(host, from, 0x2E);
    lemma_first_of(host, from, 0x2E, 0x2E, 0x2E);
    lemma_label(host, from, dot);
    if dot == from {
        assert(host[from] == 0x2E);
    }
    if dot - from >= 64 {
        assert(dot_within(host, from));
        let j = choose|j: int| from <= j < from + 64 && #[trigger] host[j] == 0x2E;
        assert(host[j] != 0x2E);
    }
    assert forall|i: int| from <= i < dot implies is_label_byte(#[trigger] host[i]) by {
        assert(is_host_byte(host[i]));
    }
    if dot < host.len() {
        assert(host[dot] == 0x2E);
        assert(dot < host.len() - 1) by {
            if dot == host.len() - 1 {
                assert(host.last() == 0x2E);
            }
        }
        assert(host[dot - 1] != 0x2D);
        lemma_good_labels(host, dot + 1);
    } else {
        assert(host[dot - 1] == host.last());
    }
}

/// A host is accepted exactly if it has 1 to 253 bytes, lower-case letters, digits, hyphens
/// and dots, no dot or hyphen at its ends or beside a dot, and no more than 63 bytes from
/// dot to dot.
pub proof fn law_accepted_hosts(host: Seq<u8>)
    ensures
        host_error(host) is None <==> 1 <= host.len() <= 253 && labels_from(host, 0),
{
    if host.len() > 0 {
        if labels_error(host, 0) is None {
            lemma_accepted_labels(host, 0);
        }
        if labels_from(host, 0) {
            lemma_good_labels(host, 0);
        }
    }
}

/// The refusals of hosts by their lengths and ends.
pub proof fn law_refused_hosts(host: Seq<u8>)
    requires
        host.len() <= usize::MAX,
    ensures
        host.len() == 0 ==> host_error(host) == Some(HostError::Empty),
        host.len() > 253 ==> host_error(host) == Some(
            HostError::TooLong { len: host.len() as usize },
        ),
        0 < host.len() <= 253 && host[0] == 0x2E ==> host_error(host) == Some(
            HostError::EmptyLabel,
        ),
        0 < host.len() <= 253 && host[0] == 0x2D && !(exists|i: int|
            0 <= i < host.len() && host[i] == 0x2E) && host.len() <= 63 ==> host_error(host)
            == Some(HostError::LabelHyphenBoundary),
        63 < host.len() <= 253 && !(exists|i: int| 0 <= i < host.len() && host[i] == 0x2E)
            ==> host_error(host) == Some(HostError::LabelTooLong { len: host.len() as usize }),
{
    if 0 < host.len() <= 253 {
        if host[0] == 0x2E {
            lemma_first_of_is(host, 0, 0x2E, 0x2E, 0x2E, 0);
        } else if !(exists|i: int| 0 <= i < host.len() && host[i] == 0x2E) {
            lemma_first_of_is(host, 0, 0x2E, 0x2E, 0x2E, host.len() as int);
            assert(host.subrange(0, host.len() as int) =~= host);
        }
    }
}

/// A port is a decimal number from 1 to 65535, with or without leading zeros; nothing else
/// is one.
pub proof fn law_ports(n: nat, digits: Seq<u8>)
    ensures
        port_of(dec_bytes(n)) == if 1 <= n <= 65535 {
            Some(n as u16)
        } else {
            None
        },
        digits.len() > 0 ==> port_of(seq![0x30u8] + digits) == port_of(digits),
        digits.len() == 0 ==> port_of(digits) is None,
        (exists|i: int| 0 <= i < digits.len() && !(0x30 <= #[trigger] digits[i] <= 0x39))
            ==> port_of(digits) is None,
{
    lemma_dec_bytes(n);
    if digits.len() > 0 {
        lemma_leading_zero(digits);
        let longer = seq![0x30u8] + digits;
        if all_digits(digits) {
            assert forall|i: int| 0 <= i < longer.len() implies is_digit(#[trigger] longer[i]) by {
                if i > 0 {
                    assert(longer[i] == digits[i - 1]);
                }
            }
        }
        if all_digits(longer) {
            assert forall|i: int| 0 <= i < digits.len() implies is_digit(#[trigger] digits[i]) by {
                assert(longer[i + 1] == digits[i]);
            }
        }
    }
}

proof fn lemma_leading_zero(digits: Seq<u8>)
    ensures
        dec_value(seq![0x30u8] + digits) == dec_value(digits),
    decreases digits.len(),
{
    let longer = seq![0x30u8] + digits;
    if digits.len() == 0 {
        reveal_with_fuel(dec_value, 2);
        assert(longer.drop_last() =~= Seq::<u8>::empty());
    } else {
        lemma_leading_zero(digits.drop_last());
        assert(longer.drop_last() =~= seq![0x30u8] + digits.drop_last());
        assert(longer.last() == digits.last());
    }
}

/// Decimal notation in bytes is that in characters.
pub proof fn law_decimal_bytes(n: nat)
    ensures
        dec_bytes(n).len() == dec(n).len(),
        forall|i: int| 0 <= i < dec(n).len() ==> #[trigger] dec_bytes(n)[i] == dec(n)[i] as int,
    decreases n,
{
    if n >= 10 {
        law_decimal_bytes(n / 10);
        assert forall|i: int| 0 <= i < dec(n).len() implies #[trigger] dec_bytes(n)[i]
            == dec(n)[i] as int by {
            if i < dec(n).len() - 1 {
                assert(dec_bytes(n)[i] == dec_bytes(n / 10)[i]);
            }
        }
    }
}

/// `http://` or `https://`.
pub open spec fn lead(scheme: Scheme) -> Seq<u8> {
    if scheme == Scheme::Http {
        seq![0x68u8, 0x74, 0x74, 0x70, 0x3A, 0x2F, 0x2F]
    } else {
        seq![0x68u8, 0x74, 0x74, 0x70, 0x73, 0x3A, 0x2F, 0x2F]
    }
}

/// The port that a scheme has where none is written.
pub open spec fn usual_port(scheme: Scheme) -> u16 {
    if scheme == Scheme::Http {
        80
    } else {
        443
    }
}

/// A URI as it is written: scheme, host, `:` and the port where it is not the usual one,
/// path, and `?` and the query where there is one.
pub open spec fn written(v: UriView) -> Seq<u8> {
    let port = if v.port == usual_port(v.scheme) {
        Seq::empty()
    } else {
        seq![0x3Au8] + dec_bytes(v.port as nat)
    };
    let query = if v.query.len() == 0 {
        Seq::empty()
    } else {
        seq![0x3Fu8] + v.query
    };
    lead(v.scheme) + v.host + port + v.path + query
}

/// Well-formed parts are written as one URI and read back from it.
pub proof fn law_written_uri_is_read_back(v: UriView)
    requires
        uri_well_formed(v),
        written(v).len() <= 8000,
    ensures
        v.render() == written(v),
        uri_of(written(v)) == Ok::<UriView, UriError>(v),
{
    assert(v.scheme.prefix() =~= lead(v.scheme));
    assert(v.render() =~= written(v));
    lemma_render_parses(v);
}

/// A text of more than 8000 bytes is refused for its length, and one that begins with
/// neither scheme, in either case, for its scheme.
pub proof fn law_refused_uris(bytes: Seq<u8>)
    requires
        bytes.len() <= usize::MAX,
    ensures
        bytes.len() > 8000 ==> uri_of(bytes) == Err::<UriView, UriError>(
            UriError::TooLong { len: bytes.len() as usize },
        ),
        bytes.len() <= 8000 ==> (uri_of(bytes) == Err::<UriView, UriError>(UriError::Scheme)
            <==> !starts_with_any_case(bytes, lead(Scheme::Http)) && !starts_with_any_case(
            bytes,
            lead(Scheme::Https),
        )),
{
    assert(Scheme::Http.prefix() =~= lead(Scheme::Http));
    assert(Scheme::Https.prefix() =~= lead(Scheme::Https));
}

/// The host of an authority is what stands before its last colon, the port what stands
/// behind it; without a colon all of it is the host and the port is the usual one.
pub proof fn law_authority_parts(host: Seq<u8>, port: Seq<u8>, scheme: Scheme)
    requires
        forall|i: int| 0 <= i < port.len() ==> #[trigger] port[i] != 0x3A,
    ensures
        authority_host(host + seq![0x3Au8] + port) == host,
        authority_port(host + seq![0x3Au8] + port, scheme) == port_of(port),
        authority_host(port) == port,
        authority_port(port, scheme) == Some(usual_port(scheme)),
{
    let all = host + seq![0x3Au8] + port;
    let colon = host.len() as int;
    assert(all[colon] == 0x3A);
    assert forall|i: int| colon < i < all.len() implies (#[trigger] all[i]) != 0x3A by {
        assert(all[i] == port[i - colon - 1]);
    }
    lemma_last_stop_is(all, all.len() as int, 0x3A, colon);
    assert(all.take(colon) =~= host);
    assert(all.skip(colon + 1) =~= port);
    lemma_last_stop_none(port, port.len() as int, 0x3A);
}

/// What stands behind the scheme is taken apart at the first `/` or `?`, the first `?`
/// behind it and the first `#`: the authority, the path and the query.
pub proof fn law_uri_parts(
    scheme: Scheme,
    authority: Seq<u8>,
    path: Seq<u8>,
    query: Seq<u8>,
    fragment: Seq<u8>,
)
    requires
        forall|i: int|
            0 <= i < authority.len() ==> (#[trigger] authority[i]) != 0x2F && authority[i] != 0x3F
                && authority[i] != 0x23 && authority[i] != 0x40,
        path.len() == 0 || path[0] == 0x2F,
        forall|i: int| 0 <= i < path.len() ==> (#[trigger] path[i]) != 0x3F && path[i] != 0x23,
        forall|i: int| 0 <= i < query.len() ==> (#[trigger] query[i]) != 0x23,
        authority_port(authority, scheme) is Some,
        host_error(lower(authority_host(authority))) is None,
        PctScan::Path.violation(path, 0) is None,
        PctScan::Query.violation(query, 0) is None,
    ensures
        uri_after_scheme(
            scheme,
            authority + path + seq![0x3Fu8] + query + seq![0x23u8] + fragment,
        ) == Ok::<UriView, UriError>(
            UriView {
                scheme,
                host: lower(authority_host(authority)),
                port: authority_port(authority, scheme)->Some_0,
                path: if path.len() == 0 {
                    seq![0x2Fu8]
                } else {
                    path
                },
                query,
            },
        ),
{
    let tail = path + seq![0x3Fu8] + query + seq![0x23u8] + fragment;
    let rest = authority + path + seq![0x3Fu8] + query + seq![0x23u8] + fragment;
    let end = authority.len() as int;
    assert(rest =~= authority + tail);
    assert forall|i: int| 0 <= i < end implies (#[trigger] rest[i]) != 0x2F && rest[i] != 0x3F
        && rest[i] != 0x23 by {
        assert(rest[i] == authority[i]);
    }
    assert(rest[end] == tail[0]);
    assert(tail[0] == 0x2F || tail[0] == 0x3F);
    lemma_first_of_is(rest, 0, 0x2F, 0x3F, 0x23, end);
    assert(rest.take(end) =~= authority);
    assert(rest.skip(end) =~= tail);
    let target = path + seq![0x3Fu8] + query;
    let hash = target.len() as int;
    assert(tail =~= target + (seq![0x23u8] + fragment));
    assert(tail[hash] == 0x23);
    assert forall|i: int| 0 <= i < hash implies (#[trigger] tail[i]) != 0x23 by {
        assert(tail[i] == target[i]);
        if i < path.len() {
            assert(target[i] == path[i]);
        } else if i > path.len() {
            assert(target[i] == query[i - path.len() - 1]);
        }
    }
    lemma_first_of_is(tail, 0, 0x23, 0x23, 0x23, hash);
    assert(tail.take(hash) =~= target);
    let mark = path.len() as int;
    assert(target[mark] == 0x3F);
    assert forall|i: int| 0 <= i < mark implies (#[trigger] target[i]) != 0x3F by {
        assert(target[i] == path[i]);
    }
    lemma_first_of_is(target, 0, 0x3F, 0x3F, 0x3F, mark);
    assert(target.take(mark) =~= path);
    assert(target.skip(mark + 1) =~= query);
    assert(!authority.contains(0x40)) by {
        if authority.contains(0x40) {
            let i = choose|i: int| 0 <= i < authority.len() && authority[i] == 0x40;
            assert(authority[i] != 0x40);
        }
    }
}

/// An authority with an `@` is refused, wherever it stands.
pub proof fn law_userinfo_is_refused(scheme: Scheme, authority: Seq<u8>, tail: Seq<u8>)
    requires
        forall|i: int|
            0 <= i < authority.len() ==> (#[trigger] authority[i]) != 0x2F && authority[i] != 0x3F
                && authority[i] != 0x23,
        authority.contains(0x40),
        tail.len() == 0 || tail[0] == 0x2F || tail[0] == 0x3F || tail[0] == 0x23,
    ensures
        uri_after_scheme(scheme, authority + tail) == Err::<UriView, UriError>(UriError::Userinfo),
{
    let rest = authority + tail;
    let end = authority.len() as int;
    assert forall|i: int| 0 <= i < end implies (#[trigger] rest[i]) != 0x2F && rest[i] != 0x3F
        && rest[i] != 0x23 by {
        assert(rest[i] == authority[i]);
    }
    if tail.len() > 0 {
        assert(rest[end] == tail[0]);
    }
    lemma_first_of_is(rest, 0, 0x2F, 0x3F, 0x23, end);
    assert(rest.take(end) =~= authority);
}

/// Where a redirect leads: a location with a scheme stands for itself, one behind `//` keeps
/// the scheme, one behind `/` the authority too, and any other the directory of the path
/// too, which ends with the last `/`.
pub proof fn law_redirects(v: UriView, location: Seq<u8>, parent: Seq<u8>, name: Seq<u8>)
    requires
        forall|i: int| 0 <= i < name.len() ==> #[trigger] name[i] != 0x2F,
    ensures
        starts_with_any_case(location, lead(Scheme::Http)) || starts_with_any_case(
            location,
            lead(Scheme::Https),
        ) ==> v.redirect(location) == location,
        v.redirect(seq![0x2Fu8, 0x2F] + location) == lead(v.scheme) + location,
        location.len() == 0 || location[0] != 0x2F ==> v.redirect(seq![0x2Fu8] + location) == lead(
            v.scheme,
        ) + v.authority() + (seq![0x2Fu8] + location),
        v.path == parent + seq![0x2Fu8] + name && scheme_of(location) is None && (location.len()
            == 0 || location[0] != 0x2F) ==> v.redirect(location) == lead(v.scheme)
            + v.authority() + (parent + seq![0x2Fu8]) + location,
{
    assert(Scheme::Http.prefix() =~= lead(Scheme::Http));
    assert(Scheme::Https.prefix() =~= lead(Scheme::Https));
    let twice = seq![0x2Fu8, 0x2F] + location;
    let once = seq![0x2Fu8] + location;
    lemma_slash_is_no_scheme(twice);
    lemma_slash_is_no_scheme(once);
    assert(twice.skip(2) =~= location);
    assert(twice.subrange(0, 2) =~= seq![0x2Fu8, 0x2F]);
    assert(once.subrange(0, 1) =~= seq![0x2Fu8]);
    if location.len() == 0 || location[0] != 0x2F {
        assert(!seq![0x2Fu8, 0x2F].is_prefix_of(once)) by {
            if once.len() >= 2 {
                assert(once.subrange(0, 2)[1] == location[0]);
            }
        }
        assert(!seq![0x2Fu8].is_prefix_of(location)) by {
            if location.len() >= 1 {
                assert(location.subrange(0, 1)[0] == location[0]);
            }
        }
        assert(!seq![0x2Fu8, 0x2F].is_prefix_of(location)) by {
            if location.len() >= 2 {
                assert(location.subrange(0, 2)[0] == location[0]);
            }
        }
    }
    if v.path == parent + seq![0x2Fu8] + name {
        let at = parent.len() as int;
        assert(v.path[at] == 0x2F);
        assert forall|i: int| at < i < v.path.len() implies (#[trigger] v.path[i]) != 0x2F by {
            assert(v.path[i] == name[i - at - 1]);
        }
        lemma_last_stop_is(v.path, v.path.len() as int, 0x2F, at);
        assert(v.path.take(at + 1) =~= parent + seq![0x2Fu8]);
    }
}

proof fn lemma_slash_is_no_scheme(location: Seq<u8>)
    requires
        location.len() > 0,
        location[0] == 0x2F,
    ensures
        scheme_of(location) is None,
{
    if starts_with_any_case(location, Scheme::Http.prefix()) {
        assert(lower(location.take(7))[0] == 0x2F);
    }
    if starts_with_any_case(location, Scheme::Https.prefix()) {
        assert(lower(location.take(8))[0] == 0x2F);
    }
}

/// Parsing comes to the text where all of its bytes are admitted, and else to the first that
/// is not.
pub open spec fn keeps_to(
    admitted: spec_fn(u8) -> bool,
    text: Seq<char>,
    r: Result<Seq<char>, CharsetError>,
) -> bool {
    let bytes = encode_utf8(text);
    match r {
        Ok(t) => t == text && forall|i: int|
            0 <= i < bytes.len() ==> admitted(#[trigger] bytes[i]),
        Err(e) => e.position < bytes.len() && e.byte == bytes[e.position as int] && !admitted(
            e.byte,
        ) && forall|i: int| 0 <= i < e.position ==> admitted(#[trigger] bytes[i]),
    }
}

proof fn lemma_keeps_to(
    set: Charset,
    admitted: spec_fn(u8) -> bool,
    text: Seq<char>,
    r: Result<Seq<char>, CharsetError>,
)
    requires
        forall|b: u8| set.holds(b) == #[trigger] admitted(b),
        r is Ok <==> set.admits(encode_utf8(text)),
        r matches Ok(t) ==> t == text,
        r matches Err(e) ==> set.first_alien(encode_utf8(text), e),
    ensures
        keeps_to(admitted, text, r),
{
    let bytes = encode_utf8(text);
    match r {
        Ok(_) => {
            assert forall|i: int| 0 <= i < bytes.len() implies admitted(#[trigger] bytes[i]) by {
                assert(set.holds(bytes[i]));
            }
        },
        Err(e) => {
            let front = bytes.take(e.position as int);
            assert(admitted(e.byte) == set.holds(e.byte));
            assert forall|i: int| 0 <= i < e.position implies admitted(#[trigger] bytes[i]) by {
                assert(set.holds(front[i]));
            }
        },
    }
}

/// A text of letters is accepted, and no other.
pub proof fn law_alpha_strings(text: String, r: Result<AlphaString, CharsetError>)
    requires
        call_ensures(AlphaString::parse, (text,), r),
    ensures
        keeps_to(
            |b: u8| 0x41 <= b <= 0x5A || 0x61 <= b <= 0x7A,
            text@,
            match r {
                Ok(s) => Ok(s@),
                Err(e) => Err(e),
            },
        ),
{
    lemma_keeps_to(
        Charset::Alpha,
        |b: u8| 0x41 <= b <= 0x5A || 0x61 <= b <= 0x7A,
        text@,
        match r {
            Ok(s) => Ok(s@),
            Err(e) => Err(e),
        },
    );
}

/// A text of lower-case letters is accepted, and no other.
pub proof fn law_lower_alpha_strings(text: String, r: Result<LowerAlphaString, CharsetError>)
    requires
        call_ensures(LowerAlphaString::parse, (text,), r),
    ensures
        keeps_to(
            |b: u8| 0x61 <= b <= 0x7A,
            text@,
            match r {
                Ok(s) => Ok(s@),
                Err(e) => Err(e),
            },
        ),
{
    lemma_keeps_to(
        Charset::LowerAlpha,
        |b: u8| 0x61 <= b <= 0x7A,
        text@,
        match r {
            Ok(s) => Ok(s@),
            Err(e) => Err(e),
        },
    );
}

/// A text of letters and digits is accepted, and no other.
pub proof fn law_alpha_num_strings(text: String, r: Result<AlphaNumString, CharsetError>)
    requires
        call_ensures(AlphaNumString::parse, (text,), r),
    ensures
        keeps_to(
            |b: u8| 0x41 <= b <= 0x5A || 0x61 <= b <= 0x7A || 0x30 <= b <= 0x39,
            text@,
            match r {
                Ok(s) => Ok(s@),
                Err(e) => Err(e),
            },
        ),
{
    lemma_keeps_to(
        Charset::AlphaNum,
        |b: u8| 0x41 <= b <= 0x5A || 0x61 <= b <= 0x7A || 0x30 <= b <= 0x39,
        text@,
        match r {
            Ok(s) => Ok(s@),
            Err(e) => Err(e),
        },
    );
}

/// A text of lower-case letters and digits is accepted, and no other.
pub proof fn law_lower_alpha_num_strings(text: String, r: Result<LowerAlphaNumString, CharsetError>)
    requires
        call_ensures(LowerAlphaNumString::parse, (text,), r),
    ensures
        keeps_to(
            |b: u8| 0x61 <= b <= 0x7A || 0x30 <= b <= 0x39,
            text@,
            match r {
                Ok(s) => Ok(s@),
                Err(e) => Err(e),
            },
        ),
{
    lemma_keeps_to(
        Charset::LowerAlphaNum,
        |b: u8| 0x61 <= b <= 0x7A || 0x30 <= b <= 0x39,
        text@,
        match r {
            Ok(s) => Ok(s@),
            Err(e) => Err(e),
        },
    );
}

/// A text of letters, digits, `-`, `.` and `_` is accepted, and no other.
pub proof fn law_token_strings(text: String, r: Result<TokenString, CharsetError>)
    requires
        call_ensures(TokenString::parse, (text,), r),
    ensures
        keeps_to(
            |b: u8| 0x41 <= b <= 0x5A || 0x61 <= b <= 0x7A || 0x30 <= b <= 0x39 || b == 0x2D || b == 0x2E || b == 0x5F,
            text@,
            match r {
                Ok(s) => Ok(s@),
                Err(e) => Err(e),
            },
        ),
{
    lemma_keeps_to(
        Charset::Token,
        |b: u8| 0x41 <= b <= 0x5A || 0x61 <= b <= 0x7A || 0x30 <= b <= 0x39 || b == 0x2D || b == 0x2E || b == 0x5F,
        text@,
        match r {
            Ok(s) => Ok(s@),
            Err(e) => Err(e),
        },
    );
}

/// A text of lower-case letters, digits, `-`, `.` and `_` is accepted, and no other.
pub proof fn law_lower_token_strings(text: String, r: Result<LowerTokenString, CharsetError>)
    requires
        call_ensures(LowerTokenString::parse, (text,), r),
    ensures
        keeps_to(
            |b: u8| 0x61 <= b <= 0x7A || 0x30 <= b <= 0x39 || b == 0x2D || b == 0x2E || b == 0x5F,
            text@,
            match r {
                Ok(s) => Ok(s@),
                Err(e) => Err(e),
            },
        ),
{
    lemma_keeps_to(
        Charset::LowerToken,
        |b: u8| 0x61 <= b <= 0x7A || 0x30 <= b <= 0x39 || b == 0x2D || b == 0x2E || b == 0x5F,
        text@,
        match r {
            Ok(s) => Ok(s@),
            Err(e) => Err(e),
        },
    );
}

} // verus!
