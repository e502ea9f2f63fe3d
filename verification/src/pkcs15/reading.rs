//! What reading from a card comes to, stated over the bytes of its files.

use crate::ber::{law_tlv_round_trip, law_tlv_sequence, tlv_bytes, tlv_items, BerError, TlvView};
use crate::bytes::{be_nat, utf8_lossy};
use crate::pkcs15::{collected, der_object_total_length, der_total, file_size, read_cap, selected_view, slot_steps,
    token_info_of, token_info_steps, token_strings, walk_run, whole_read, CertSlot, Pkcs15Error,
    Pkcs15ErrorView, ReadPlan, Selection, TokenInfo, TokenInfoView};
use crate::render::lower_hex;
use crate::transport::{body_of, Exchange, OutcomeView, ResponseView, TransportDispatchError};
use crate::trust_roots::{card_roots_run, RootCertificates};
use vstd::prelude::*;

verus! {

/// The length of a DER object in numbers: two bytes and the length in the second, or three
/// bytes and the length in the third behind 81, or four bytes and the length in the third
/// and fourth behind 82. Other forms are refused, and a header that is not all there is
/// waited for.
pub proof fn law_der_length_in_numbers(p: Seq<u8>)
    ensures
        p.len() < 2 ==> der_total(p) == Ok::<Option<int>, ()>(None),
        p.len() >= 2 && p[1] < 0x80 ==> der_total(p) == Ok::<Option<int>, ()>(Some(2 + p[1])),
        p.len() == 2 && p[1] == 0x81 ==> der_total(p) == Ok::<Option<int>, ()>(None),
        p.len() >= 3 && p[1] == 0x81 ==> der_total(p) == Ok::<Option<int>, ()>(Some(3 + p[2])),
        2 <= p.len() < 4 && p[1] == 0x82 ==> der_total(p) == Ok::<Option<int>, ()>(None),
        p.len() >= 4 && p[1] == 0x82 ==> der_total(p) == Ok::<Option<int>, ()>(
            Some(4 + p[2] * 256 + p[3]),
        ),
        p.len() >= 2 && (p[1] == 0x80 || p[1] > 0x82) ==> der_total(p) == Err::<Option<int>, ()>(()),
{
    reveal_with_fuel(be_nat, 3);
    if p.len() >= 3 && p[1] == 0x81 {
        let o = p.subrange(2, 3);
        assert(o.drop_last() =~= Seq::<u8>::empty());
        assert(o.last() == p[2]);
    } else if p.len() >= 4 && p[1] == 0x82 {
        let o = p.subrange(2, 4);
        assert(o.drop_last().drop_last() =~= Seq::<u8>::empty());
        assert(o.last() == p[3]);
        assert(o.drop_last().last() == p[2]);
    }
}

/// `bytes` start with a DER object of `total` bytes, header included, by the numbers of the
/// header.
pub open spec fn starts_object(bytes: Seq<u8>, total: int) -> bool {
    ||| bytes.len() >= 2 && bytes[1] < 0x80 && total == 2 + bytes[1]
    ||| bytes.len() >= 3 && bytes[1] == 0x81 && total == 3 + bytes[2]
    ||| bytes.len() >= 4 && bytes[1] == 0x82 && total == 4 + bytes[2] * 256 + bytes[3]
}

/// What an object read gives is as long as its own header says, and is what the card sent.
pub proof fn law_read_is_as_long_as_announced<E>(
    what: Seq<char>,
    new: Seq<Exchange<E>>,
    r: Result<Seq<u8>, Pkcs15ErrorView<E>>,
)
    requires
        ReadPlan::Object(what).run(new, r),
        r is Ok,
    ensures
        starts_object(r->Ok_0, r->Ok_0.len() as int),
        r->Ok_0.len() <= 0x4000,
        r->Ok_0.len() <= collected(new).len(),
        forall|i: int| 0 <= i < r->Ok_0.len() ==> #[trigger] r->Ok_0[i] == collected(new)[i],
{
    crate::pkcs15::law_read_gives_one_object(what, new, r);
    law_der_length_in_numbers(r->Ok_0);
}

/// A card that holds `file` answers the exchange: a READ BINARY at an offset gets as many
/// bytes from there as it asks for, or up to the end of the file.
pub open spec fn served<E>(file: Seq<u8>, x: Exchange<E>) -> bool {
    let offset = x.command[2] * 256 + x.command[3];
    let end = offset + x.command[4];
    &&& x.command.len() == 5 && x.command[0] == 0x00 && x.command[1] == 0xB0
    &&& x.reply matches Ok(OutcomeView::Response(r))
    &&& r.sw1 == 0x90 && r.sw2 == 0x00
    &&& r.body == if end <= file.len() {
        file.subrange(offset, end)
    } else if offset <= file.len() {
        file.skip(offset)
    } else {
        Seq::empty()
    }
}

proof fn lemma_served_step<E>(plan: ReadPlan, file: Seq<u8>, have: Seq<u8>, x: Exchange<E>)
    requires
        have.len() <= file.len(),
        have == file.take(have.len() as int),
        have.len() < 0x4000,
        0 < plan.want(have) <= 0x80,
        x.command == plan.command(have),
        served(file, x),
    ensures
        ({
            let all = have + body_of(x);
            let n = if have.len() + plan.want(have) <= file.len() {
                have.len() + plan.want(have)
            } else {
                file.len() as int
            };
            all == file.take(n) && body_of(x).len() == n - have.len()
        }),
{
    let o = have.len() as int;
    let w = plan.want(have);
    let n = if o + w <= file.len() {
        o + w
    } else {
        file.len() as int
    };
    assert(x.command[2] * 256 + x.command[3] == o);
    assert(x.command[4] == w);
    assert(have + body_of(x) =~= file.take(n));
}

/// What is read so far is the start of the file, short of its object, and tells the length
/// of the object unless nothing is read yet.
spec fn on_the_way(file: Seq<u8>, total: int, have: Seq<u8>) -> bool {
    &&& have.len() <= file.len() && have == file.take(have.len() as int)
    &&& have.len() < total
    &&& have.len() == 0 || have.len() >= 4
}

proof fn lemma_object_outcome<E>(
    what: Seq<char>,
    file: Seq<u8>,
    total: int,
    have: Seq<u8>,
    x: Exchange<E>,
)
    requires
        starts_object(file, total),
        total <= file.len(),
        total <= 0x4000,
        on_the_way(file, total, have),
        x.command == ReadPlan::Object(what).command(have),
        served(file, x),
    ensures
        ({
            let outcome = ReadPlan::Object(what).outcome(have, x);
            ||| outcome == Some(Ok::<Seq<u8>, Pkcs15ErrorView<E>>(file.take(total)))
            ||| outcome is None && on_the_way(file, total, have + body_of(x))
        }),
{
    let plan = ReadPlan::Object(what);
    law_der_length_in_numbers(have);
    if have.len() > 0 {
        assert(have[1] == file[1] && have[2] == file[2] && have[3] == file[3]);
        assert(der_total(have) == Ok::<Option<int>, ()>(Some(total)));
    }
    lemma_served_step(plan, file, have, x);
    let all = have + body_of(x);
    law_der_length_in_numbers(all);
    assert(all.len() >= 2);
    assert(all[0] == file[0] && all[1] == file[1]);
    assert(der_total(all) == Ok::<Option<int>, ()>(Some(total)));
    if all.len() >= total {
        assert(all.take(total) =~= file.take(total));
    }
}

proof fn lemma_served_object<E>(
    what: Seq<char>,
    file: Seq<u8>,
    total: int,
    new: Seq<Exchange<E>>,
    i: int,
)
    requires
        starts_object(file, total),
        total <= file.len(),
        total <= 0x4000,
        0 <= i < new.len(),
        ReadPlan::Object(what).in_order(new),
        ReadPlan::Object(what).unfinished(new, new.len() - 1),
        forall|k: int| 0 <= k < new.len() ==> served(file, #[trigger] new[k]),
    ensures
        on_the_way(file, total, collected(new.take(i))),
        new[i].command == ReadPlan::Object(what).command(collected(new.take(i))),
    decreases i,
{
    reveal(ReadPlan::in_order);
    let plan = ReadPlan::Object(what);
    let have = collected(new.take(i));
    assert(new[i].command == plan.command(have));
    if i == 0 {
        assert(new.take(0) =~= Seq::empty());
        assert(have =~= file.take(0));
    } else {
        lemma_served_object(what, file, total, new, i - 1);
        let before = collected(new.take(i - 1));
        assert(plan.outcome(before, new[i - 1]) is None) by {
            reveal(ReadPlan::unfinished);
        }
        assert(new.take(i).drop_last() =~= new.take(i - 1));
        assert(new.take(i).last() == new[i - 1]);
        assert(served(file, new[i - 1]));
        lemma_object_outcome(what, file, total, before, new[i - 1]);
    }
}

/// A card that holds one DER object, with or without padding behind it, is read to the end
/// of the object: however long it is up to 16 KiB, the result is the whole object and
/// nothing else.
pub proof fn law_served_object_is_read_whole<E>(
    what: Seq<char>,
    file: Seq<u8>,
    total: int,
    new: Seq<Exchange<E>>,
    r: Result<Seq<u8>, Pkcs15ErrorView<E>>,
)
    requires
        starts_object(file, total),
        total <= file.len(),
        total <= 0x4000,
        ReadPlan::Object(what).run(new, r),
        forall|k: int| 0 <= k < new.len() ==> served(file, #[trigger] new[k]),
    ensures
        r == Ok::<Seq<u8>, Pkcs15ErrorView<E>>(file.take(total)),
{
    let last = new.len() - 1;
    lemma_served_object(what, file, total, new, last);
    assert(new.take(last) =~= new.drop_last());
    assert(served(file, new[last]));
    lemma_object_outcome(what, file, total, collected(new.take(last)), new[last]);
}

proof fn lemma_served_bytes<E>(cap: int, file: Seq<u8>, new: Seq<Exchange<E>>, i: int)
    requires
        0 < cap <= 0x4000,
        file.len() > 0,
        0 <= i < new.len(),
        ReadPlan::Bytes(cap).in_order(new),
        ReadPlan::Bytes(cap).unfinished(new, new.len() - 1),
        forall|k: int| 0 <= k < new.len() ==> served(file, #[trigger] new[k]),
    ensures
        ({
            let have = collected(new.take(i));
            let plan = ReadPlan::Bytes(cap);
            let end = if cap <= file.len() {
                cap
            } else {
                file.len() as int
            };
            &&& have.len() <= file.len() && have == file.take(have.len() as int)
            &&& have.len() < cap
            &&& plan.outcome(have, new[i]) is None || plan.outcome(have, new[i]) == Some(
                Ok::<Seq<u8>, Pkcs15ErrorView<E>>(file.take(end)),
            )
            &&& plan.outcome(have, new[i]) is None ==> (have + body_of(new[i])).len() < cap
        }),
    decreases i,
{
    reveal(ReadPlan::in_order);
    reveal(ReadPlan::unfinished);
    let plan = ReadPlan::Bytes(cap);
    let have = collected(new.take(i));
    if i == 0 {
        assert(new.take(0) =~= Seq::empty());
        assert(have =~= file.take(0));
    } else {
        lemma_served_bytes(cap, file, new, i - 1);
        let before = collected(new.take(i - 1));
        assert(plan.outcome(before, new[i - 1]) is None);
        assert(new.take(i).drop_last() =~= new.take(i - 1));
        assert(new.take(i).last() == new[i - 1]);
        assert(new[i - 1].command == plan.command(before));
        lemma_served_step(plan, file, before, new[i - 1]);
    }
    assert(new[i].command == plan.command(have));
    assert(served(file, new[i]));
    lemma_served_step(plan, file, have, new[i]);
}

/// A read of a number of bytes gives that many from the start of the file, or all of a
/// shorter file.
pub proof fn law_served_file_is_read<E>(
    cap: int,
    file: Seq<u8>,
    new: Seq<Exchange<E>>,
    r: Result<Seq<u8>, Pkcs15ErrorView<E>>,
)
    requires
        0 < cap <= 0x4000,
        file.len() > 0,
        ReadPlan::Bytes(cap).run(new, r),
        forall|k: int| 0 <= k < new.len() ==> served(file, #[trigger] new[k]),
    ensures
        r == Ok::<Seq<u8>, Pkcs15ErrorView<E>>(
            if cap <= file.len() {
                file.take(cap)
            } else {
                file
            },
        ),
{
    let last = new.len() - 1;
    lemma_served_bytes(cap, file, new, last);
    assert(new.take(last) =~= new.drop_last());
    assert(file.take(file.len() as int) =~= file);
}

/// A SELECT without response data by a file identifier.
pub open spec fn plain_select(p1: u8, hi: u8, lo: u8) -> Seq<u8> {
    seq![0x00u8, 0xA4, p1, 0x0C, 0x02, hi, lo]
}

/// The selection sends `first`, and `second` when the card refuses it.
pub open spec fn sends(step: Selection, first: Seq<u8>, second: Option<Seq<u8>>) -> bool {
    step.first == first && step.second == second
}

/// The selection of a file under the current directory, or else anywhere.
pub open spec fn selects_file(step: Selection, hi: u8, lo: u8) -> bool {
    sends(step, plain_select(0x02, hi, lo), Some(plain_select(0x00, hi, lo)))
}

/// The selection of the root.
pub open spec fn selects_root(step: Selection) -> bool {
    sends(step, plain_select(0x00, 0x3F, 0x00), Some(plain_select(0x04, 0x3F, 0x00)))
}

/// The selection of the PKCS#15 application by its identifier.
pub open spec fn selects_application(step: Selection) -> bool {
    sends(
        step,
        seq![
            0x00u8, 0xA4, 0x04, 0x0C, 0x0C, 0xA0, 0x00, 0x00, 0x00, 0x63, 0x50, 0x4B, 0x43, 0x53,
            0x2D, 0x31, 0x35,
        ],
        None,
    )
}

/// The selection of the directory of the signature certificates.
pub open spec fn selects_signatures(step: Selection) -> bool {
    sends(
        step,
        plain_select(0x01, 0x50, 0x16),
        Some(seq![0x00u8, 0xA4, 0x00, 0x00, 0x02, 0x50, 0x16]),
    )
}

/// The way to each certificate and to the token information, in the bytes that go out: the
/// authentication certificate and the token information under the application, the
/// signature certificates under their directory, the certificates of authorities under the
/// root.
pub proof fn law_ways_in_bytes()
    ensures
        ({
            let s = slot_steps(CertSlot::Authentication);
            s.len() == 2 && selects_application(s[0]) && selects_file(s[1], 0x43, 0x31)
        }),
        ({
            let s = slot_steps(CertSlot::Signature);
            s.len() == 3 && selects_root(s[0]) && selects_signatures(s[1]) && selects_file(
                s[2],
                0x43,
                0x32,
            )
        }),
        ({
            let s = slot_steps(CertSlot::AuthenticationAlt);
            s.len() == 3 && selects_root(s[0]) && selects_signatures(s[1]) && selects_file(
                s[2],
                0x43,
                0x33,
            )
        }),
        ({
            let s = slot_steps(CertSlot::RootCa);
            s.len() == 2 && selects_root(s[0]) && selects_file(s[1], 0x43, 0x34)
        }),
        ({
            let s = slot_steps(CertSlot::SignatureAlt);
            s.len() == 3 && selects_root(s[0]) && selects_signatures(s[1]) && selects_file(
                s[2],
                0x43,
                0x35,
            )
        }),
        ({
            let s = slot_steps(CertSlot::IssuingCaEcc);
            s.len() == 2 && selects_root(s[0]) && selects_file(s[1], 0x43, 0x36)
        }),
        ({
            let s = token_info_steps();
            s.len() == 2 && selects_application(s[0]) && selects_file(s[1], 0x50, 0x32)
        }),
{
    let app = crate::pkcs15::application_selection();
    assert(app.first =~= seq![
        0x00u8, 0xA4, 0x04, 0x0C, 0x0C, 0xA0, 0x00, 0x00, 0x00, 0x63, 0x50, 0x4B, 0x43, 0x53, 0x2D,
        0x31, 0x35,
    ]);
}

/// `new` are the exchanges of selections of which the card accepts each, in its first or
/// its second form, and then of reads from `file`.
pub open spec fn served_walk<E>(steps: Seq<Selection>, file: Seq<u8>, new: Seq<Exchange<E>>) -> bool
    decreases steps.len(),
{
    if steps.len() == 0 {
        forall|k: int| 0 <= k < new.len() ==> served(file, #[trigger] new[k])
    } else {
        let n = if new[0].succeeded() {
            1int
        } else {
            2int
        };
        &&& new.len() >= n
        &&& new[0].command == steps[0].first
        &&& n == 2 ==> steps[0].second == Some(new[1].command) && new[1].succeeded()
            && new[0].dispatched() is Ok
        &&& served_walk(steps.drop_first(), file, new.skip(n))
    }
}

/// A certificate that a card holds is read whole: when the card accepts the selections on
/// the way and then serves the file, the result is the DER object at its start.
pub proof fn law_served_certificate_is_read_whole<E>(
    steps: Seq<Selection>,
    what: Seq<char>,
    file: Seq<u8>,
    total: int,
    new: Seq<Exchange<E>>,
    r: Result<Seq<u8>, Pkcs15ErrorView<E>>,
)
    requires
        starts_object(file, total),
        total <= file.len(),
        total <= 0x4000,
        walk_run(steps, what, new, r),
        served_walk(steps, file, new),
    ensures
        r == Ok::<Seq<u8>, Pkcs15ErrorView<E>>(file.take(total)),
    decreases steps.len(),
{
    if steps.len() == 0 {
        law_served_object_is_read_whole(what, file, total, new, r);
    } else {
        let n = if new[0].succeeded() {
            1int
        } else {
            2int
        };
        assert(steps[0].size(new[0]) == n);
        law_served_certificate_is_read_whole(steps.drop_first(), what, file, total, new.skip(n), r);
    }
}

/// Token information is read back from the objects it was put together from: the version
/// from the INTEGER in front, the serial in hexadecimal from the OCTET STRING behind it,
/// the manufacturer from the string that follows and the label from the object 80.
pub proof fn law_token_information_read_back(
    version: Seq<u8>,
    serial: Seq<u8>,
    string_tag: u8,
    manufacturer: Seq<u8>,
    label_tag: u8,
    label: Seq<u8>,
)
    requires
        version.len() <= 0xFF_FFFF,
        serial.len() <= 0xFF_FFFF,
        manufacturer.len() <= 0xFF_FFFF,
        label.len() <= 0xFF_FFFF,
        string_tag == 0x0C || string_tag == 0x13,
        label_tag == 0x80 || label_tag == 0x0C || label_tag == 0x13,
    ensures
        token_info_of(
            tlv_bytes(
                0x30,
                tlv_bytes(0x02, version) + (tlv_bytes(0x04, serial) + (tlv_bytes(
                    string_tag,
                    manufacturer,
                ) + tlv_bytes(label_tag, label))),
            ),
        ) == Ok::<TokenInfoView, BerError>(
            TokenInfoView {
                version: Some(be_nat(version) % 0x1_0000_0000),
                serial: Some(lower_hex(serial)),
                manufacturer: Some(utf8_lossy(manufacturer)),
                label: Some(utf8_lossy(label)),
            },
        ),
{
    let none = Seq::<u8>::empty();
    let body = tlv_bytes(0x02, version) + (tlv_bytes(0x04, serial) + (tlv_bytes(
        string_tag,
        manufacturer,
    ) + tlv_bytes(label_tag, label)));
    let all = tlv_bytes(0x30, body);
    assert(all + none =~= all);
    lemma_size(0x02, version);
    lemma_size(0x04, serial);
    lemma_size(string_tag, manufacturer);
    lemma_size(label_tag, label);
    law_tlv_round_trip(0x30, body, none);
    lemma_two_objects(string_tag, manufacturer, label_tag, label);
    let tail = tlv_bytes(string_tag, manufacturer) + tlv_bytes(label_tag, label);
    lemma_front_object(0x04, serial, tail);
    lemma_front_object(0x02, version, tlv_bytes(0x04, serial) + tail);
    let items = tlv_items(body);
    let rest = items.skip(2);
    assert(rest =~= tlv_items(tail));
    lemma_token_strings(rest);
}

pub proof fn lemma_size(tag: u8, value: Seq<u8>)
    requires
        value.len() <= 0xFFFF_FFFF,
    ensures
        tlv_bytes(tag, value).len() <= value.len() + 6,
{
}

/// The objects behind a first one.
pub proof fn lemma_front_object(tag: u8, value: Seq<u8>, rest: Seq<u8>)
    requires
        tag % 32 != 31,
        value.len() <= 0xFFFF_FFFF,
    ensures
        ({
            let items = tlv_items(tlv_bytes(tag, value) + rest);
            &&& items.len() == tlv_items(rest).len() + 1
            &&& items[0].tag == tag && items[0].value == value
            &&& items.skip(1) == tlv_items(rest)
        }),
{
    law_tlv_sequence(tag, value, rest);
    let items = tlv_items(tlv_bytes(tag, value) + rest);
    assert(items.skip(1) =~= tlv_items(rest));
}

pub proof fn lemma_two_objects(tag: u8, value: Seq<u8>, other_tag: u8, other: Seq<u8>)
    requires
        tag % 32 != 31,
        other_tag % 32 != 31,
        value.len() <= 0xFFFF_FFFF,
        other.len() <= 0xFFFF_FFFF,
    ensures
        ({
            let items = tlv_items(tlv_bytes(tag, value) + tlv_bytes(other_tag, other));
            &&& items.len() == 2
            &&& items[0].tag == tag && items[0].value == value
            &&& items[1].tag == other_tag && items[1].value == other
        }),
{
    let none = Seq::<u8>::empty();
    lemma_front_object(other_tag, other, none);
    assert(tlv_bytes(other_tag, other) + none =~= tlv_bytes(other_tag, other));
    assert(tlv_items(none) =~= Seq::empty());
    lemma_front_object(tag, value, tlv_bytes(other_tag, other));
    let items = tlv_items(tlv_bytes(tag, value) + tlv_bytes(other_tag, other));
    assert(items.skip(1)[0] == items[1]);
}

proof fn lemma_token_strings(rest: Seq<TlvView>)
    requires
        rest.len() == 2,
        rest[0].tag == 0x0C || rest[0].tag == 0x13,
        rest[1].tag == 0x80 || rest[1].tag == 0x0C || rest[1].tag == 0x13,
    ensures
        token_strings(rest) == (Some(utf8_lossy(rest[0].value)), Some(utf8_lossy(rest[1].value))),
{
    reveal_with_fuel(token_strings, 3);
    assert(rest.drop_last().drop_last() =~= Seq::<TlvView>::empty());
    assert(rest.drop_last().last() == rest[0]);
}

/// The file size of a control template is the number in its first object 80 or 81; objects
/// of other kinds in front of it do not matter.
pub proof fn law_file_size_is_stated(template: u8, kind: u8, value: Seq<u8>, rest: Seq<u8>)
    requires
        template == 0x62 || template == 0x6F,
        kind % 32 != 31,
        value.len() + rest.len() <= 0xFF_FFFF,
    ensures
        kind == 0x80 || kind == 0x81 ==> file_size(
            tlv_bytes(template, tlv_bytes(kind, value) + rest),
        ) == Some(be_nat(value) % ((usize::MAX + 1) as nat)),
        kind != 0x80 && kind != 0x81 ==> file_size(
            tlv_bytes(template, tlv_bytes(kind, value) + rest),
        ) == file_size(tlv_bytes(template, rest)),
{
    let none = Seq::<u8>::empty();
    let body = tlv_bytes(kind, value) + rest;
    law_tlv_sequence(kind, value, rest);
    law_tlv_round_trip(template, body, none);
    law_tlv_round_trip(template, rest, none);
    assert(tlv_bytes(template, body) + none =~= tlv_bytes(template, body));
    assert(tlv_bytes(template, rest) + none =~= tlv_bytes(template, rest));
    let items = tlv_items(body);
    assert(items[0].tag == kind && items[0].value == value);
    assert(items.drop_first() =~= tlv_items(rest));
}

/// The second form of a selection goes out only where the card refused the first one, and
/// then decides. A card that confirms a form is at the file; a refusal is told with its
/// status, and a reply that never came ends the selection.
pub proof fn law_second_form_after_refusal<E>(
    selection: Selection,
    new: Seq<Exchange<E>>,
    r: Result<(), Pkcs15Error<TransportDispatchError<E>>>,
    first: ResponseView,
    second: ResponseView,
)
    requires
        selection.run(new, r),
        new[0].reply == Ok::<OutcomeView, E>(OutcomeView::Response(first)),
        new.len() >= 2 ==> new[1].reply == Ok::<OutcomeView, E>(OutcomeView::Response(second)),
    ensures
        new[0].command == selection.first,
        first.sw1 == 0x90 && first.sw2 == 0x00 ==> new.len() == 1 && r is Ok,
        !(first.sw1 == 0x90 && first.sw2 == 0x00) && selection.second is None ==> new.len() == 1
            && selected_view(r) == Err::<(), Pkcs15ErrorView<E>>(
            Pkcs15ErrorView::Sw(256 * first.sw1 + first.sw2),
        ),
        !(first.sw1 == 0x90 && first.sw2 == 0x00) && selection.second is Some ==> {
            &&& new.len() == 2
            &&& new[1].command == selection.second->Some_0
            &&& second.sw1 == 0x90 && second.sw2 == 0x00 ==> r is Ok
            &&& !(second.sw1 == 0x90 && second.sw2 == 0x00) ==> selected_view(r) == Err::<
                (),
                Pkcs15ErrorView<E>,
            >(Pkcs15ErrorView::Sw(256 * second.sw1 + second.sw2))
        },
{
}

/// How a read of one object fails: any status but `9000` and `6282` is told; more data than
/// was asked for, no data in the middle, or a file that ends before its object does, is
/// malformed; a file without data is empty; an object of more than 16384 bytes is too large.
pub proof fn law_failed_reads<E>(
    what: Seq<char>,
    have: Seq<u8>,
    x: Exchange<E>,
    reply: ResponseView,
)
    requires
        x.reply == Ok::<OutcomeView, E>(OutcomeView::Response(reply)),
    ensures
        ({
            let plan = ReadPlan::Object(what);
            let status = 256 * reply.sw1 + reply.sw2;
            let data = reply.body.len();
            let all = have + reply.body;
            let outcome = plan.outcome(have, x);
            &&& status != 0x9000 && status != 0x6282 ==> outcome == Some(
                Err::<Seq<u8>, Pkcs15ErrorView<E>>(Pkcs15ErrorView::Sw(status)),
            )
            &&& status == 0x9000 || status == 0x6282 ==> {
                &&& data > plan.want(have) ==> outcome == Some(
                    Err::<Seq<u8>, Pkcs15ErrorView<E>>(Pkcs15ErrorView::InvalidData(what)),
                )
                &&& data == 0 && plan.want(have) >= 0 ==> outcome == Some(
                    Err::<Seq<u8>, Pkcs15ErrorView<E>>(
                        if have.len() == 0 {
                            Pkcs15ErrorView::Empty
                        } else {
                            Pkcs15ErrorView::InvalidData(what)
                        },
                    ),
                )
                &&& 0 < data <= plan.want(have) && (der_total(all) matches Ok(Some(n)) && n > 16384)
                    ==> outcome == Some(
                    Err::<Seq<u8>, Pkcs15ErrorView<E>>(Pkcs15ErrorView::TooLarge),
                )
                &&& 0 < data <= plan.want(have) && (status == 0x6282 || data < plan.want(have)) && (
                der_total(all) matches Ok(Some(n)) && all.len() < n <= 16384) ==> outcome == Some(
                    Err::<Seq<u8>, Pkcs15ErrorView<E>>(Pkcs15ErrorView::InvalidData(what)),
                )
            }
        }),
{
}

/// The strings of the token information in order: the first UTF8String or PrintableString is
/// the manufacturer, the second the label, further ones count for nothing, and an object of
/// tag 80 is the label whatever came before.
pub proof fn law_token_strings_in_order(items: Seq<TlvView>, item: TlvView)
    ensures
        token_strings(Seq::empty()) == (None::<Seq<char>>, None::<Seq<char>>),
        ({
            let before = token_strings(items);
            let after = token_strings(items.push(item));
            let string = item.tag == 0x0C || item.tag == 0x13;
            &&& string && before.0 is None ==> after == (Some(utf8_lossy(item.value)), before.1)
            &&& string && before.0 is Some && before.1 is None ==> after == (
                before.0,
                Some(utf8_lossy(item.value)),
            )
            &&& string && before.0 is Some && before.1 is Some ==> after == before
            &&& item.tag == 0x80 ==> after == (before.0, Some(utf8_lossy(item.value)))
            &&& !string && item.tag != 0x80 ==> after == before
        }),
{
    assert(items.push(item).drop_last() =~= items);
}

/// A read to the end is cut off at 16384 bytes, or at the expected size where that is less.
pub proof fn law_read_caps<E>(n: usize, all: Seq<u8>)
    ensures
        read_cap(None) == 16384,
        n <= 16384 ==> read_cap(Some(n)) == n,
        n > 16384 ==> read_cap(Some(n)) == 16384,
        0 < all.len() <= 16384 ==> whole_read::<E>(all) == Ok::<Seq<u8>, Pkcs15ErrorView<E>>(
            all,
        ),
        all.len() > 16384 ==> whole_read::<E>(all) == Err::<Seq<u8>, Pkcs15ErrorView<E>>(
            Pkcs15ErrorView::TooLarge,
        ),
        all.len() == 0 ==> whole_read::<E>(all) == Err::<Seq<u8>, Pkcs15ErrorView<E>>(
            Pkcs15ErrorView::Empty,
        ),
{
}

/// The certificates of a card: the root is what is read from `43 34`, the intermediate what
/// is read from `43 36`. One that cannot be read is missing; without both there is no
/// collection.
pub proof fn law_card_roots<E>(
    new: Seq<Exchange<E>>,
    at: int,
    root: Result<Seq<u8>, Pkcs15ErrorView<E>>,
    intermediate: Result<Seq<u8>, Pkcs15ErrorView<E>>,
    r: Option<RootCertificates>,
)
    requires
        card_roots_run(new, at, root, intermediate, r),
    ensures
        r is Some <==> root is Ok || intermediate is Ok,
        root matches Ok(der) ==> (r matches Some(c) && c.root_ca is Some && c.root_ca->Some_0@
            == der),
        intermediate matches Ok(der) ==> (r matches Some(c) && c.intermediate_ca is Some
            && c.intermediate_ca->Some_0@ == der),
        r matches Some(c) ==> (c.root_ca is Some <==> root is Ok) && (c.intermediate_ca is Some
            <==> intermediate is Ok) && c.extra_cas@.len() == 0,
        ({
            let steps = slot_steps(CertSlot::RootCa);
            &&& walk_run(steps, CertSlot::RootCa.name(), new.take(at), root)
            &&& steps.len() == 2 && selects_file(steps[1], 0x43, 0x34)
        }),
        ({
            let steps = slot_steps(CertSlot::IssuingCaEcc);
            &&& walk_run(steps, CertSlot::IssuingCaEcc.name(), new.skip(at), intermediate)
            &&& steps.len() == 2 && selects_file(steps[1], 0x43, 0x36)
        }),
{
    law_ways_in_bytes();
}

/// Whatever [`der_object_total_length`] answers is the length that the header spells: one
/// length octet below 80, one behind 81, or two behind 82 of which the first weighs 256.
pub proof fn law_total_length_answers(prefix: &[u8], r: Result<Option<usize>, ()>)
    requires
        call_ensures(der_object_total_length, (prefix,), r),
    ensures
        prefix@.len() < 2 ==> r == Ok::<Option<usize>, ()>(None),
        prefix@.len() >= 2 && prefix@[1] < 0x80 ==> (r matches Ok(Some(n)) && n == 2 + prefix@[1]),
        prefix@.len() >= 2 && prefix@[1] == 0x81 ==> if prefix@.len() < 3 {
            r == Ok::<Option<usize>, ()>(None)
        } else {
            r matches Ok(Some(n)) && n == 3 + prefix@[2]
        },
        prefix@.len() >= 2 && prefix@[1] == 0x82 ==> if prefix@.len() < 4 {
            r == Ok::<Option<usize>, ()>(None)
        } else {
            r matches Ok(Some(n)) && n == 4 + 256 * prefix@[2] + prefix@[3]
        },
        prefix@.len() >= 2 && (prefix@[1] == 0x80 || prefix@[1] > 0x82) ==> r is Err,
{
    law_der_length_in_numbers(prefix@);
}

/// Whatever [`TokenInfo::parse`] gives for token information that was put together from
/// parts: each field holds its part, the serial in hexadecimal.
pub proof fn law_token_information_fields(
    der: &[u8],
    version: Seq<u8>,
    serial: Seq<u8>,
    manufacturer: Seq<u8>,
    label: Seq<u8>,
    r: Result<TokenInfo, BerError>,
)
    requires
        call_ensures(TokenInfo::parse, (der,), r),
        version.len() <= 0xFF_FFFF,
        serial.len() <= 0xFF_FFFF,
        manufacturer.len() <= 0xFF_FFFF,
        label.len() <= 0xFF_FFFF,
        der@ == tlv_bytes(
            0x30,
            tlv_bytes(0x02, version) + (tlv_bytes(0x04, serial) + (tlv_bytes(0x0C, manufacturer)
                + tlv_bytes(0x80, label))),
        ),
    ensures
        r matches Ok(info) && {
            &&& info.version matches Some(n) && n == be_nat(version) % 0x1_0000_0000
            &&& info.serial_number_hex matches Some(s) && s@ == lower_hex(serial)
            &&& info.manufacturer_id matches Some(m) && m@ == utf8_lossy(manufacturer)
            &&& info.label matches Some(l) && l@ == utf8_lossy(label)
        },
{
    law_token_information_read_back(version, serial, 0x0C, manufacturer, 0x80, label);
}

} // verus!
