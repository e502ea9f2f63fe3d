//! Protected messages on the wire: what is emitted and accepted, over their bytes.

use crate::ber::{tlv_bytes, tlv_clean, tlv_items, TlvView};
use crate::bytes::be_nat;
use crate::crypto::symmetric::{aes256_block, aes256_cbc_decrypted, aes256_cmac};
use crate::pace::{law_counter_adds_one, SessionView};
use crate::secure_messaging::{block_padded, decrypted_field, last_value, law_protected_reply_layout,
    reply_parts, short_apdu, stepped, unpadded, SmError, SmTransport};
use crate::transport::CardTransport;
use vstd::prelude::*;

verus! {

/// Whatever [`SmTransport::wrap`] emits: the header of the plain command with the class bits
/// of secure messaging, and a checksum that is the head of the CMAC over the next counter,
/// that header in a block of its own, and every object between the length and the checksum.
pub proof fn law_wrapped_command_is_authentic<T: CardTransport>(
    sm: &mut SmTransport<T>,
    plain: &[u8],
    r: Result<Vec<u8>, SmError<T::Error>>,
)
    requires
        call_ensures(SmTransport::<T>::wrap, (sm, plain), r),
    ensures
        r matches Ok(apdu) ==> {
            let n = apdu@.len() as int;
            let header = seq![plain@[0] | 0x0C, plain@[1], plain@[2], plain@[3]];
            let before = old(sm).session();
            let counter = final(sm).session().ssc;
            &&& n >= 16
            &&& apdu@.subrange(0, 4) == header
            &&& apdu@.subrange(n - 9, n - 1) == aes256_cmac(
                before.k_mac,
                block_padded(counter + block_padded(header) + apdu@.subrange(5, n - 11)),
            ).take(8)
            &&& be_nat(counter) == be_nat(before.ssc) + 1 || forall|i: int|
                0 <= i < before.ssc.len() ==> #[trigger] before.ssc[i] == 0xFF
        },
{
    if r is Ok {
        let apdu = r->Ok_0@;
        let header = seq![plain@[0] | 0x0C, plain@[1], plain@[2], plain@[3]];
        assert(apdu.take(4) =~= header);
        assert(apdu.subrange(0, 4) =~= header);
        law_counter_adds_one(old(sm).session().ssc);
    }
}

/// Whatever [`SmTransport::unwrap`] gives for a protected reply: its content and its status,
/// where the checksum is the head of the CMAC over the next counter and the objects in front
/// of it, and nothing where it is not.
pub proof fn law_unwrapped_reply_is_authentic<T: CardTransport>(
    sm: &mut SmTransport<T>,
    response: &[u8],
    cipher: Seq<u8>,
    sw1: u8,
    sw2: u8,
    mac: Seq<u8>,
    r: Result<(Vec<u8>, u16), SmError<T::Error>>,
)
    requires
        call_ensures(SmTransport::<T>::unwrap, (sm, response), r),
        mac.len() == 8,
        cipher.len() % 16 == 0 && cipher.len() < 0xFFFF,
        response@ == tlv_bytes(0x87, seq![0x01u8] + cipher) + seq![0x99u8, 0x02u8, sw1, sw2] + seq![
            0x8Eu8,
            0x08u8,
        ] + mac,
    ensures
        ({
            let keys = old(sm).session();
            let counter = final(sm).session().ssc;
            let front = tlv_bytes(0x87, seq![0x01u8] + cipher) + seq![0x99u8, 0x02u8, sw1, sw2];
            let expected = aes256_cmac(keys.k_mac, block_padded(counter + front)).take(8);
            &&& mac != expected ==> r is Err
            &&& mac == expected ==> (r matches Ok((body, sw)) && sw == 256 * sw1 + sw2 && body@
                == unpadded(
                aes256_cbc_decrypted(keys.k_enc, aes256_block(keys.k_enc, counter), cipher),
            ))
            &&& be_nat(counter) == be_nat(keys.ssc) + 1 || forall|i: int|
                0 <= i < keys.ssc.len() ==> #[trigger] keys.ssc[i] == 0xFF
        }),
{
    law_protected_reply_layout::<T::Error>(
        stepped(old(sm).session()),
        Some(cipher),
        sw1,
        sw2,
        mac,
    );
    law_counter_adds_one(old(sm).session().ssc);
}

/// The commands that can be protected: four bytes of header, alone or with an expected
/// length, or with as many bytes of data as the fifth byte counts, and then an expected
/// length or none. Nothing else is a short command.
pub proof fn law_only_short_commands(plain: Seq<u8>)
    ensures
        short_apdu(plain) is Some <==> {
            ||| plain.len() == 4 || plain.len() == 5
            ||| plain.len() > 5 && (plain.len() == 5 + plain[4] || plain.len() == 6 + plain[4])
        },
        short_apdu(plain) matches Some((data, le)) ==> {
            &&& plain.len() > 5 ==> data.len() == plain[4] && forall|i: int|
                0 <= i < data.len() ==> #[trigger] data[i] == plain[5 + i]
            &&& plain.len() <= 5 ==> data.len() == 0
            &&& le is Some <==> plain.len() == 5 || plain.len() > 5 && plain.len() == 6 + plain[4]
            &&& le matches Some(b) ==> b == plain.last()
        },
{
}

/// `value` is that of the last data object with the tag.
pub open spec fn is_last_value(items: Seq<TlvView>, tag: u16, value: Seq<u8>) -> bool {
    exists|i: int|
        0 <= i < items.len() && (#[trigger] items[i]).tag == tag && items[i].value == value && (
        forall|j: int| i < j < items.len() ==> (#[trigger] items[j]).tag != tag)
}

proof fn lemma_last_value(items: Seq<TlvView>, tag: u16)
    ensures
        last_value(items, tag) matches Some(v) ==> is_last_value(items, tag, v),
        last_value(items, tag) is None ==> forall|i: int|
            0 <= i < items.len() ==> (#[trigger] items[i]).tag != tag,
    decreases items.len(),
{
    if items.len() > 0 {
        let front = items.drop_last();
        lemma_last_value(front, tag);
        if items.last().tag == tag {
            assert(items[items.len() - 1].tag == tag);
        } else if last_value(items, tag) is Some {
            let v = last_value(items, tag)->Some_0;
            let i = choose|i: int|
                0 <= i < front.len() && (#[trigger] front[i]).tag == tag && front[i].value == v && (
                forall|j: int| i < j < front.len() ==> (#[trigger] front[j]).tag != tag);
            assert(items[i].tag == tag && items[i].value == v);
            assert forall|j: int| i < j < items.len() implies (#[trigger] items[j]).tag != tag by {
                if j < front.len() {
                    assert(front[j].tag != tag);
                }
            }
        } else {
            assert forall|i: int| 0 <= i < items.len() implies (#[trigger] items[i]).tag != tag by {
                if i < front.len() {
                    assert(front[i].tag != tag);
                }
            }
        }
    }
}

/// A reply that is read consists of data objects to its end. Its status is the last object
/// 99, of two bytes, its checksum the last object 8E, of eight bytes, and its field the last
/// object 87, if there is one.
pub proof fn law_parts_of_a_reply<E>(response: Seq<u8>)
    requires
        reply_parts::<E>(response) is Ok,
    ensures
        ({
            let parts = reply_parts::<E>(response)->Ok_0;
            let items = tlv_items(response);
            &&& tlv_clean(response)
            &&& parts.status.len() == 2 && is_last_value(items, 0x99, parts.status)
            &&& parts.mac.len() == 8 && is_last_value(items, 0x8E, parts.mac)
            &&& parts.cryptogram matches Some(v) ==> is_last_value(items, 0x87, v)
            &&& parts.cryptogram is None ==> forall|i: int|
                0 <= i < items.len() ==> (#[trigger] items[i]).tag != 0x87
        }),
{
    let items = tlv_items(response);
    lemma_last_value(items, 0x99);
    lemma_last_value(items, 0x8E);
    lemma_last_value(items, 0x87);
}

/// A field is decrypted only where it has whole blocks of sixteen bytes behind a 01.
pub proof fn law_fields_that_are_decrypted<E>(session: SessionView, value: Seq<u8>)
    ensures
        decrypted_field::<E>(session, value) is Ok <==> value.len() > 0 && value[0] == 0x01
            && value.len() % 16 == 1,
{
}

} // verus!
