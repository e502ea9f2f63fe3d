//! The file with the handshake parameters, which a card serves before any handshake.

use crate::ber::{law_tlv_round_trip, tagged, tlv_bytes, tlv_clean, BerBody, BerTlvAny, TAG_SET};
use crate::pkcs15::{file_selection, pkcs15_view, read_root_file, root_selection, walk_run,
    Pkcs15Error, Pkcs15ErrorView, Selection};
use crate::pkcs15::reading::{selects_file, selects_root};
use crate::transport::{continues, news, CardTransport, Exchange, TransportDispatchError};
use vstd::prelude::*;
use vstd::string::*;

verus! {

/// File identifier.
pub const EF_CARD_ACCESS_FID: [u8; 2] = [0x01, 0x1C];

/// The bytes are a SET of readable data objects.
pub open spec fn is_card_access(bytes: Seq<u8>) -> bool {
    match tagged(bytes, TAG_SET) {
        Ok(body) => tlv_clean(body),
        Err(_) => false,
    }
}

/// The selections on the way to the file.
pub open spec fn card_access_steps() -> Seq<Selection> {
    seq![root_selection(), file_selection(EF_CARD_ACCESS_FID)]
}

/// `new` are the exchanges and `r` is the result of reading the file.
pub open spec fn card_access_run<E>(
    new: Seq<Exchange<E>>,
    r: Result<Seq<u8>, Pkcs15ErrorView<E>>,
) -> bool {
    exists|read: Result<Seq<u8>, Pkcs15ErrorView<E>>|
        #[trigger] walk_run(card_access_steps(), "EF.CardAccess"@, new, read) && r == match read {
            Err(e) => Err(e),
            Ok(bytes) => if is_card_access(bytes) {
                Ok(bytes)
            } else {
                Err(Pkcs15ErrorView::InvalidData("EF.CardAccess"@))
            },
        }
}

/// Read the file from the root of the card.
pub fn read_card_access<T: CardTransport>(transport: &mut T) -> (r: Result<
    Vec<u8>,
    Pkcs15Error<TransportDispatchError<T::Error>>,
>)
    ensures
        continues(old(transport).log(), final(transport).log()),
        card_access_run(news(old(transport).log(), final(transport).log()), pkcs15_view(r)),
{
    let ghost start = transport.log();
    let read = read_root_file(transport, EF_CARD_ACCESS_FID, "EF.CardAccess");
    assert(walk_run(
        card_access_steps(),
        "EF.CardAccess"@,
        news(start, transport.log()),
        pkcs15_view(read),
    ));
    match read {
        Ok(bytes) => match BerTlvAny::parse_tagged(bytes.as_slice(), TAG_SET) {
            Ok(body) => if BerBody::read(body).clean {
                Ok(bytes)
            } else {
                Err(Pkcs15Error::InvalidData("EF.CardAccess"))
            },
            Err(_) => Err(Pkcs15Error::InvalidData("EF.CardAccess")),
        },
        Err(e) => Err(e),
    }
}

/// The file is read from `01 1C` under the root, and its content is a SET of data objects.
pub proof fn law_card_access_in_bytes(body: Seq<u8>, tag: u8)
    requires
        body.len() <= 0xFFFF_FFFF,
        tag % 32 != 31,
    ensures
        ({
            let s = card_access_steps();
            s.len() == 2 && selects_root(s[0]) && selects_file(s[1], 0x01, 0x1C)
        }),
        is_card_access(tlv_bytes(tag, body)) <==> tag == 0x31 && tlv_clean(body),
{
    let none = Seq::<u8>::empty();
    law_tlv_round_trip(tag, body, none);
    assert(tlv_bytes(tag, body) + none =~= tlv_bytes(tag, body));
}

/// The result of reading the file is its content, as it was read, where that is a SET of
/// data objects; any other content is malformed, and a read that failed is told.
pub proof fn law_card_access_is_checked<E>(
    new: Seq<Exchange<E>>,
    r: Result<Seq<u8>, Pkcs15ErrorView<E>>,
) -> (read: Result<Seq<u8>, Pkcs15ErrorView<E>>)
    requires
        card_access_run(new, r),
    ensures
        walk_run(card_access_steps(), "EF.CardAccess"@, new, read),
        read matches Err(e) ==> r == Err::<Seq<u8>, Pkcs15ErrorView<E>>(e),
        read matches Ok(bytes) ==> r == if is_card_access(bytes) {
            Ok::<Seq<u8>, Pkcs15ErrorView<E>>(bytes)
        } else {
            Err(Pkcs15ErrorView::InvalidData("EF.CardAccess"@))
        },
        r matches Ok(bytes) ==> is_card_access(bytes),
{
    choose|read: Result<Seq<u8>, Pkcs15ErrorView<E>>|
        #[trigger] walk_run(card_access_steps(), "EF.CardAccess"@, new, read) && r == match read {
            Err(e) => Err(e),
            Ok(bytes) => if is_card_access(bytes) {
                Ok(bytes)
            } else {
                Err(Pkcs15ErrorView::InvalidData("EF.CardAccess"@))
            },
        }
}

} // verus!
