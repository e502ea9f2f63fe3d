//! Commands of the PACE handshake.

use crate::bytes::push_all;
use crate::transport::CommandApdu;
use vstd::prelude::*;

verus! {

/// GENERAL AUTHENTICATE: one round of the handshake.
#[derive(Debug, Clone)]
pub struct GeneralAuthenticate {
    /// More rounds follow.
    pub chain: bool,
    /// The authentication data of the round.
    pub payload: Vec<u8>,
}

/// `10 86 00 00 Lc <payload> 00` inside the chain, `00 86 ..` at its end.
pub open spec fn general_authenticate_bytes(chain: bool, payload: Seq<u8>) -> Seq<u8> {
    (seq![
        if chain {
            0x10u8
        } else {
            0x00u8
        },
        GeneralAuthenticate::INS,
        GeneralAuthenticate::P1,
        GeneralAuthenticate::P2,
        payload.len() as u8,
    ] + payload).push(0x00)
}

impl GeneralAuthenticate {
    /// Instruction byte.
    pub const INS: u8 = 0x86;

    /// First parameter.
    pub const P1: u8 = 0x00;

    /// Second parameter.
    pub const P2: u8 = 0x00;

    /// Serialise into the wire APDU.
    pub fn into_apdu(self) -> (r: CommandApdu)
        requires
            self.payload@.len() <= 255,
        ensures
            r@ == general_authenticate_bytes(self.chain, self.payload@),
            !r.permits_le_retry(),
    {
        let lc: u8 = self.payload.len() as u8;
        let cla: u8 = if self.chain {
            0x10
        } else {
            0x00
        };
        let mut out = vec![
            cla,
            GeneralAuthenticate::INS,
            GeneralAuthenticate::P1,
            GeneralAuthenticate::P2,
            lc,
        ];
        push_all(&mut out, self.payload.as_slice());
        out.push(0x00);
        assert(out@ =~= general_authenticate_bytes(self.chain, self.payload@));
        CommandApdu::new(out)
    }
}

/// MSE: Set AT: announce mechanism, password and domain parameters.
#[derive(Debug, Clone)]
pub struct MseSetAt {
    /// The references of the template.
    pub data: Vec<u8>,
}

/// `00 22 C1 A4 Lc <data>`.
pub open spec fn mse_set_at_bytes(data: Seq<u8>) -> Seq<u8> {
    seq![MseSetAt::CLA, MseSetAt::INS, MseSetAt::P1, MseSetAt::P2, data.len() as u8] + data
}

impl MseSetAt {
    /// Class byte.
    pub const CLA: u8 = 0x00;

    /// Instruction byte.
    pub const INS: u8 = 0x22;

    /// First parameter.
    pub const P1: u8 = 0xC1;

    /// Second parameter.
    pub const P2: u8 = 0xA4;

    /// Serialise into the wire APDU.
    pub fn into_apdu(self) -> (r: CommandApdu)
        requires
            self.data@.len() <= 255,
        ensures
            r@ == mse_set_at_bytes(self.data@),
            !r.permits_le_retry(),
    {
        let lc: u8 = self.data.len() as u8;
        let mut out = vec![MseSetAt::CLA, MseSetAt::INS, MseSetAt::P1, MseSetAt::P2, lc];
        push_all(&mut out, self.data.as_slice());
        assert(out@ =~= mse_set_at_bytes(self.data@));
        CommandApdu::new(out)
    }
}

} // verus!
