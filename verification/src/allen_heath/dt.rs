//! The DT168 and DT164-W expanders: the vendor messages that carry their preamps, and the ConMon
//! envelope around them. There is no transport. Of the gain the raw number is carried; what it is
//! in dB is not known.
use vstd::prelude::*;

use crate::bytes;
use crate::bytes::{push_all, push_u16, read_u16};
use crate::text;
use crate::text::{push_decimal, push_hex};

pub mod conmon;
pub mod msg_type;

verus! {

/// The vendor's id: `AllenHth`.
pub const VENDOR_ID: [u8; 8] = [0x41, 0x6c, 0x6c, 0x65, 0x6e, 0x48, 0x74, 0x68];

/// How many preamps an expander has.
pub const PREAMP_COUNT: usize = 16;

/// The gain that stands for none in particular.
pub const GAIN_REFERENCE: u16 = 0x8000;

/// The bit of the pad in a flags octet.
pub const FLAG_PAD: u8 = 1;

/// The bit of phantom power in a flags octet.
pub const FLAG_PHANTOM: u8 = 2;

/// A vendor message with its envelope taken off.
#[derive(Debug, Clone, PartialEq, Eq)]
pub struct ConmonFrame {
    pub magic: u16,
    pub seqnum: u16,
    pub device_id: [u8; 8],
    pub vendor: [u8; 8],
    pub body: Vec<u8>,
}

/// A [`ConmonFrame`], its parts as sequences.
#[verifier::ext_equal]
pub struct FrameModel {
    pub magic: u16,
    pub seqnum: u16,
    pub device_id: Seq<u8>,
    pub vendor: Seq<u8>,
    pub body: Seq<u8>,
}

impl View for ConmonFrame {
    type V = FrameModel;

    open spec fn view(&self) -> FrameModel {
        FrameModel {
            magic: self.magic,
            seqnum: self.seqnum,
            device_id: self.device_id@,
            vendor: self.vendor@,
            body: self.body@,
        }
    }
}

/// A device's id: its MAC address, with FF:FE in the middle.
pub fn device_eui64(mac: [u8; 6]) -> (r: [u8; 8])
    ensures
        r@ == mac@.take(3) + seq![0xffu8, 0xfeu8] + mac@.skip(3),
{
    let r: [u8; 8] = [mac[0], mac[1], mac[2], 0xFF, 0xFE, mac[3], mac[4], mac[5]];
    assert(r@ =~= mac@.take(3) + seq![0xffu8, 0xfeu8] + mac@.skip(3));
    r
}

/// A vendor message in its envelope. The length counts the whole message, and keeps its low
/// sixteen bits.
pub open spec fn enveloped(f: FrameModel) -> Seq<u8> {
    bytes::u16_bytes(f.magic as int) + bytes::u16_bytes((24 + f.body.len() as int) % 65536)
        + bytes::u16_bytes(f.seqnum as int) + seq![0u8, 0u8] + f.device_id + f.vendor + f.body
}

/// Puts a vendor message into its envelope.
pub fn wrap_conmon(
    magic: u16,
    seqnum: u16,
    device_id: [u8; 8],
    vendor: [u8; 8],
    body: &[u8],
) -> (r: Vec<u8>)
    requires
        body@.len() + 24 <= usize::MAX,
    ensures
        r@ == enveloped(
            FrameModel {
                magic,
                seqnum,
                device_id: device_id@,
                vendor: vendor@,
                body: body@,
            },
        ),
{
    let total: usize = 24 + body.len();
    let mut out: Vec<u8> = Vec::new();
    push_u16(&mut out, magic);
    push_u16(&mut out, (total as u64 % 65536) as u16);
    push_u16(&mut out, seqnum);
    out.push(0);
    out.push(0);
    push_all(&mut out, device_id.as_slice());
    push_all(&mut out, vendor.as_slice());
    push_all(&mut out, body);
    assert(out@ =~= enveloped(
        FrameModel { magic, seqnum, device_id: device_id@, vendor: vendor@, body: body@ },
    ));
    out
}

/// The vendor message in an envelope; `None` where the octets are too few for one.
pub open spec fn frame_in(pkt: Seq<u8>) -> Option<FrameModel> {
    if pkt.len() < 24 {
        None
    } else {
        Some(
            FrameModel {
                magic: bytes::u16_at(pkt, 0) as u16,
                seqnum: bytes::u16_at(pkt, 4) as u16,
                device_id: pkt.subrange(8, 16),
                vendor: pkt.subrange(16, 24),
                body: pkt.skip(24),
            },
        )
    }
}

/// Takes a vendor message out of its envelope.
pub fn parse_conmon(pkt: &[u8]) -> (r: Option<ConmonFrame>)
    ensures
        match r {
            Some(f) => frame_in(pkt@) == Some(f@),
            None => frame_in(pkt@) is None,
        },
{
    if pkt.len() < 24 {
        return None;
    }
    let device_id: [u8; 8] = [
        pkt[8],
        pkt[9],
        pkt[10],
        pkt[11],
        pkt[12],
        pkt[13],
        pkt[14],
        pkt[15],
    ];
    let vendor: [u8; 8] = [
        pkt[16],
        pkt[17],
        pkt[18],
        pkt[19],
        pkt[20],
        pkt[21],
        pkt[22],
        pkt[23],
    ];
    let body = vstd::slice::slice_to_vec(vstd::slice::slice_subrange(pkt, 24, pkt.len()));
    assert(device_id@ =~= pkt@.subrange(8, 16));
    assert(vendor@ =~= pkt@.subrange(16, 24));
    assert(body@ =~= pkt@.skip(24));
    Some(
        ConmonFrame {
            magic: read_u16(pkt, 0),
            seqnum: read_u16(pkt, 4),
            device_id,
            vendor,
            body,
        },
    )
}

/// A message that is put into an envelope comes out of it as it was.
pub proof fn an_envelope_round_trips(f: FrameModel)
    requires
        f.device_id.len() == 8,
        f.vendor.len() == 8,
    ensures
        frame_in(enveloped(f)) == Some(f),
        f.body.len() + 24 <= 0xffff ==> bytes::u16_at(enveloped(f), 2) == enveloped(f).len(),
{
    let pkt = enveloped(f);
    assert(pkt.subrange(0, 2) =~= bytes::u16_bytes(f.magic as int));
    assert(pkt.subrange(2, 4) =~= bytes::u16_bytes((24 + f.body.len() as int) % 65536));
    assert(pkt.subrange(4, 6) =~= bytes::u16_bytes(f.seqnum as int));
    bytes::u16_reads_back(pkt, 0, f.magic as int);
    bytes::u16_reads_back(pkt, 2, (24 + f.body.len() as int) % 65536);
    bytes::u16_reads_back(pkt, 4, f.seqnum as int);
    assert(pkt.subrange(8, 16) =~= f.device_id);
    assert(pkt.subrange(16, 24) =~= f.vendor);
    assert(pkt.skip(24) =~= f.body);
}

/// What a preamp is set to, as it stands on the wire.
#[derive(Debug, Clone, Copy, PartialEq, Eq, Structural)]
pub struct DtPreamp {
    pub gain: u16,
    pub pad: bool,
    pub phantom: bool,
}

/// The flags octet of a preamp.
pub open spec fn flags_of(p: DtPreamp) -> u8 {
    ((if p.pad {
        FLAG_PAD as int
    } else {
        0
    }) + (if p.phantom {
        FLAG_PHANTOM as int
    } else {
        0
    })) as u8
}

/// The preamp with a gain and a flags octet.
pub open spec fn preamp_of(gain: u16, flags: u8) -> DtPreamp {
    DtPreamp { gain, pad: flags % 2 == 1, phantom: (flags / 2) % 2 == 1 }
}

impl DtPreamp {
    pub fn flags_byte(&self) -> (r: u8)
        ensures
            r == flags_of(*self),
    {
        let mut f: u8 = 0;
        if self.pad {
            f = f + FLAG_PAD;
        }
        if self.phantom {
            f = f + FLAG_PHANTOM;
        }
        f
    }

    fn from_flags(gain: u16, flags: u8) -> (r: Self)
        ensures
            r == preamp_of(gain, flags),
    {
        DtPreamp { gain, pad: flags % 2 == 1, phantom: (flags / 2) % 2 == 1 }
    }
}

/// Why a status could not be read.
#[derive(Debug, Clone, Copy, PartialEq, Eq, Structural)]
pub enum DtDecodeError {
    /// The payload is too short for what it claims to be.
    Truncated { need: usize, got: usize },
    /// The payload is no status.
    UnknownStatusSelector(u8),
}

/// An error as a sentence.
pub open spec fn error_text(e: DtDecodeError) -> Seq<char> {
    match e {
        DtDecodeError::Truncated { need, got } => "DT status payload truncated: need "@
            + text::decimal(need as nat) + " bytes, got "@ + text::decimal(got as nat),
        DtDecodeError::UnknownStatusSelector(s) => "DT status has unknown selector 0x"@
            + text::hex(s as nat, 2),
    }
}

impl DtDecodeError {
    /// The error as a sentence.
    pub fn message(&self) -> (r: String)
        ensures
            r@ == error_text(*self),
    {
        match self {
            DtDecodeError::Truncated { need, got } => {
                let mut out: String = "DT status payload truncated: need ".to_owned();
                push_decimal(&mut out, *need as u64);
                out.append(" bytes, got ");
                push_decimal(&mut out, *got as u64);
                out
            },
            DtDecodeError::UnknownStatusSelector(s) => {
                let mut out: String = "DT status has unknown selector 0x".to_owned();
                push_hex(&mut out, *s as u32, 2);
                out
            },
        }
    }
}

/// The payload that sets a preamp.
pub open spec fn set_payload(channel: u8, p: DtPreamp) -> Seq<u8> {
    seq![msg_type::SET_MIC_PRE, channel] + bytes::u16_bytes(p.gain as int) + seq![flags_of(p)]
}

/// Builds the payload that sets a preamp. Channels count from 0.
pub fn encode_set(channel: u8, preamp: DtPreamp) -> (r: Vec<u8>)
    ensures
        r@ == set_payload(channel, preamp),
{
    let mut out: Vec<u8> = Vec::new();
    out.push(msg_type::SET_MIC_PRE);
    out.push(channel);
    push_u16(&mut out, preamp.gain);
    out.push(preamp.flags_byte());
    assert(out@ =~= set_payload(channel, preamp));
    out
}

/// Builds the payload that asks for the status of all preamps.
pub fn encode_poll() -> (r: Vec<u8>)
    ensures
        r@ == seq![msg_type::STATUS_FULL],
{
    let mut out: Vec<u8> = Vec::new();
    out.push(msg_type::STATUS_FULL);
    assert(out@ =~= seq![msg_type::STATUS_FULL]);
    out
}

/// The preamps that a status tells of. A full one has a gain and flags for each; one of flags alone
/// leaves the gains unknown.
pub open spec fn status_in(payload: Seq<u8>) -> Result<Seq<DtPreamp>, DtDecodeError> {
    if payload.len() == 0 {
        Err(DtDecodeError::Truncated { need: 1, got: 0 })
    } else if payload[0] == msg_type::STATUS_FULL {
        if payload.len() < 49 {
            Err(DtDecodeError::Truncated { need: 49, got: payload.len() as usize })
        } else {
            Ok(
                Seq::new(
                    16,
                    |i: int|
                        preamp_of(
                            bytes::u16_at(payload, 1 + 3 * i) as u16,
                            payload[3 + 3 * i],
                        ),
                ),
            )
        }
    } else if payload[0] == msg_type::STATUS_FLAGS {
        if payload.len() < 17 {
            Err(DtDecodeError::Truncated { need: 17, got: payload.len() as usize })
        } else {
            Ok(Seq::new(16, |i: int| preamp_of(GAIN_REFERENCE, payload[1 + i])))
        }
    } else {
        Err(DtDecodeError::UnknownStatusSelector(payload[0]))
    }
}

/// Reads a status.
pub fn decode_status(payload: &[u8]) -> (r: Result<Vec<DtPreamp>, DtDecodeError>)
    ensures
        match r {
            Ok(v) => status_in(payload@) == Ok::<Seq<DtPreamp>, DtDecodeError>(v@),
            Err(e) => status_in(payload@) == Err::<Seq<DtPreamp>, DtDecodeError>(e),
        },
{
    let len: usize = payload.len();
    if len == 0 {
        return Err(DtDecodeError::Truncated { need: 1, got: 0 });
    }
    let selector: u8 = payload[0];
    let mut out: Vec<DtPreamp> = Vec::new();
    let mut i: usize = 0;
    if selector == msg_type::STATUS_FULL {
        if len < 1 + PREAMP_COUNT * 3 {
            return Err(DtDecodeError::Truncated { need: 1 + PREAMP_COUNT * 3, got: len });
        }
        while i < PREAMP_COUNT
            invariant
                i <= PREAMP_COUNT,
                payload@.len() >= 49,
                out@.len() == i,
                forall|j: int|
                    0 <= j < i ==> #[trigger] out@[j] == preamp_of(
                        bytes::u16_at(payload@, 1 + 3 * j) as u16,
                        payload@[3 + 3 * j],
                    ),
            decreases PREAMP_COUNT - i,
        {
            out.push(
                DtPreamp::from_flags(read_u16(payload, 1 + 3 * i), payload[3 + 3 * i]),
            );
            i = i + 1;
        }
        assert(status_in(payload@)->Ok_0 =~= out@);
        Ok(out)
    } else if selector == msg_type::STATUS_FLAGS {
        if len < 1 + PREAMP_COUNT {
            return Err(DtDecodeError::Truncated { need: 1 + PREAMP_COUNT, got: len });
        }
        while i < PREAMP_COUNT
            invariant
                i <= PREAMP_COUNT,
                payload@.len() >= 17,
                out@.len() == i,
                forall|j: int|
                    0 <= j < i ==> #[trigger] out@[j] == preamp_of(GAIN_REFERENCE, payload@[1 + j]),
            decreases PREAMP_COUNT - i,
        {
            out.push(DtPreamp::from_flags(GAIN_REFERENCE, payload[1 + i]));
            i = i + 1;
        }
        assert(status_in(payload@)->Ok_0 =~= out@);
        Ok(out)
    } else {
        Err(DtDecodeError::UnknownStatusSelector(selector))
    }
}

/// Reads a firmware version: three octets from the fifth on.
pub fn decode_firmware_version(payload: &[u8]) -> (r: Option<(u8, u8, u8)>)
    ensures
        r == (if payload@.len() < 7 {
            None
        } else {
            Some((payload@[4], payload@[5], payload@[6]))
        }),
{
    if payload.len() < 7 {
        return None;
    }
    Some((payload[4], payload[5], payload[6]))
}

/// A preamp's flags are read back as they were written.
pub proof fn flags_round_trip(p: DtPreamp)
    ensures
        preamp_of(p.gain, flags_of(p)) == p,
{
}

/// What is set on a preamp is, found in a full status, what is read of it.
pub proof fn a_setting_reads_back(payload: Seq<u8>, channel: u8, i: int, p: DtPreamp)
    requires
        payload.len() >= 49,
        payload[0] == msg_type::STATUS_FULL,
        0 <= i < 16,
        payload.subrange(1 + 3 * i, 4 + 3 * i) == set_payload(channel, p).skip(2),
    ensures
        status_in(payload) is Ok,
        status_in(payload)->Ok_0[i] == p,
{
    let part = payload.subrange(1 + 3 * i, 4 + 3 * i);
    let set = set_payload(channel, p);
    let gain = bytes::u16_bytes(p.gain as int);
    assert(set.skip(2) =~= gain + seq![flags_of(p)]);
    assert(part[0] == payload[1 + 3 * i]);
    assert(part[1] == payload[2 + 3 * i]);
    assert(part[2] == payload[3 + 3 * i]);
    assert(payload.subrange(1 + 3 * i, 1 + 3 * i + 2) =~= gain);
    bytes::u16_reads_back(payload, 1 + 3 * i, p.gain as int);
    flags_round_trip(p);
}

/// A full status is read preamp by preamp: two octets of gain, then the flags, of which the lowest is
/// the pad and the next phantom power. A status of flags alone gives every gain as the reference.
pub proof fn a_status_tells_of_every_preamp(payload: Seq<u8>, i: int)
    requires
        0 <= i < 16,
    ensures
        payload.len() >= 49 && payload[0] == 1 ==> {
            &&& status_in(payload) is Ok
            &&& status_in(payload)->Ok_0.len() == 16
            &&& status_in(payload)->Ok_0[i].gain == 0x100 * payload[1 + 3 * i] + payload[2 + 3 * i]
            &&& status_in(payload)->Ok_0[i].pad == (payload[3 + 3 * i] % 2 == 1)
            &&& status_in(payload)->Ok_0[i].phantom == (payload[3 + 3 * i] % 4 >= 2)
        },
        payload.len() >= 17 && payload[0] == 0 ==> {
            &&& status_in(payload) is Ok
            &&& status_in(payload)->Ok_0.len() == 16
            &&& status_in(payload)->Ok_0[i].gain == 0x8000
            &&& status_in(payload)->Ok_0[i].pad == (payload[1 + i] % 2 == 1)
            &&& status_in(payload)->Ok_0[i].phantom == (payload[1 + i] % 4 >= 2)
        },
        payload.len() > 0 && payload[0] > 1 ==> status_in(payload) == Err::<
            Seq<DtPreamp>,
            DtDecodeError,
        >(DtDecodeError::UnknownStatusSelector(payload[0])),
        payload.len() == 0 ==> status_in(payload) == Err::<Seq<DtPreamp>, DtDecodeError>(
            DtDecodeError::Truncated { need: 1, got: 0 },
        ),
        0 < payload.len() < 49 && payload[0] == 1 ==> status_in(payload) == Err::<
            Seq<DtPreamp>,
            DtDecodeError,
        >(DtDecodeError::Truncated { need: 49, got: payload.len() as usize }),
        0 < payload.len() < 17 && payload[0] == 0 ==> status_in(payload) == Err::<
            Seq<DtPreamp>,
            DtDecodeError,
        >(DtDecodeError::Truncated { need: 17, got: payload.len() as usize }),
{
}

/// What sets a preamp, and an envelope, octet by octet.
pub proof fn what_is_sent_are_these_octets(channel: u8, p: DtPreamp, f: FrameModel)
    requires
        f.device_id.len() == 8,
        f.vendor.len() == 8,
    ensures
        set_payload(channel, p) == seq![
            5u8, channel, (p.gain / 256) as u8, (p.gain % 256) as u8,
            if p.pad && p.phantom { 3u8 } else if p.phantom { 2u8 } else if p.pad { 1u8 } else { 0u8 },
        ],
        f.body.len() + 24 <= 0xffff ==> ({
            let n = f.body.len() as int + 24;
            enveloped(f) == seq![
                (f.magic / 256) as u8, (f.magic % 256) as u8, (n / 256) as u8, (n % 256) as u8,
                (f.seqnum / 256) as u8, (f.seqnum % 256) as u8, 0u8, 0u8,
            ] + f.device_id + f.vendor + f.body
        }),
        msg_type::STATUS_FULL == 1,
{
    if f.body.len() + 24 <= 0xffff {
        let n = f.body.len() as int + 24;
        assert(enveloped(f) =~= seq![
            (f.magic / 256) as u8, (f.magic % 256) as u8, (n / 256) as u8, (n % 256) as u8,
            (f.seqnum / 256) as u8, (f.seqnum % 256) as u8, 0u8, 0u8,
        ] + f.device_id + f.vendor + f.body);
    }
}

/// An envelope takes 24 octets: the first two tell the channel, the fifth and sixth the number in the
/// sequence, and two fields of eight octets the sender and the vendor. All that follows is the body.
pub proof fn an_envelope_is_these_octets(pkt: Seq<u8>)
    ensures
        frame_in(pkt) is Some <==> pkt.len() >= 24,
        pkt.len() >= 24 ==> {
            let f = frame_in(pkt)->Some_0;
            &&& f.magic == 0x100 * pkt[0] + pkt[1]
            &&& f.seqnum == 0x100 * pkt[4] + pkt[5]
            &&& f.device_id == pkt.subrange(8, 16)
            &&& f.vendor == pkt.subrange(16, 24)
            &&& f.body == pkt.skip(24)
        },
{
    bytes::numbers_are_big_endian(pkt, 0, 0);
    bytes::numbers_are_big_endian(pkt, 4, 0);
}

/// Each fault is told with what it carries: how many octets there are and how many it takes, or the
/// selector in two hexadecimal digits.
pub proof fn each_fault_is_told(need: usize, got: usize, selector: u8)
    ensures
        error_text(DtDecodeError::Truncated { need, got })
            == "DT status payload truncated: need "@ + text::decimal(need as nat) + " bytes, got "@
            + text::decimal(got as nat),
        ({
            let front = "DT status has unknown selector 0x"@;
            let said = error_text(DtDecodeError::UnknownStatusSelector(selector));
            &&& said.len() == front.len() + 2
            &&& said.take(front.len() as int) == front
            &&& text::hex_value(said.skip(front.len() as int)) == selector
        }),
{
    let front = "DT status has unknown selector 0x"@;
    let said = error_text(DtDecodeError::UnknownStatusSelector(selector));
    text::hex_spells_the_number(selector as nat, 2);
    assert(said.take(front.len() as int) =~= front);
    assert(said.skip(front.len() as int) =~= text::hex(selector as nat, 2));
}

} // verus!
