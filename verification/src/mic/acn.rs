//! ANSI E1.17 (ACN): walking blocks of PDUs, and reading the properties that receivers report in
//! them.
use vstd::prelude::*;

use crate::bytes;
use crate::bytes::{read_u16, read_u32, u16_to_i16, u32_to_i32, u8_to_i8};
use crate::text;
use crate::text::from_utf8_lossy;

verus! {

/// The source and the destination port of SDT sessions.
pub const SDT_PORT: u16 = 57383;

/// Where a console multicasts to.
pub const SDT_MULTICAST_GROUP: [u8; 4] = [239, 195, 234, 61];

pub const SDT_MULTICAST_PORT: u16 = 5568;

/// DMP rides inside SDT client blocks under this protocol id.
pub const PROTOCOL_DMP: u32 = 0x0000_0002;

pub const SDT_VECTOR_UNRELIABLE_WRAPPER: u8 = 2;

pub const SDT_VECTOR_RELIABLE_WRAPPER: u8 = 1;

pub const DMP_VECTOR_GET_PROPERTY_REPLY: u8 = 3;

pub const DMP_VECTOR_EVENT: u8 = 4;

pub const DMP_VECTOR_SET_PROPERTY: u8 = 2;

/// The address header of a single, absolute, non-virtual address of four octets: the only form
/// that these receivers use.
pub const ADDR_HEADER_4BYTE_ABSOLUTE: u8 = 0x02;

/// What a wrapper carries before its client blocks: channel, sequence numbers and the range of
/// members that are to acknowledge.
pub const WRAPPER_HEADER: usize = 20;

// ---------------------------------------------------------------------------
// Blocks of PDUs
// ---------------------------------------------------------------------------

/// One PDU of a block, its vector and its header resolved.
#[derive(Debug, Clone, PartialEq, Eq)]
pub struct Pdu<'a> {
    pub vector: &'a [u8],
    pub header: &'a [u8],
    pub data: &'a [u8],
}

/// A [`Pdu`], its parts as sequences.
#[verifier::ext_equal]
pub struct PduModel {
    pub vector: Seq<u8>,
    pub header: Seq<u8>,
    pub data: Seq<u8>,
}

impl<'a> View for Pdu<'a> {
    type V = PduModel;

    open spec fn view(&self) -> PduModel {
        PduModel { vector: self.vector@, header: self.header@, data: self.data@ }
    }
}

/// The models of a list of PDUs.
pub open spec fn pdu_models(v: Seq<Pdu>) -> Seq<PduModel> {
    v.map_values(|p: Pdu| p@)
}

/// Whether the length of the PDU at `at` is three octets wide.
pub open spec fn is_wide(buf: Seq<u8>, at: int) -> bool {
    buf[at] >= 0x80
}

/// The length that the PDU at `at` gives for itself, flags and length counted in.
pub open spec fn pdu_length(buf: Seq<u8>, at: int) -> int {
    if is_wide(buf, at) {
        (buf[at] % 16) * 65536 + buf[at + 1] * 256 + buf[at + 2]
    } else {
        (buf[at] % 16) * 256 + buf[at + 1]
    }
}

/// Whether a flag is set in the octet that begins a PDU. `weight` is 64 for the vector's, 32 for
/// the header's, 16 for the data's.
pub open spec fn has_flag(first: u8, weight: u8) -> bool {
    (first / weight) % 2 == 1
}

/// The PDU that begins at `at`, and its length; `None` where it is cut off. A vector, a header or
/// data that it leaves out is the previous PDU's.
pub open spec fn pdu_at(
    buf: Seq<u8>,
    vector_len: int,
    header_len: int,
    at: int,
    previous: PduModel,
) -> Option<(PduModel, int)> {
    let prefix = if at + 2 <= buf.len() && is_wide(buf, at) {
        3int
    } else {
        2int
    };
    let length = pdu_length(buf, at);
    if at + prefix > buf.len() || length < prefix || at + length > buf.len() {
        None
    } else {
        let body = buf.subrange(at + prefix, at + length);
        let vector_end = if has_flag(buf[at], 64) {
            vector_len
        } else {
            0
        };
        let header_end = vector_end + if has_flag(buf[at], 32) {
            header_len
        } else {
            0
        };
        if vector_end > body.len() || header_end > body.len() {
            None
        } else {
            Some(
                (
                    PduModel {
                        vector: if has_flag(buf[at], 64) {
                            body.take(vector_end)
                        } else {
                            previous.vector
                        },
                        header: if has_flag(buf[at], 32) {
                            body.subrange(vector_end, header_end)
                        } else {
                            previous.header
                        },
                        data: if has_flag(buf[at], 16) {
                            body.skip(header_end)
                        } else {
                            previous.data
                        },
                    },
                    length,
                ),
            )
        }
    }
}

/// A PDU without content: what the first PDU of a block inherits from.
pub open spec fn no_pdu() -> PduModel {
    PduModel { vector: seq![], header: seq![], data: seq![] }
}

/// The PDUs of a block from `at` on, up to the first that is cut off.
pub open spec fn pdus_from(
    buf: Seq<u8>,
    vector_len: int,
    header_len: int,
    at: int,
    previous: PduModel,
) -> Seq<PduModel>
    decreases buf.len() - at,
{
    match pdu_at(buf, vector_len, header_len, at, previous) {
        Some((pdu, length)) => if length > 0 {
            seq![pdu] + pdus_from(buf, vector_len, header_len, at + length, pdu)
        } else {
            seq![]
        },
        None => seq![],
    }
}

/// The PDUs of a block.
pub open spec fn pdus(buf: Seq<u8>, vector_len: int, header_len: int) -> Seq<PduModel> {
    pdus_from(buf, vector_len, header_len, 0, no_pdu())
}

fn next_pdu<'a>(
    buf: &'a [u8],
    vector_len: usize,
    header_len: usize,
    at: usize,
    last_vector: &'a [u8],
    last_header: &'a [u8],
    last_data: &'a [u8],
) -> (r: Option<(Pdu<'a>, usize)>)
    requires
        at <= buf@.len(),
    ensures
        match r {
            Some((pdu, length)) => pdu_at(
                buf@,
                vector_len as int,
                header_len as int,
                at as int,
                (PduModel { vector: last_vector@, header: last_header@, data: last_data@ }),
            ) == Some((pdu@, length as int)) && 2 <= length && at + length <= buf@.len(),
            None => pdu_at(
                buf@,
                vector_len as int,
                header_len as int,
                at as int,
                (PduModel { vector: last_vector@, header: last_header@, data: last_data@ }),
            ) is None,
        },
{
    let left: usize = buf.len() - at;
    if left < 2 {
        return None;
    }
    let first: u8 = buf[at];
    let wide: bool = first >= 0x80;
    if wide && left < 3 {
        return None;
    }
    let length: usize = if wide {
        (first % 16) as usize * 65536 + buf[at + 1] as usize * 256 + buf[at + 2] as usize
    } else {
        (first % 16) as usize * 256 + buf[at + 1] as usize
    };
    let prefix: usize = if wide {
        3
    } else {
        2
    };
    if length < prefix || length > left {
        return None;
    }
    let body = vstd::slice::slice_subrange(buf, at + prefix, at + length);
    let mut cursor: usize = 0;
    let vector: &'a [u8] = if (first / 64) % 2 == 1 {
        if vector_len > body.len() {
            return None;
        }
        cursor = vector_len;
        vstd::slice::slice_subrange(body, 0, vector_len)
    } else {
        last_vector
    };
    let vector_end: usize = cursor;
    let header: &'a [u8] = if (first / 32) % 2 == 1 {
        if header_len > body.len() - vector_end {
            return None;
        }
        cursor = vector_end + header_len;
        vstd::slice::slice_subrange(body, vector_end, cursor)
    } else {
        last_header
    };
    let data: &'a [u8] = if (first / 16) % 2 == 1 {
        vstd::slice::slice_subrange(body, cursor, body.len())
    } else {
        last_data
    };
    proof {
        assert(body@.subrange(0, vector_end as int) =~= body@.take(vector_end as int));
        assert(body@.subrange(cursor as int, body@.len() as int) =~= body@.skip(cursor as int));
    }
    Some((Pdu { vector, header, data }, length))
}

/// Walks a block of PDUs. The flags in the first four bits of a PDU say which of its parts are
/// there; what is not is inherited from the PDU before it. How long a vector and a header are is
/// fixed by the layer that the block belongs to.
pub fn walk_pdus<'a>(buf: &'a [u8], vector_len: usize, header_len: usize) -> (r: Vec<Pdu<'a>>)
    ensures
        pdu_models(r@) == pdus(buf@, vector_len as int, header_len as int),
{
    let mut out: Vec<Pdu<'a>> = Vec::new();
    let mut at: usize = 0;
    let nothing: &'a [u8] = vstd::slice::slice_subrange(buf, 0, 0);
    let mut last_vector: &'a [u8] = nothing;
    let mut last_header: &'a [u8] = nothing;
    let mut last_data: &'a [u8] = nothing;
    let ghost whole = pdus(buf@, vector_len as int, header_len as int);
    let ghost mut previous = no_pdu();
    assert(nothing@ =~= seq![]);
    assert(pdu_models(out@) + whole =~= whole);
    loop
        invariant
            at <= buf@.len(),
            previous == (PduModel {
                vector: last_vector@,
                header: last_header@,
                data: last_data@,
            }),
            whole == pdus(buf@, vector_len as int, header_len as int),
            pdu_models(out@) + pdus_from(
                buf@,
                vector_len as int,
                header_len as int,
                at as int,
                previous,
            ) == whole,
        decreases buf@.len() - at,
    {
        let ghost done = pdu_models(out@);
        match next_pdu(buf, vector_len, header_len, at, last_vector, last_header, last_data) {
            Some((pdu, length)) => {
                last_vector = pdu.vector;
                last_header = pdu.header;
                last_data = pdu.data;
                proof {
                    let rest = pdus_from(
                        buf@,
                        vector_len as int,
                        header_len as int,
                        at + length,
                        pdu@,
                    );
                    assert(done + (seq![pdu@] + rest) =~= done.push(pdu@) + rest);
                    previous = pdu@;
                }
                out.push(pdu);
                assert(pdu_models(out@) =~= done.push(previous));
                assert(buf@.len() == buf.len());
                at = at + length;
            },
            None => {
                assert(done + Seq::<PduModel>::empty() =~= done);
                return out;
            },
        }
    }
}

// ---------------------------------------------------------------------------
// Properties
// ---------------------------------------------------------------------------

/// A property's value. How wide it is the wire does not say; [`property_kind`] does.
#[derive(Debug, Clone, PartialEq, Eq)]
pub enum PropertyValue {
    Int8(i8),
    UInt8(u8),
    Int16(i16),
    UInt32(u32),
    Int32(i32),
    Text(String),
}

/// A [`PropertyValue`], its text as a sequence.
#[verifier::ext_equal]
pub enum ValueModel {
    Int8(i8),
    UInt8(u8),
    Int16(i16),
    UInt32(u32),
    Int32(i32),
    Text(Seq<char>),
}

impl View for PropertyValue {
    type V = ValueModel;

    open spec fn view(&self) -> ValueModel {
        match self {
            PropertyValue::Int8(n) => ValueModel::Int8(*n),
            PropertyValue::UInt8(n) => ValueModel::UInt8(*n),
            PropertyValue::Int16(n) => ValueModel::Int16(*n),
            PropertyValue::UInt32(n) => ValueModel::UInt32(*n),
            PropertyValue::Int32(n) => ValueModel::Int32(*n),
            PropertyValue::Text(t) => ValueModel::Text(t@),
        }
    }
}

/// How a property's value is laid out.
#[derive(Debug, Clone, Copy, PartialEq, Eq, Structural)]
pub enum PropertyKind {
    Int8,
    UInt8,
    Int16,
    UInt32,
    Int32,
    /// A length of two octets, which counts itself in, then the characters.
    Text,
}

pub const PROP_MODEL_NAME: u32 = 0x0100_0000;

pub const PROP_DEVICE_NAME: u32 = 0x0100_0012;

pub const PROP_CHANNEL_NAME: u32 = 0x0200_0001;

pub const PROP_AF_OUTPUT_LEVEL: u32 = 0x0200_0102;

pub const PROP_FREQUENCY_KHZ: u32 = 0x0200_0804;

pub const PROP_RF_LEVEL_DBM: u32 = 0x0200_0114;

pub const PROP_RF_BARS: u32 = 0x0200_0101;

pub const PROP_BATTERY_BARS: u32 = 0x0200_1100;

/// Unresolved. It drifts with no carrier at all, so it is no audio meter: it is decoded, never
/// interpreted, and has no unit.
pub const PROP_UNRESOLVED_LEVEL: u32 = 0x0200_0812;

/// Unresolved. An indicator from 0 to 2 that follows [`PROP_UNRESOLVED_LEVEL`].
pub const PROP_UNRESOLVED_INDICATOR: u32 = 0x0200_0815;

/// Subscribed to by consoles, never seen with a value other than -1.
pub const PROP_BATTERY_RUN_TIME: u32 = 0x0200_110a;

/// Like [`PROP_BATTERY_RUN_TIME`].
pub const PROP_BATTERY_CHARGE: u32 = 0x0200_1126;

pub const PROP_UNKNOWN_0104: u32 = 0x0200_0104;

/// Stands for "no recent data", which is not "no carrier": when a carrier drops, the last reading
/// holds, and this comes only after a longer dropout.
pub const NO_RECENT_DATA: i8 = -1;

/// The RF level that is reported while there is no carrier: a floor, no measurement.
pub const RF_FLOOR_DBM: i32 = -50;

/// How the value of a property is laid out, where that is known.
pub open spec fn kind_of(address: int) -> Option<PropertyKind> {
    if address == PROP_MODEL_NAME || address == PROP_DEVICE_NAME || address == PROP_CHANNEL_NAME {
        Some(PropertyKind::Text)
    } else if address == PROP_AF_OUTPUT_LEVEL || address == PROP_BATTERY_BARS || address
        == PROP_BATTERY_CHARGE {
        Some(PropertyKind::Int8)
    } else if address == PROP_RF_BARS || address == PROP_UNRESOLVED_INDICATOR || address
        == PROP_UNKNOWN_0104 {
        Some(PropertyKind::UInt8)
    } else if address == PROP_UNRESOLVED_LEVEL || address == PROP_BATTERY_RUN_TIME {
        Some(PropertyKind::Int16)
    } else if address == PROP_FREQUENCY_KHZ {
        Some(PropertyKind::UInt32)
    } else if address == PROP_RF_LEVEL_DBM {
        Some(PropertyKind::Int32)
    } else {
        None
    }
}

/// How the value of a property is laid out, where that is known.
pub fn property_kind(address: u32) -> (r: Option<PropertyKind>)
    ensures
        r == kind_of(address as int),
{
    if address == PROP_MODEL_NAME || address == PROP_DEVICE_NAME || address == PROP_CHANNEL_NAME {
        Some(PropertyKind::Text)
    } else if address == PROP_AF_OUTPUT_LEVEL || address == PROP_BATTERY_BARS || address
        == PROP_BATTERY_CHARGE {
        Some(PropertyKind::Int8)
    } else if address == PROP_RF_BARS || address == PROP_UNRESOLVED_INDICATOR || address
        == PROP_UNKNOWN_0104 {
        Some(PropertyKind::UInt8)
    } else if address == PROP_UNRESOLVED_LEVEL || address == PROP_BATTERY_RUN_TIME {
        Some(PropertyKind::Int16)
    } else if address == PROP_FREQUENCY_KHZ {
        Some(PropertyKind::UInt32)
    } else if address == PROP_RF_LEVEL_DBM {
        Some(PropertyKind::Int32)
    } else {
        None
    }
}

/// One property and its value.
#[derive(Debug, Clone, PartialEq, Eq)]
pub struct PropertyReport {
    pub address: u32,
    pub value: PropertyValue,
}

/// A [`PropertyReport`], its text as a sequence.
#[verifier::ext_equal]
pub struct ReportModel {
    pub address: u32,
    pub value: ValueModel,
}

impl View for PropertyReport {
    type V = ReportModel;

    open spec fn view(&self) -> ReportModel {
        ReportModel { address: self.address, value: self.value@ }
    }
}

/// The models of a list of reports.
pub open spec fn report_models(v: Seq<PropertyReport>) -> Seq<ReportModel> {
    v.map_values(|p: PropertyReport| p@)
}

/// The octets of a text value: those that its length counts, without the length itself.
pub open spec fn text_octets(raw: Seq<u8>) -> Option<Seq<u8>> {
    if raw.len() < 2 {
        None
    } else {
        let total = if bytes::u16_at(raw, 0) < 2 {
            2
        } else {
            bytes::u16_at(raw, 0)
        };
        if total > raw.len() {
            None
        } else {
            Some(raw.subrange(2, total))
        }
    }
}

/// The value that octets laid out as `kind` begin with; `None` where they are too few.
pub open spec fn value_of(kind: PropertyKind, raw: Seq<u8>) -> Option<ValueModel> {
    match kind {
        PropertyKind::Int8 => if raw.len() < 1 {
            None
        } else {
            Some(ValueModel::Int8(bytes::to_signed(raw[0] as int, 0x80) as i8))
        },
        PropertyKind::UInt8 => if raw.len() < 1 {
            None
        } else {
            Some(ValueModel::UInt8(raw[0]))
        },
        PropertyKind::Int16 => if raw.len() < 2 {
            None
        } else {
            Some(ValueModel::Int16(bytes::to_signed(bytes::u16_at(raw, 0), 0x8000) as i16))
        },
        PropertyKind::UInt32 => if raw.len() < 4 {
            None
        } else {
            Some(ValueModel::UInt32(bytes::u32_at(raw, 0) as u32))
        },
        PropertyKind::Int32 => if raw.len() < 4 {
            None
        } else {
            Some(ValueModel::Int32(bytes::to_signed(bytes::u32_at(raw, 0), 0x8000_0000) as i32))
        },
        PropertyKind::Text => match text_octets(raw) {
            None => None,
            Some(octets) => Some(ValueModel::Text(text::utf8_lossy(octets))),
        },
    }
}

/// The property that a DMP PDU carries. `None` for an address of unknown layout, and for a value
/// that is cut off.
pub open spec fn property_in(header: Seq<u8>, data: Seq<u8>) -> Option<ReportModel> {
    if header.len() == 0 || header[0] != ADDR_HEADER_4BYTE_ABSOLUTE || data.len() < 4 {
        None
    } else {
        let address = bytes::u32_at(data, 0);
        match kind_of(address) {
            None => None,
            Some(kind) => match value_of(kind, data.skip(4)) {
                None => None,
                Some(value) => Some(ReportModel { address: address as u32, value }),
            },
        }
    }
}

fn decode_value(kind: PropertyKind, raw: &[u8]) -> (r: Option<PropertyValue>)
    ensures
        match r {
            Some(v) => value_of(kind, raw@) == Some(v@),
            None => value_of(kind, raw@) is None,
        },
        r is Some && kind == PropertyKind::Text ==> text::read_faithfully(text_octets(raw@)->0),
{
    let len: usize = raw.len();
    match kind {
        PropertyKind::Int8 => {
            if len < 1 {
                return None;
            }
            Some(PropertyValue::Int8(u8_to_i8(raw[0])))
        },
        PropertyKind::UInt8 => {
            if len < 1 {
                return None;
            }
            Some(PropertyValue::UInt8(raw[0]))
        },
        PropertyKind::Int16 => {
            if len < 2 {
                return None;
            }
            Some(PropertyValue::Int16(u16_to_i16(read_u16(raw, 0))))
        },
        PropertyKind::UInt32 => {
            if len < 4 {
                return None;
            }
            Some(PropertyValue::UInt32(read_u32(raw, 0)))
        },
        PropertyKind::Int32 => {
            if len < 4 {
                return None;
            }
            Some(PropertyValue::Int32(u32_to_i32(read_u32(raw, 0))))
        },
        PropertyKind::Text => {
            if len < 2 {
                return None;
            }
            let given: u16 = read_u16(raw, 0);
            let total: usize = if given < 2 {
                2
            } else {
                given as usize
            };
            if total > len {
                return None;
            }
            Some(PropertyValue::Text(from_utf8_lossy(vstd::slice::slice_subrange(raw, 2, total))))
        },
    }
}

/// Decodes the property that a DMP PDU carries. An address of unknown layout gives `None`, and so
/// does a value that is cut off: nothing is guessed.
pub fn decode_property(header: &[u8], data: &[u8]) -> (r: Option<PropertyReport>)
    ensures
        match r {
            Some(p) => property_in(header@, data@) == Some(p@),
            None => property_in(header@, data@) is None,
        },
        r is Some && kind_of(r->Some_0.address as int) == Some(PropertyKind::Text)
            ==> text::read_faithfully(text_octets(data@.skip(4))->0),
{
    if header.len() == 0 || header[0] != ADDR_HEADER_4BYTE_ABSOLUTE || data.len() < 4 {
        return None;
    }
    let address: u32 = read_u32(data, 0);
    let kind = match property_kind(address) {
        Some(kind) => kind,
        None => {
            return None;
        },
    };
    let raw = vstd::slice::slice_subrange(data, 4, data.len());
    assert(raw@ =~= data@.skip(4));
    match decode_value(kind, raw) {
        Some(value) => Some(PropertyReport { address, value }),
        None => None,
    }
}

// ---------------------------------------------------------------------------
// Datagrams
// ---------------------------------------------------------------------------

/// What a datagram begins with.
pub open spec fn preamble() -> Seq<u8> {
    seq![
        0x00u8,
        0x10,
        0x00,
        0x00,
        0x41,
        0x53,
        0x43,
        0x2d,
        0x45,
        0x31,
        0x2e,
        0x31,
        0x37,
        0x00,
        0x00,
        0x00,
    ]
}

/// Whether a DMP message reports properties.
pub open spec fn reports_properties(vector: u8) -> bool {
    vector == DMP_VECTOR_EVENT || vector == DMP_VECTOR_GET_PROPERTY_REPLY || vector
        == DMP_VECTOR_SET_PROPERTY
}

/// What the DMP PDU `p` reports.
pub open spec fn dmp_report(p: PduModel) -> Seq<ReportModel> {
    if p.vector.len() > 0 && reports_properties(p.vector[0]) {
        match property_in(p.header, p.data) {
            Some(report) => seq![report],
            None => seq![],
        }
    } else {
        seq![]
    }
}

/// What a list of DMP PDUs reports.
pub open spec fn dmp_reports(ps: Seq<PduModel>) -> Seq<ReportModel>
    decreases ps.len(),
{
    if ps.len() == 0 {
        seq![]
    } else {
        dmp_reports(ps.drop_last()) + dmp_report(ps.last())
    }
}

/// What a client block reports, if it is one of DMP.
pub open spec fn block_report(p: PduModel) -> Seq<ReportModel> {
    if p.header.len() >= 4 && bytes::u32_at(p.header, 0) == PROTOCOL_DMP {
        dmp_reports(pdus(p.data, 1, 1))
    } else {
        seq![]
    }
}

/// What a list of client blocks reports.
pub open spec fn block_reports(ps: Seq<PduModel>) -> Seq<ReportModel>
    decreases ps.len(),
{
    if ps.len() == 0 {
        seq![]
    } else {
        block_reports(ps.drop_last()) + block_report(ps.last())
    }
}

/// What an SDT PDU reports, if it is a wrapper.
pub open spec fn sdt_report(p: PduModel) -> Seq<ReportModel> {
    if p.vector.len() > 0 && (p.vector[0] == SDT_VECTOR_UNRELIABLE_WRAPPER || p.vector[0]
        == SDT_VECTOR_RELIABLE_WRAPPER) && p.data.len() >= WRAPPER_HEADER {
        block_reports(pdus(p.data.skip(WRAPPER_HEADER as int), 2, 6))
    } else {
        seq![]
    }
}

/// What a list of SDT PDUs reports.
pub open spec fn sdt_reports(ps: Seq<PduModel>) -> Seq<ReportModel>
    decreases ps.len(),
{
    if ps.len() == 0 {
        seq![]
    } else {
        sdt_reports(ps.drop_last()) + sdt_report(ps.last())
    }
}

/// What a list of root PDUs reports.
pub open spec fn root_reports(ps: Seq<PduModel>) -> Seq<ReportModel>
    decreases ps.len(),
{
    if ps.len() == 0 {
        seq![]
    } else {
        root_reports(ps.drop_last()) + sdt_reports(pdus(ps.last().data, 1, 0))
    }
}

/// What a datagram reports.
pub open spec fn datagram_reports(datagram: Seq<u8>) -> Seq<ReportModel> {
    if datagram.len() >= 16 && datagram.take(16) == preamble() {
        root_reports(pdus(datagram.skip(16), 4, 16))
    } else {
        seq![]
    }
}

fn read_dmp(data: &[u8], out: &mut Vec<PropertyReport>)
    ensures
        report_models(final(out)@) == report_models(old(out)@) + dmp_reports(pdus(data@, 1, 1)),
{
    let list = walk_pdus(data, 1, 1);
    let ghost all = pdu_models(list@);
    let ghost start = report_models(out@);
    let mut i: usize = 0;
    assert(all.take(0) =~= seq![]);
    assert(start + dmp_reports(all.take(0)) =~= start);
    while i < list.len()
        invariant
            i <= list.len(),
            all == pdu_models(list@),
            report_models(out@) == start + dmp_reports(all.take(i as int)),
        decreases list.len() - i,
    {
        let p = &list[i];
        let ghost before = report_models(out@);
        assert(all.take(i + 1).drop_last() =~= all.take(i as int));
        assert(all.take(i + 1).last() == p@);
        if p.vector.len() > 0 {
            let vector: u8 = p.vector[0];
            if vector == DMP_VECTOR_EVENT || vector == DMP_VECTOR_GET_PROPERTY_REPLY || vector
                == DMP_VECTOR_SET_PROPERTY {
                if let Some(report) = decode_property(p.header, p.data) {
                    out.push(report);
                    assert(report_models(out@) =~= before + seq![report@]);
                }
            }
        }
        assert(report_models(out@) =~= before + dmp_report(p@));
        assert(before + dmp_report(p@) =~= start + (dmp_reports(all.take(i as int)) + dmp_report(
            p@,
        )));
        i = i + 1;
    }
    assert(all.take(i as int) =~= all);
}

fn read_blocks(data: &[u8], out: &mut Vec<PropertyReport>)
    ensures
        report_models(final(out)@) == report_models(old(out)@) + block_reports(pdus(data@, 2, 6)),
{
    let list = walk_pdus(data, 2, 6);
    let ghost all = pdu_models(list@);
    let ghost start = report_models(out@);
    let mut i: usize = 0;
    assert(all.take(0) =~= seq![]);
    assert(start + block_reports(all.take(0)) =~= start);
    while i < list.len()
        invariant
            i <= list.len(),
            all == pdu_models(list@),
            report_models(out@) == start + block_reports(all.take(i as int)),
        decreases list.len() - i,
    {
        let p = &list[i];
        let ghost before = report_models(out@);
        assert(all.take(i + 1).drop_last() =~= all.take(i as int));
        assert(all.take(i + 1).last() == p@);
        if p.header.len() >= 4 && read_u32(p.header, 0) == PROTOCOL_DMP {
            read_dmp(p.data, out);
        }
        assert(report_models(out@) =~= before + block_report(p@));
        assert(before + block_report(p@) =~= start + (block_reports(all.take(i as int))
            + block_report(p@)));
        i = i + 1;
    }
    assert(all.take(i as int) =~= all);
}

fn read_sdt(data: &[u8], out: &mut Vec<PropertyReport>)
    ensures
        report_models(final(out)@) == report_models(old(out)@) + sdt_reports(pdus(data@, 1, 0)),
{
    let list = walk_pdus(data, 1, 0);
    let ghost all = pdu_models(list@);
    let ghost start = report_models(out@);
    let mut i: usize = 0;
    assert(all.take(0) =~= seq![]);
    assert(start + sdt_reports(all.take(0)) =~= start);
    while i < list.len()
        invariant
            i <= list.len(),
            all == pdu_models(list@),
            report_models(out@) == start + sdt_reports(all.take(i as int)),
        decreases list.len() - i,
    {
        let p = &list[i];
        let ghost before = report_models(out@);
        assert(all.take(i + 1).drop_last() =~= all.take(i as int));
        assert(all.take(i + 1).last() == p@);
        if p.vector.len() > 0 {
            let vector: u8 = p.vector[0];
            if (vector == SDT_VECTOR_UNRELIABLE_WRAPPER || vector == SDT_VECTOR_RELIABLE_WRAPPER)
                && p.data.len() >= WRAPPER_HEADER {
                let blocks = vstd::slice::slice_subrange(p.data, WRAPPER_HEADER, p.data.len());
                assert(blocks@ =~= p@.data.skip(WRAPPER_HEADER as int));
                read_blocks(blocks, out);
            }
        }
        assert(report_models(out@) =~= before + sdt_report(p@));
        assert(before + sdt_report(p@) =~= start + (sdt_reports(all.take(i as int)) + sdt_report(
            p@,
        )));
        i = i + 1;
    }
    assert(all.take(i as int) =~= all);
}

fn has_preamble(datagram: &[u8]) -> (r: bool)
    ensures
        r == (datagram@.len() >= 16 && datagram@.take(16) == preamble()),
{
    let expected: [u8; 16] = [
        0x00,
        0x10,
        0x00,
        0x00,
        0x41,
        0x53,
        0x43,
        0x2d,
        0x45,
        0x31,
        0x2e,
        0x31,
        0x37,
        0x00,
        0x00,
        0x00,
    ];
    assert(expected@ =~= preamble());
    if datagram.len() < 16 {
        return false;
    }
    let mut i: usize = 0;
    while i < 16
        invariant
            i <= 16,
            datagram@.len() >= 16,
            expected@ == preamble(),
            forall|j: int| 0 <= j < i ==> #[trigger] datagram@[j] == preamble()[j],
        decreases 16 - i,
    {
        if datagram[i] != expected[i] {
            assert(datagram@.take(16)[i as int] != preamble()[i as int]);
            return false;
        }
        i = i + 1;
    }
    assert(datagram@.take(16) =~= preamble());
    true
}

/// Pulls the property reports out of a datagram. Whatever is not a DMP client block with an event,
/// a reply or a setting is passed over.
pub fn properties_in_datagram(datagram: &[u8]) -> (r: Vec<PropertyReport>)
    ensures
        report_models(r@) == datagram_reports(datagram@),
{
    let mut out: Vec<PropertyReport> = Vec::new();
    assert(report_models(out@) =~= seq![]);
    if !has_preamble(datagram) {
        return out;
    }
    let rest = vstd::slice::slice_subrange(datagram, 16, datagram.len());
    assert(rest@ =~= datagram@.skip(16));
    let list = walk_pdus(rest, 4, 16);
    let ghost all = pdu_models(list@);
    let mut i: usize = 0;
    assert(all.take(0) =~= seq![]);
    while i < list.len()
        invariant
            i <= list.len(),
            all == pdu_models(list@),
            report_models(out@) == root_reports(all.take(i as int)),
        decreases list.len() - i,
    {
        let p = &list[i];
        assert(all.take(i + 1).drop_last() =~= all.take(i as int));
        assert(all.take(i + 1).last() == p@);
        read_sdt(p.data, &mut out);
        i = i + 1;
    }
    assert(all.take(i as int) =~= all);
    out
}

// ---------------------------------------------------------------------------
// Laws
// ---------------------------------------------------------------------------

/// A number is read from the octets of its width, the highest first, whatever follows; a negative one
/// in two's complement. With fewer octets nothing is read.
pub proof fn every_number_reads_back(
    a: u8,
    b: u8,
    c: u8,
    d: u8,
    small: i8,
    short: i16,
    count: u32,
    number: i32,
    rest: Seq<u8>,
)
    ensures
        value_of(PropertyKind::UInt8, seq![a] + rest) == Some(ValueModel::UInt8(a)),
        a == small || a == small + 0x100 ==> value_of(PropertyKind::Int8, seq![a] + rest) == Some(
            ValueModel::Int8(small),
        ),
        0x100 * a + b == short || 0x100 * a + b == short + 0x1_0000 ==> value_of(
            PropertyKind::Int16,
            seq![a, b] + rest,
        ) == Some(ValueModel::Int16(short)),
        0x100_0000 * a + 0x1_0000 * b + 0x100 * c + d == count ==> value_of(
            PropertyKind::UInt32,
            seq![a, b, c, d] + rest,
        ) == Some(ValueModel::UInt32(count)),
        0x100_0000 * a + 0x1_0000 * b + 0x100 * c + d == number || 0x100_0000 * a + 0x1_0000 * b
            + 0x100 * c + d == number + 0x1_0000_0000 ==> value_of(
            PropertyKind::Int32,
            seq![a, b, c, d] + rest,
        ) == Some(ValueModel::Int32(number)),
        rest.len() < 1 ==> value_of(PropertyKind::UInt8, rest) is None && value_of(
            PropertyKind::Int8,
            rest,
        ) is None,
        rest.len() < 2 ==> value_of(PropertyKind::Int16, rest) is None && value_of(
            PropertyKind::Text,
            rest,
        ) is None,
        rest.len() < 4 ==> value_of(PropertyKind::UInt32, rest) is None && value_of(
            PropertyKind::Int32,
            rest,
        ) is None,
{
    let one = seq![a] + rest;
    let two = seq![a, b] + rest;
    let four = seq![a, b, c, d] + rest;
    assert(one[0] == a);
    assert(two[0] == a && two[1] == b);
    assert(four[0] == a && four[1] == b && four[2] == c && four[3] == d);
    bytes::numbers_are_big_endian(two, 0, 0);
    bytes::numbers_are_big_endian(four, 0, 0);
}

/// A text is what its length counts, the two octets of the length counted in, whatever follows. With
/// fewer octets than that nothing is read.
pub proof fn every_text_reads_back(a: u8, b: u8, octets: Seq<u8>, rest: Seq<u8>)
    ensures
        0x100 * a + b == octets.len() + 2 ==> value_of(
            PropertyKind::Text,
            seq![a, b] + octets + rest,
        ) == Some(ValueModel::Text(text::utf8_lossy(octets))),
        0x100 * a + b > octets.len() + 2 ==> value_of(PropertyKind::Text, seq![a, b] + octets)
            is None,
        0x100 * a + b < 2 ==> value_of(PropertyKind::Text, seq![a, b] + rest) == Some(
            ValueModel::Text(text::utf8_lossy(seq![])),
        ),
{
    let s = seq![a, b] + octets + rest;
    let t = seq![a, b] + octets;
    let u = seq![a, b] + rest;
    assert(s[0] == a && s[1] == b && t[0] == a && t[1] == b && u[0] == a && u[1] == b);
    assert(u.subrange(2, 2) =~= seq![]);
    if 0x100 * a + b == octets.len() + 2 {
        assert(s.subrange(2, (octets.len() + 2) as int) =~= octets);
    }
}

/// The properties whose layout is known, and their layouts.
pub proof fn each_property_has_its_layout(address: int)
    ensures
        kind_of(address) == Some(PropertyKind::Text) <==> address == 0x0100_0000 || address
            == 0x0100_0012 || address == 0x0200_0001,
        kind_of(address) == Some(PropertyKind::Int8) <==> address == 0x0200_0102 || address
            == 0x0200_1100 || address == 0x0200_1126,
        kind_of(address) == Some(PropertyKind::UInt8) <==> address == 0x0200_0101 || address
            == 0x0200_0815 || address == 0x0200_0104,
        kind_of(address) == Some(PropertyKind::Int16) <==> address == 0x0200_0812 || address
            == 0x0200_110a,
        kind_of(address) == Some(PropertyKind::UInt32) <==> address == 0x0200_0804,
        kind_of(address) == Some(PropertyKind::Int32) <==> address == 0x0200_0114,
{
}

/// The parts that a PDU on the wire has of its own, and whether its length is three octets wide.
pub struct PduParts {
    pub vector: Option<Seq<u8>>,
    pub header: Option<Seq<u8>>,
    pub data: Option<Seq<u8>>,
    pub wide: bool,
}

/// The octets of a part, none where it is not there.
pub open spec fn or_nothing(part: Option<Seq<u8>>) -> Seq<u8> {
    match part {
        Some(octets) => octets,
        None => seq![],
    }
}

impl PduParts {
    /// The octets of the parts that are there, one behind the other.
    pub open spec fn body(self) -> Seq<u8> {
        or_nothing(self.vector) + or_nothing(self.header) + or_nothing(self.data)
    }

    /// The PDU on the wire: the flags and the length, then the parts that are there.
    pub open spec fn octets(self) -> Seq<u8> {
        let flags = (if self.vector is Some {
            0x40int
        } else {
            0
        }) + (if self.header is Some {
            0x20int
        } else {
            0
        }) + (if self.data is Some {
            0x10int
        } else {
            0
        });
        if self.wide {
            let n = (self.body().len() + 3) as int;
            seq![(0x80 + flags + n / 0x1_0000) as u8, ((n / 0x100) % 0x100) as u8, (n % 0x100) as u8]
                + self.body()
        } else {
            let n = (self.body().len() + 2) as int;
            seq![(flags + n / 0x100) as u8, (n % 0x100) as u8] + self.body()
        }
    }

    /// Whether a block whose vectors and headers have the given lengths can hold the PDU.
    pub open spec fn fits(self, vector_len: int, header_len: int) -> bool {
        &&& self.vector is Some ==> self.vector->Some_0.len() == vector_len
        &&& self.header is Some ==> self.header->Some_0.len() == header_len
        &&& if self.wide {
            self.body().len() + 3 < 0x10_0000
        } else {
            self.body().len() + 2 < 0x1000
        }
    }
}

proof fn lemma_first_octet(first: int, wide: int, vector: int, header: int, data: int, high: int)
    requires
        0 <= wide <= 1,
        0 <= vector <= 1,
        0 <= header <= 1,
        0 <= data <= 1,
        0 <= high < 16,
        first == 0x80 * wide + 0x40 * vector + 0x20 * header + 0x10 * data + high,
    ensures
        0 <= first < 0x100,
        first >= 0x80 <==> wide == 1,
        first % 16 == high,
        (first / 64) % 2 == vector,
        (first / 32) % 2 == header,
        (first / 16) % 2 == data,
{
}

/// What the first octets of a PDU say of it.
proof fn lemma_pdu_start(p: PduParts)
    requires
        if p.wide {
            p.body().len() + 3 < 0x10_0000
        } else {
            p.body().len() + 2 < 0x1000
        },
    ensures
        ({
            let own = p.octets();
            &&& own[0] >= 0x80 <==> p.wide
            &&& own.len() == if p.wide {
                (own[0] % 16) * 65536 + own[1] * 256 + own[2]
            } else {
                (own[0] % 16) * 256 + own[1]
            }
            &&& (own[0] / 64) % 2 == 1 <==> p.vector is Some
            &&& (own[0] / 32) % 2 == 1 <==> p.header is Some
            &&& (own[0] / 16) % 2 == 1 <==> p.data is Some
        }),
{
    let own = p.octets();
    let n = own.len() as int;
    let w = if p.wide {
        1int
    } else {
        0
    };
    let v = if p.vector is Some {
        1int
    } else {
        0
    };
    let h = if p.header is Some {
        1int
    } else {
        0
    };
    let d = if p.data is Some {
        1int
    } else {
        0
    };
    let high = if p.wide {
        n / 0x1_0000
    } else {
        n / 0x100
    };
    let first = 0x80 * w + 0x40 * v + 0x20 * h + 0x10 * d + high;
    lemma_first_octet(first, w, v, h, d, high);
    assert(own[0] == first);
    assert((n / 0x1_0000) * 65536 + ((n / 0x100) % 0x100) * 256 + n % 0x100 == n);
}

/// A PDU is read for its own parts, and for the previous PDU's where it has none, wherever it stands.
pub proof fn a_pdu_reads_back(
    before: Seq<u8>,
    p: PduParts,
    rest: Seq<u8>,
    vector_len: int,
    header_len: int,
    previous: PduModel,
)
    requires
        p.fits(vector_len, header_len),
        0 <= vector_len,
        0 <= header_len,
    ensures
        ({
            let got = pdu_at(
                before + p.octets() + rest,
                vector_len,
                header_len,
                before.len() as int,
                previous,
            );
            &&& got is Some
            &&& got->Some_0.1 == p.octets().len()
            &&& got->Some_0.0.vector == (match p.vector {
                Some(octets) => octets,
                None => previous.vector,
            })
            &&& got->Some_0.0.header == (match p.header {
                Some(octets) => octets,
                None => previous.header,
            })
            &&& got->Some_0.0.data == (match p.data {
                Some(octets) => octets,
                None => previous.data,
            })
        }),
{
    let own = p.octets();
    let buf = before + own + rest;
    let at = before.len() as int;
    let body = p.body();
    let prefix = if p.wide {
        3int
    } else {
        2int
    };
    let n = own.len() as int;
    assert(n == prefix + body.len());
    assert(buf[at] == own[0] && buf[at + 1] == own[1]);
    lemma_pdu_start(p);
    assert(p.wide ==> buf[at + 2] == own[2]);
    assert(is_wide(buf, at) == p.wide);
    assert(pdu_length(buf, at) == n);
    assert(has_flag(buf[at], 64) == p.vector is Some);
    assert(has_flag(buf[at], 32) == p.header is Some);
    assert(has_flag(buf[at], 16) == p.data is Some);
    assert(buf.subrange(at + prefix, at + n) =~= body);
    let vector = or_nothing(p.vector);
    let header = or_nothing(p.header);
    let data = or_nothing(p.data);
    assert(body.take(vector.len() as int) =~= vector);
    assert(body.subrange(vector.len() as int, (vector.len() + header.len()) as int) =~= header);
    assert(body.skip((vector.len() + header.len()) as int) =~= data);
}

/// The octets of a block: its PDUs, one behind the other.
pub open spec fn block_octets(parts: Seq<PduParts>) -> Seq<u8>
    decreases parts.len(),
{
    if parts.len() == 0 {
        seq![]
    } else {
        parts[0].octets() + block_octets(parts.skip(1))
    }
}

spec fn before_it(list: Seq<PduModel>, k: int, first: PduModel) -> PduModel {
    if k == 0 {
        first
    } else {
        list[k - 1]
    }
}

proof fn lemma_block(
    before: Seq<u8>,
    parts: Seq<PduParts>,
    vector_len: int,
    header_len: int,
    previous: PduModel,
)
    requires
        0 <= vector_len,
        0 <= header_len,
        forall|k: int|
            0 <= k < parts.len() ==> (#[trigger] parts[k]).fits(vector_len, header_len),
    ensures
        ({
            let got = pdus_from(
                before + block_octets(parts),
                vector_len,
                header_len,
                before.len() as int,
                previous,
            );
            &&& got.len() == parts.len()
            &&& forall|k: int|
                0 <= k < parts.len() ==> is_resolved(
                    #[trigger] got[k],
                    parts[k],
                    before_it(got, k, previous),
                )
        }),
    decreases parts.len(),
{
    let at = before.len() as int;
    let buf = before + block_octets(parts);
    if parts.len() == 0 {
        assert(pdu_at(buf, vector_len, header_len, at, previous) is None);
    } else {
        let p = parts[0];
        let tail = parts.skip(1);
        let rest = block_octets(tail);
        assert(p.fits(vector_len, header_len));
        assert(buf =~= before + p.octets() + rest);
        a_pdu_reads_back(before, p, rest, vector_len, header_len, previous);
        let next = pdu_at(buf, vector_len, header_len, at, previous)->Some_0.0;
        assert forall|k: int| 0 <= k < tail.len() implies (#[trigger] tail[k]).fits(
            vector_len,
            header_len,
        ) by {
            assert(tail[k] == parts[k + 1]);
        }
        let front = before + p.octets();
        assert(front + rest =~= buf);
        lemma_block(front, tail, vector_len, header_len, next);
        let more = pdus_from(buf, vector_len, header_len, at + p.octets().len(), next);
        let got = pdus_from(buf, vector_len, header_len, at, previous);
        assert(p.octets().len() > 0);
        assert(got =~= seq![next] + more);
        assert forall|k: int| 0 <= k < parts.len() implies is_resolved(
            #[trigger] got[k],
            parts[k],
            before_it(got, k, previous),
        ) by {
            if k > 0 {
                assert(is_resolved(more[k - 1], tail[k - 1], before_it(more, k - 1, next)));
            }
        }
    }
}

/// Whether `got` has the parts of `p`, and those of `previous` where `p` has none.
pub open spec fn is_resolved(got: PduModel, p: PduParts, previous: PduModel) -> bool {
    &&& got.vector == (if p.vector is Some {
        p.vector->Some_0
    } else {
        previous.vector
    })
    &&& got.header == (if p.header is Some {
        p.header->Some_0
    } else {
        previous.header
    })
    &&& got.data == (if p.data is Some {
        p.data->Some_0
    } else {
        previous.data
    })
}

/// A block is read for all its PDUs, in order, each with the parts that it has and otherwise with those
/// of the one before it.
pub proof fn a_block_reads_back(parts: Seq<PduParts>, vector_len: int, header_len: int, k: int)
    requires
        0 <= vector_len,
        0 <= header_len,
        forall|j: int|
            0 <= j < parts.len() ==> (#[trigger] parts[j]).fits(vector_len, header_len),
    ensures
        pdus(block_octets(parts), vector_len, header_len).len() == parts.len(),
        0 < k < parts.len() ==> is_resolved(
            pdus(block_octets(parts), vector_len, header_len)[k],
            parts[k],
            pdus(block_octets(parts), vector_len, header_len)[k - 1],
        ),
        parts.len() > 0 ==> is_resolved(
            pdus(block_octets(parts), vector_len, header_len)[0],
            parts[0],
            PduModel { vector: seq![], header: seq![], data: seq![] },
        ),
{
    let none = Seq::<u8>::empty();
    lemma_block(none, parts, vector_len, header_len, no_pdu());
    assert(none + block_octets(parts) =~= block_octets(parts));
    let got = pdus(block_octets(parts), vector_len, header_len);
    if parts.len() > 0 {
        assert(is_resolved(got[0], parts[0], before_it(got, 0, no_pdu())));
    }
    if 0 < k < parts.len() {
        assert(is_resolved(got[k], parts[k], before_it(got, k, no_pdu())));
    }
}

/// A block that is a single PDU with all its parts.
proof fn lemma_lone_pdu(p: PduParts, vector_len: int, header_len: int)
    requires
        0 <= vector_len,
        0 <= header_len,
        p.fits(vector_len, header_len),
        p.vector is Some,
        p.data is Some,
        p.header is Some,
    ensures
        pdus(p.octets(), vector_len, header_len) == seq![
            PduModel {
                vector: p.vector->Some_0,
                header: p.header->Some_0,
                data: p.data->Some_0,
            },
        ],
{
    let parts = seq![p];
    assert(parts.skip(1) =~= seq![]);
    reveal_with_fuel(block_octets, 2);
    assert(block_octets(parts) =~= p.octets());
    a_block_reads_back(parts, vector_len, header_len, 0);
}

/// What a DMP PDU reports: of a reply, an event or a setting with an address of four octets, the
/// property at that address with the value behind it. Of any other message, of an address whose
/// layout is unknown and of a value that is cut off, nothing.
pub proof fn a_property_message_reports_its_property(
    vector: u8,
    header: u8,
    address: u32,
    raw: Seq<u8>,
    kind: PropertyKind,
)
    ensures
        ({
            let p = PduModel {
                vector: seq![vector],
                header: seq![header],
                data: bytes::u32_bytes(address as int) + raw,
            };
            &&& (vector == 2 || vector == 3 || vector == 4) && header == 2 && kind_of(
                address as int,
            ) == Some(kind) && value_of(kind, raw) is Some ==> dmp_report(p) == seq![
                ReportModel { address, value: value_of(kind, raw)->Some_0 },
            ]
            &&& (vector != 2 && vector != 3 && vector != 4 || header != 2 || kind_of(
                address as int,
            ) is None || kind_of(address as int) == Some(kind) && value_of(kind, raw) is None)
                ==> dmp_report(p) == Seq::<ReportModel>::empty()
        }),
{
    let data = bytes::u32_bytes(address as int) + raw;
    assert(data.subrange(0, 4) =~= bytes::u32_bytes(address as int));
    bytes::u32_reads_back(data, 0, address as int);
    assert(data.skip(4) =~= raw);
}

/// Each layer passes on what every one of its PDUs reports, in order.
pub proof fn reports_add_up(first: Seq<PduModel>, second: Seq<PduModel>, p: PduModel)
    ensures
        dmp_reports(first + second) == dmp_reports(first) + dmp_reports(second),
        block_reports(first + second) == block_reports(first) + block_reports(second),
        sdt_reports(first + second) == sdt_reports(first) + sdt_reports(second),
        root_reports(first + second) == root_reports(first) + root_reports(second),
        dmp_reports(seq![p]) == dmp_report(p),
        block_reports(seq![p]) == block_report(p),
        sdt_reports(seq![p]) == sdt_report(p),
        root_reports(seq![p]) == sdt_reports(pdus(p.data, 1, 0)),
    decreases second.len(),
{
    assert(seq![p].drop_last() =~= Seq::<PduModel>::empty());
    reveal_with_fuel(dmp_reports, 2);
    reveal_with_fuel(block_reports, 2);
    reveal_with_fuel(sdt_reports, 2);
    reveal_with_fuel(root_reports, 2);
    assert(dmp_reports(seq![p]) =~= dmp_report(p));
    assert(block_reports(seq![p]) =~= block_report(p));
    assert(sdt_reports(seq![p]) =~= sdt_report(p));
    assert(root_reports(seq![p]) =~= sdt_reports(pdus(p.data, 1, 0)));
    if second.len() == 0 {
        assert(first + second =~= first);
        assert(dmp_reports(first) + dmp_reports(second) =~= dmp_reports(first));
        assert(block_reports(first) + block_reports(second) =~= block_reports(first));
        assert(sdt_reports(first) + sdt_reports(second) =~= sdt_reports(first));
        assert(root_reports(first) + root_reports(second) =~= root_reports(first));
    } else {
        let less = second.drop_last();
        assert((first + second).drop_last() =~= first + less);
        assert((first + second).last() == second.last());
        reports_add_up(first, less, p);
        assert(dmp_reports(first + second) =~= dmp_reports(first) + dmp_reports(second));
        assert(block_reports(first + second) =~= block_reports(first) + block_reports(second));
        assert(sdt_reports(first + second) =~= sdt_reports(first) + sdt_reports(second));
        assert(root_reports(first + second) =~= root_reports(first) + root_reports(second));
    }
}

/// A wrapper that is reliable or unreliable reports what the client blocks behind its twenty octets of
/// sequencing report; a client block what its DMP messages report, if its protocol is DMP. A datagram
/// that does not begin with the ACN preamble reports nothing.
pub proof fn only_wrapped_property_messages_count(
    vector: u8,
    sequencing: Seq<u8>,
    blocks: Seq<u8>,
    header: Seq<u8>,
    protocol: u32,
    vector2: Seq<u8>,
    data: Seq<u8>,
    datagram: Seq<u8>,
)
    requires
        sequencing.len() == 20,
    ensures
        ({
            let wrapper = PduModel { vector: seq![vector], header, data: sequencing + blocks };
            if vector == 1 || vector == 2 {
                sdt_report(wrapper) == block_reports(pdus(blocks, 2, 6))
            } else {
                sdt_report(wrapper) == Seq::<ReportModel>::empty()
            }
        }),
        ({
            let block = PduModel {
                vector: vector2,
                header: bytes::u32_bytes(protocol as int) + header,
                data,
            };
            if protocol == 2 {
                block_report(block) == dmp_reports(pdus(data, 1, 1))
            } else {
                block_report(block) == Seq::<ReportModel>::empty()
            }
        }),
        datagram_reports(
            seq![
                0x00u8, 0x10, 0x00, 0x00, 0x41, 0x53, 0x43, 0x2d,
                0x45, 0x31, 0x2e, 0x31, 0x37, 0x00, 0x00, 0x00,
            ] + data,
        ) == root_reports(pdus(data, 4, 16)),
        (exists|i: int| 0 <= i < 16 && i < datagram.len() && #[trigger] datagram[i] != preamble()[i])
            ==> datagram_reports(datagram) == Seq::<ReportModel>::empty(),
        datagram.len() < 16 ==> datagram_reports(datagram) == Seq::<ReportModel>::empty(),
{
    assert((sequencing + blocks).skip(20) =~= blocks);
    let h = bytes::u32_bytes(protocol as int) + header;
    assert(h.subrange(0, 4) =~= bytes::u32_bytes(protocol as int));
    bytes::u32_reads_back(h, 0, protocol as int);
    let whole = preamble() + data;
    assert(whole.take(16) =~= preamble());
    assert(whole.skip(16) =~= data);
    if datagram.len() >= 16 && datagram.take(16) == preamble() {
        assert forall|i: int| 0 <= i < 16 implies #[trigger] datagram[i] == preamble()[i] by {
            assert(datagram.take(16)[i] == datagram[i]);
        }
    }
}

/// A property message that travels alone, through all layers, is reported: whatever the value, the
/// lengths' widths, and the fields that do not matter here.
pub proof fn a_lone_property_travels_through_all_layers(
    root: PduParts,
    wrapper: PduParts,
    block: PduParts,
    message: PduParts,
    sequencing: Seq<u8>,
    address: u32,
    raw: Seq<u8>,
    kind: PropertyKind,
)
    requires
        root.fits(4, 16) && root.vector is Some && root.header is Some,
        wrapper.fits(1, 0) && wrapper.vector is Some && wrapper.header == Some(Seq::<u8>::empty()),
        block.fits(2, 6) && block.vector is Some && block.header is Some,
        message.fits(1, 1) && message.vector is Some && message.header == Some(seq![2u8]),
        message.vector->Some_0[0] == 2 || message.vector->Some_0[0] == 3
            || message.vector->Some_0[0] == 4,
        message.data == Some(bytes::u32_bytes(address as int) + raw),
        block.data == Some(message.octets()),
        block.header->Some_0[0] == 0 && block.header->Some_0[1] == 0 && block.header->Some_0[2] == 0
            && block.header->Some_0[3] == 2,
        sequencing.len() == 20,
        wrapper.data == Some(sequencing + block.octets()),
        wrapper.vector->Some_0[0] == 1 || wrapper.vector->Some_0[0] == 2,
        root.data == Some(wrapper.octets()),
        kind_of(address as int) == Some(kind),
        value_of(kind, raw) is Some,
    ensures
        datagram_reports(preamble() + root.octets()) == seq![
            ReportModel { address, value: value_of(kind, raw)->Some_0 },
        ],
{
    let report = ReportModel { address, value: value_of(kind, raw)->Some_0 };
    lemma_message(message, address, raw, kind);
    lemma_client_block(block, message.octets());
    lemma_wrapper(wrapper, sequencing, block.octets());
    lemma_lone_pdu(root, 4, 16);
    reports_add_up(seq![], seq![], pdus(root.octets(), 4, 16)[0]);
    let whole = preamble() + root.octets();
    assert(whole.take(16) =~= preamble());
    assert(whole.skip(16) =~= root.octets());
}

proof fn lemma_message(p: PduParts, address: u32, raw: Seq<u8>, kind: PropertyKind)
    requires
        p.fits(1, 1) && p.vector is Some && p.header == Some(seq![2u8]),
        p.vector->Some_0[0] == 2 || p.vector->Some_0[0] == 3 || p.vector->Some_0[0] == 4,
        p.data == Some(bytes::u32_bytes(address as int) + raw),
        kind_of(address as int) == Some(kind),
        value_of(kind, raw) is Some,
    ensures
        dmp_reports(pdus(p.octets(), 1, 1)) == seq![
            ReportModel { address, value: value_of(kind, raw)->Some_0 },
        ],
{
    lemma_lone_pdu(p, 1, 1);
    let m = pdus(p.octets(), 1, 1)[0];
    assert(m.vector =~= seq![m.vector[0]]);
    a_property_message_reports_its_property(m.vector[0], 2, address, raw, kind);
    reports_add_up(seq![], seq![], m);
}

proof fn lemma_client_block(p: PduParts, messages: Seq<u8>)
    requires
        p.fits(2, 6) && p.vector is Some && p.header is Some,
        p.data == Some(messages),
        p.header->Some_0[0] == 0 && p.header->Some_0[1] == 0 && p.header->Some_0[2] == 0
            && p.header->Some_0[3] == 2,
    ensures
        block_reports(pdus(p.octets(), 2, 6)) == dmp_reports(pdus(messages, 1, 1)),
{
    lemma_lone_pdu(p, 2, 6);
    let b = pdus(p.octets(), 2, 6)[0];
    assert(bytes::u32_at(b.header, 0) == 2);
    reports_add_up(seq![], seq![], b);
}

proof fn lemma_wrapper(p: PduParts, sequencing: Seq<u8>, blocks: Seq<u8>)
    requires
        p.fits(1, 0) && p.vector is Some && p.header == Some(Seq::<u8>::empty()),
        sequencing.len() == 20,
        p.data == Some(sequencing + blocks),
        p.vector->Some_0[0] == 1 || p.vector->Some_0[0] == 2,
    ensures
        sdt_reports(pdus(p.octets(), 1, 0)) == block_reports(pdus(blocks, 2, 6)),
{
    lemma_lone_pdu(p, 1, 0);
    let w = pdus(p.octets(), 1, 0)[0];
    assert((sequencing + blocks).skip(20) =~= blocks);
    reports_add_up(seq![], seq![], w);
}

} // verus!
