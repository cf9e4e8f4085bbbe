//! Packet captures, in the two common file formats, and the UDP payloads in them.
use vstd::prelude::*;

use crate::bytes;
use crate::bytes::{read_u16, read_u32};

verus! {

/// What a section of the newer format begins with.
pub const SECTION_HEADER: u32 = 0x0A0D_0D0A;

/// The block of the newer format that holds a packet.
pub const ENHANCED_PACKET: u32 = 0x0000_0006;

/// What tells a little-endian section of the newer format.
pub const BYTE_ORDER_MAGIC: u32 = 0x1A2B_3C4D;

/// One captured packet.
#[derive(Debug, Clone, PartialEq, Eq)]
pub struct Packet {
    pub timestamp_us: u64,
    pub data: Vec<u8>,
}

/// A [`Packet`], its octets as a sequence.
#[verifier::ext_equal]
pub struct PacketModel {
    pub timestamp_us: u64,
    pub data: Seq<u8>,
}

impl View for Packet {
    type V = PacketModel;

    open spec fn view(&self) -> PacketModel {
        PacketModel { timestamp_us: self.timestamp_us, data: self.data@ }
    }
}

/// The models of a list of packets.
pub open spec fn packet_models(v: Seq<Packet>) -> Seq<PacketModel> {
    v.map_values(|p: Packet| p@)
}

/// The number at a position, in one of the two byte orders.
pub open spec fn number_at(s: Seq<u8>, i: int, little_endian: bool) -> int {
    if little_endian {
        s[i] + s[i + 1] * 256 + s[i + 2] * 65536 + s[i + 3] * 16777216
    } else {
        bytes::u32_at(s, i)
    }
}

fn read_number(s: &[u8], i: usize, little_endian: bool) -> (r: u32)
    requires
        i + 4 <= s@.len(),
    ensures
        r == number_at(s@, i as int, little_endian),
{
    if little_endian {
        s[i] as u32 + s[i + 1] as u32 * 256 + s[i + 2] as u32 * 65536 + s[i + 3] as u32 * 16777216
    } else {
        read_u32(s, i)
    }
}

/// The packets of a capture in the older format, from a position on, up to the first that is cut
/// off.
pub open spec fn pcap_from(s: Seq<u8>, little_endian: bool, at: int) -> Seq<PacketModel>
    decreases s.len() - at,
{
    if at < 0 || at + 16 > s.len() {
        seq![]
    } else {
        let end = at + 16 + number_at(s, at + 8, little_endian);
        if end > s.len() || end <= at {
            seq![]
        } else {
            seq![
                PacketModel {
                    timestamp_us: (number_at(s, at, little_endian) * 1000000 + number_at(
                        s,
                        at + 4,
                        little_endian,
                    )) as u64,
                    data: s.subrange(at + 16, end),
                },
            ] + pcap_from(s, little_endian, end)
        }
    }
}

/// The number at a position; 0 where the octets end before.
pub open spec fn number_or_zero(s: Seq<u8>, i: int, little_endian: bool) -> int {
    if i + 4 <= s.len() {
        number_at(s, i, little_endian)
    } else {
        0
    }
}

/// The byte order from the block at `at` on.
pub open spec fn order_at(s: Seq<u8>, at: int, little_endian: bool) -> bool {
    if number_at(s, at, little_endian) == SECTION_HEADER {
        number_at(s, at + 8, true) == BYTE_ORDER_MAGIC
    } else {
        little_endian
    }
}

/// The packet in the block at `at`, if it is one that holds a packet whole.
pub open spec fn block_packet(s: Seq<u8>, at: int, length: int, little_endian: bool) -> Seq<
    PacketModel,
> {
    let captured = number_or_zero(s, at + 20, little_endian);
    if 28 + captured <= length {
        seq![
            PacketModel {
                timestamp_us: (number_or_zero(s, at + 12, little_endian) * 0x1_0000_0000
                    + number_or_zero(s, at + 16, little_endian)) as u64,
                data: s.subrange(at + 28, at + 28 + captured),
            },
        ]
    } else {
        seq![]
    }
}

/// The packets of a capture in the newer format, from a block on, up to the first block that is cut
/// off.
pub open spec fn pcapng_from(s: Seq<u8>, at: int, little_endian: bool) -> Seq<PacketModel>
    decreases s.len() - at,
{
    if at < 0 || at + 12 > s.len() {
        seq![]
    } else {
        let order = order_at(s, at, little_endian);
        let length = number_at(s, at + 4, order);
        if length < 12 || at + length > s.len() {
            seq![]
        } else {
            (if number_at(s, at, little_endian) == ENHANCED_PACKET {
                block_packet(s, at, length, order)
            } else {
                seq![]
            }) + pcapng_from(s, at + length, order)
        }
    }
}

/// The packets of a capture; `None` where it is of neither format.
pub open spec fn capture(s: Seq<u8>) -> Option<Seq<PacketModel>> {
    if s.len() < 4 {
        None
    } else if number_at(s, 0, false) == 0x0a0d_0d0a {
        Some(pcapng_from(s, 0, true))
    } else if number_at(s, 0, false) == 0xd4c3_b2a1 {
        Some(pcap_from(s, true, 24))
    } else if number_at(s, 0, false) == 0xa1b2_c3d4 {
        Some(pcap_from(s, false, 24))
    } else {
        None
    }
}

fn read_pcap(s: &[u8], little_endian: bool) -> (r: Vec<Packet>)
    ensures
        packet_models(r@) == pcap_from(s@, little_endian, 24),
{
    let len: usize = s.len();
    let mut out: Vec<Packet> = Vec::new();
    let mut at: usize = 24;
    let ghost whole = pcap_from(s@, little_endian, 24);
    assert(packet_models(out@) + whole =~= whole);
    while at <= len && len - at >= 16
        invariant
            len == s@.len(),
            at <= len || at == 24,
            whole == pcap_from(s@, little_endian, 24),
            packet_models(out@) + pcap_from(s@, little_endian, at as int) == whole,
        decreases len + 24 - at,
    {
        let ghost done = packet_models(out@);
        let sec: u32 = read_number(s, at, little_endian);
        let usec: u32 = read_number(s, at + 4, little_endian);
        let incl: u32 = read_number(s, at + 8, little_endian);
        let start: usize = at + 16;
        if incl as usize > len - start {
            assert(done + Seq::<PacketModel>::empty() =~= done);
            return out;
        }
        let end: usize = start + incl as usize;
        let data = vstd::slice::slice_to_vec(vstd::slice::slice_subrange(s, start, end));
        let packet = Packet { timestamp_us: sec as u64 * 1_000_000 + usec as u64, data };
        out.push(packet);
        proof {
            let more = pcap_from(s@, little_endian, end as int);
            assert(packet_models(out@) =~= done.push(packet@));
            assert(done + (seq![packet@] + more) =~= done.push(packet@) + more);
        }
        at = end;
    }
    assert(packet_models(out@) + Seq::<PacketModel>::empty() =~= packet_models(out@));
    out
}

fn read_or_zero(s: &[u8], i: usize, little_endian: bool) -> (r: u32)
    requires
        i <= s@.len() + 12,
        s@.len() + 28 <= usize::MAX,
    ensures
        r == number_or_zero(s@, i as int, little_endian),
{
    if s.len() < i + 4 {
        0
    } else {
        read_number(s, i, little_endian)
    }
}

fn read_pcapng(s: &[u8]) -> (r: Vec<Packet>)
    requires
        s@.len() + 28 <= usize::MAX,
    ensures
        packet_models(r@) == pcapng_from(s@, 0, true),
{
    let len: usize = s.len();
    let mut out: Vec<Packet> = Vec::new();
    let mut at: usize = 0;
    let mut little_endian: bool = true;
    let ghost whole = pcapng_from(s@, 0, true);
    assert(packet_models(out@) + whole =~= whole);
    while len - at >= 12
        invariant
            at <= len,
            len == s@.len(),
            len + 28 <= usize::MAX,
            whole == pcapng_from(s@, 0, true),
            packet_models(out@) + pcapng_from(s@, at as int, little_endian) == whole,
        decreases len - at,
    {
        let ghost done = packet_models(out@);
        let ghost was = little_endian;
        let block_type: u32 = read_number(s, at, little_endian);
        if block_type == SECTION_HEADER {
            little_endian = read_number(s, at + 8, true) == BYTE_ORDER_MAGIC;
        }
        assert(little_endian == order_at(s@, at as int, was));
        let length: usize = read_number(s, at + 4, little_endian) as usize;
        if length < 12 || length > len - at {
            assert(done + Seq::<PacketModel>::empty() =~= done);
            return out;
        }
        let ghost here = if number_at(s@, at as int, was) == ENHANCED_PACKET {
            block_packet(s@, at as int, length as int, little_endian)
        } else {
            seq![]
        };
        if block_type == ENHANCED_PACKET {
            let high: u32 = read_or_zero(s, at + 12, little_endian);
            let low: u32 = read_or_zero(s, at + 16, little_endian);
            let captured: u32 = read_or_zero(s, at + 20, little_endian);
            if length >= 28 && captured as usize <= length - 28 {
                let start: usize = at + 28;
                let data = vstd::slice::slice_to_vec(
                    vstd::slice::slice_subrange(s, start, start + captured as usize),
                );
                let packet = Packet {
                    timestamp_us: high as u64 * 0x1_0000_0000 + low as u64,
                    data,
                };
                out.push(packet);
                assert(packet_models(out@) =~= done + seq![packet@]);
            }
        }
        assert(packet_models(out@) =~= done + here);
        proof {
            let more = pcapng_from(s@, at + length, little_endian);
            assert(done + (here + more) =~= (done + here) + more);
        }
        at = at + length;
    }
    assert(packet_models(out@) + Seq::<PacketModel>::empty() =~= packet_models(out@));
    out
}

/// Reads the packets of a capture, up to the first that is cut off.
pub fn read_packets(s: &[u8]) -> (r: Result<Vec<Packet>, String>)
    requires
        s@.len() + 28 <= usize::MAX,
    ensures
        match r {
            Ok(packets) => capture(s@) == Some(packet_models(packets@)),
            Err(why) => capture(s@) is None && why@ == "not a pcap or pcapng file"@,
        },
{
    if s.len() < 4 {
        return Err("not a pcap or pcapng file".to_owned());
    }
    let magic: u32 = read_number(s, 0, false);
    if magic == 0x0a0d_0d0a {
        Ok(read_pcapng(s))
    } else if magic == 0xd4c3_b2a1 {
        Ok(read_pcap(s, true))
    } else if magic == 0xa1b2_c3d4 {
        Ok(read_pcap(s, false))
    } else {
        Err("not a pcap or pcapng file".to_owned())
    }
}

/// The UDP payload of an Ethernet frame that holds an IPv4 packet.
pub open spec fn payload(frame: Seq<u8>) -> Option<Seq<u8>> {
    if frame.len() < 24 || bytes::u16_at(frame, 12) != 0x0800 || frame[14] / 16 != 4 || frame[23]
        != 17 {
        None
    } else {
        let udp = 14 + (frame[14] % 16) * 4;
        if udp + 6 > frame.len() {
            None
        } else {
            let length = if bytes::u16_at(frame, udp + 4) < 8 {
                8
            } else {
                bytes::u16_at(frame, udp + 4)
            };
            if udp + length > frame.len() {
                None
            } else {
                Some(frame.subrange(udp + 8, udp + length))
            }
        }
    }
}

/// The UDP payload of an Ethernet frame that holds an IPv4 packet.
pub fn udp_payload<'a>(frame: &'a [u8]) -> (r: Option<&'a [u8]>)
    ensures
        match r {
            Some(p) => payload(frame@) == Some(p@),
            None => payload(frame@) is None,
        },
{
    let len: usize = frame.len();
    if len < 24 || read_u16(frame, 12) != 0x0800 || frame[14] / 16 != 4 || frame[23] != 17 {
        return None;
    }
    let udp: usize = 14 + (frame[14] % 16) as usize * 4;
    if udp + 6 > len {
        return None;
    }
    let given: u16 = read_u16(frame, udp + 4);
    let length: usize = if given < 8 {
        8
    } else {
        given as usize
    };
    if udp + length > len {
        return None;
    }
    Some(vstd::slice::slice_subrange(frame, udp + 8, udp + length))
}

// ---------------------------------------------------------------------------
// Laws
// ---------------------------------------------------------------------------

/// A number in either byte order.
pub proof fn numbers_in_either_order(s: Seq<u8>, i: int)
    ensures
        number_at(s, i, true) == s[i] + 0x100 * s[i + 1] + 0x1_0000 * s[i + 2] + 0x100_0000 * s[i
            + 3],
        number_at(s, i, false) == 0x100_0000 * s[i] + 0x1_0000 * s[i + 1] + 0x100 * s[i + 2] + s[i
            + 3],
{
}

/// A packet in the older format is read for its time, in seconds and microseconds, and its octets; what
/// follows it is read on. One that is cut off ends the capture.
pub proof fn an_older_packet_reads_back(
    before: Seq<u8>,
    head: Seq<u8>,
    data: Seq<u8>,
    rest: Seq<u8>,
    little_endian: bool,
)
    requires
        head.len() == 16,
        number_at(head, 8, little_endian) == data.len(),
    ensures
        pcap_from(before + head + data + rest, little_endian, before.len() as int) == seq![
            PacketModel {
                timestamp_us: (number_at(head, 0, little_endian) * 1_000_000 + number_at(
                    head,
                    4,
                    little_endian,
                )) as u64,
                data,
            },
        ] + pcap_from(
            before + head + data + rest,
            little_endian,
            before.len() as int + 16 + data.len(),
        ),
        rest.len() < 16 ==> pcap_from(before + rest, little_endian, before.len() as int).len() == 0,
        data.len() > 0 ==> pcap_from(
            before + head + data.drop_last(),
            little_endian,
            before.len() as int,
        ).len() == 0,
{
    let s = before + head + data + rest;
    let at = before.len() as int;
    let n = data.len() as int;
    assert(forall|i: int| 0 <= i < 16 ==> s[at + i] == head[i]);
    lemma_same_numbers(s, at, head, little_endian);
    let end = at + 16 + n;
    assert(s.subrange(at + 16, end) =~= data);
    if n > 0 {
        let t = before + head + data.drop_last();
        assert(forall|i: int| 0 <= i < 16 ==> t[at + i] == head[i]);
        lemma_same_numbers(t, at, head, little_endian);
    }
}

proof fn lemma_same_numbers(s: Seq<u8>, at: int, head: Seq<u8>, little_endian: bool)
    requires
        head.len() == 16,
        forall|i: int| 0 <= i < 16 ==> #[trigger] s[at + i] == head[i],
    ensures
        number_at(s, at, little_endian) == number_at(head, 0, little_endian),
        number_at(s, at + 4, little_endian) == number_at(head, 4, little_endian),
        number_at(s, at + 8, little_endian) == number_at(head, 8, little_endian),
        number_at(s, at + 12, little_endian) == number_at(head, 12, little_endian),
{
    assert(s[at + 0] == head[0] && s[at + 1] == head[1] && s[at + 2] == head[2] && s[at + 3]
        == head[3]);
    assert(s[at + 4] == head[4] && s[at + 5] == head[5] && s[at + 6] == head[6] && s[at + 7]
        == head[7]);
    assert(s[at + 8] == head[8] && s[at + 9] == head[9] && s[at + 10] == head[10] && s[at + 11]
        == head[11]);
    assert(s[at + 12] == head[12] && s[at + 13] == head[13] && s[at + 14] == head[14] && s[at + 15]
        == head[15]);
}

/// The four octets that a capture begins with tell its format: a section header, or the older format in
/// one byte order or the other. With anything else it is none.
pub proof fn the_first_octets_tell_the_format(rest: Seq<u8>, s: Seq<u8>)
    ensures
        capture(seq![0x0au8, 0x0d, 0x0d, 0x0a] + rest) == Some(
            pcapng_from(seq![0x0au8, 0x0d, 0x0d, 0x0a] + rest, 0, true),
        ),
        capture(seq![0xd4u8, 0xc3, 0xb2, 0xa1] + rest) == Some(
            pcap_from(seq![0xd4u8, 0xc3, 0xb2, 0xa1] + rest, true, 24),
        ),
        capture(seq![0xa1u8, 0xb2, 0xc3, 0xd4] + rest) == Some(
            pcap_from(seq![0xa1u8, 0xb2, 0xc3, 0xd4] + rest, false, 24),
        ),
        s.len() < 4 ==> capture(s) is None,
        s.len() >= 4 && s[0] != 0x0a && s[0] != 0xd4 && s[0] != 0xa1 ==> capture(s) is None,
{
    let a = seq![0x0au8, 0x0d, 0x0d, 0x0a] + rest;
    let b = seq![0xd4u8, 0xc3, 0xb2, 0xa1] + rest;
    let c = seq![0xa1u8, 0xb2, 0xc3, 0xd4] + rest;
    assert(a[0] == 0x0a && a[1] == 0x0d && a[2] == 0x0d && a[3] == 0x0a);
    assert(b[0] == 0xd4 && b[1] == 0xc3 && b[2] == 0xb2 && b[3] == 0xa1);
    assert(c[0] == 0xa1 && c[1] == 0xb2 && c[2] == 0xc3 && c[3] == 0xd4);
}

/// A block of the newer format is passed over by its length, if it is no packet; a packet block gives
/// the time, its high half first, and as many octets as were captured. A section header sets the byte
/// order from there on.
pub proof fn a_block_is_read_by_its_length(s: Seq<u8>, at: int, length: int, little_endian: bool)
    requires
        0 <= at,
        12 <= length,
        at + length <= s.len(),
    ensures
        number_at(s, at, little_endian) == 6 && number_at(s, at + 4, little_endian) == length
            && length >= 32 && number_at(s, at + 20, little_endian) <= length - 28 ==> pcapng_from(
            s,
            at,
            little_endian,
        ) == seq![
            PacketModel {
                timestamp_us: (0x1_0000_0000 * number_at(s, at + 12, little_endian) + number_at(
                    s,
                    at + 16,
                    little_endian,
                )) as u64,
                data: s.subrange(at + 28, at + 28 + number_at(s, at + 20, little_endian)),
            },
        ] + pcapng_from(s, at + length, little_endian),
        number_at(s, at, little_endian) != 6 && number_at(s, at, little_endian) != 0x0a0d_0d0a
            && number_at(s, at + 4, little_endian) == length ==> pcapng_from(s, at, little_endian)
            == pcapng_from(s, at + length, little_endian),
        s[at] == 0x0a && s[at + 1] == 0x0d && s[at + 2] == 0x0d && s[at + 3] == 0x0a && s[at + 8]
            == 0x4d && s[at + 9] == 0x3c && s[at + 10] == 0x2b && s[at + 11] == 0x1a && number_at(
            s,
            at + 4,
            true,
        ) == length ==> pcapng_from(s, at, little_endian) == pcapng_from(s, at + length, true),
        s[at] == 0x0a && s[at + 1] == 0x0d && s[at + 2] == 0x0d && s[at + 3] == 0x0a && s[at + 8]
            == 0x1a && s[at + 9] == 0x2b && s[at + 10] == 0x3c && s[at + 11] == 0x4d && number_at(
            s,
            at + 4,
            false,
        ) == length ==> pcapng_from(s, at, little_endian) == pcapng_from(s, at + length, false),
        number_at(s, at, little_endian) != 0x0a0d_0d0a && number_at(s, at + 4, little_endian) < 12
            ==> pcapng_from(s, at, little_endian).len() == 0,
{
    numbers_in_either_order(s, at);
    numbers_in_either_order(s, at + 8);
    let none = Seq::<PacketModel>::empty();
    assert(none + pcapng_from(s, at + length, little_endian) =~= pcapng_from(
        s,
        at + length,
        little_endian,
    ));
    assert(none + pcapng_from(s, at + length, true) =~= pcapng_from(s, at + length, true));
    assert(none + pcapng_from(s, at + length, false) =~= pcapng_from(s, at + length, false));
}

/// The payload of a UDP datagram in an IPv4 packet in a frame: behind both addresses and the type, the
/// packet's header of any length, and the four fields of the datagram. A frame of another type, a packet
/// of another version or protocol, and one that is cut off have none.
pub proof fn a_payload_reads_back(
    ethernet: Seq<u8>,
    ip: Seq<u8>,
    ports: Seq<u8>,
    checksum: Seq<u8>,
    data: Seq<u8>,
    trailer: Seq<u8>,
    frame: Seq<u8>,
)
    requires
        ethernet.len() == 12,
        20 <= ip.len() <= 60,
        ip[0] == 0x40 + ip.len() / 4,
        ip.len() % 4 == 0,
        ip[9] == 17,
        ports.len() == 4,
        checksum.len() == 2,
        data.len() + 8 <= 0xffff,
    ensures
        payload(
            ethernet + seq![0x08u8, 0x00] + ip + ports + bytes::u16_bytes(data.len() as int + 8)
                + checksum + data + trailer,
        ) == Some(data),
        frame.len() >= 24 && (frame[12] != 8 || frame[13] != 0 || frame[14] < 0x40 || frame[14]
            >= 0x50 || frame[23] != 17) ==> payload(frame) is None,
        frame.len() < 24 ==> payload(frame) is None,
{
    let n = data.len() as int + 8;
    let length = bytes::u16_bytes(n);
    let s = ethernet + seq![0x08u8, 0x00] + ip + ports + length + checksum + data + trailer;
    let udp = 14 + ip.len() as int;
    assert(s[12] == 8 && s[13] == 0);
    assert(s[14] == ip[0] && s[23] == ip[9]);
    assert(ip[0] % 16 == ip.len() / 4);
    assert(ip[0] / 16 == 4);
    assert(14 + (s[14] % 16) * 4 == udp);
    assert(s.subrange(udp + 4, udp + 6) =~= length);
    bytes::u16_reads_back(s, udp + 4, n);
    assert(s.subrange(udp + 8, udp + n) =~= data);
    if frame.len() >= 24 {
        assert(frame[14] / 16 == 4 ==> 0x40 <= frame[14] < 0x50);
    }
}

/// A number that the octets end before counts as 0.
pub proof fn a_number_that_is_cut_off_is_zero(s: Seq<u8>, i: int, little_endian: bool)
    ensures
        i + 4 > s.len() ==> number_or_zero(s, i, little_endian) == 0,
        i + 4 <= s.len() ==> number_or_zero(s, i, little_endian) == number_at(s, i, little_endian),
{
}

} // verus!
