//! Open Sound Control packets: read out of datagrams and written by `rosc`, held here as plain
//! data.
use rosc::{OscPacket, OscType};
use vstd::prelude::*;

use crate::bytes;
use crate::float32::Float32;

pub mod x32;

verus! {

/// The packet of `rosc`.
#[verifier::external_type_specification]
#[verifier::external_body]
pub struct ExOscPacket(rosc::OscPacket);

/// An argument of a message of `rosc`.
#[verifier::external_type_specification]
#[verifier::external_body]
pub struct ExOscType(rosc::OscType);

/// How long a datagram may be. It is what they are read into.
pub const MAX_DATAGRAM: usize = 4096;

/// An argument of a message, as far as anything looks at it.
#[derive(Debug, Clone, PartialEq)]
pub enum Arg {
    Int(i32),
    Float(Float32),
    Text(String),
    /// Of another type.
    Other,
}

/// An [`Arg`], its text as a sequence.
pub enum ArgModel {
    Int(i32),
    Float(Float32),
    Text(Seq<char>),
    Other,
}

impl View for Arg {
    type V = ArgModel;

    open spec fn view(&self) -> ArgModel {
        match self {
            Arg::Int(n) => ArgModel::Int(*n),
            Arg::Float(x) => ArgModel::Float(*x),
            Arg::Text(s) => ArgModel::Text(s@),
            Arg::Other => ArgModel::Other,
        }
    }
}

/// The models of a list of arguments.
pub open spec fn arg_models(v: Seq<Arg>) -> Seq<ArgModel> {
    v.map_values(|a: Arg| a@)
}

/// A packet: a message, or a bundle of packets.
#[verifier::ext_equal]
pub enum PacketModel {
    Message { addr: Seq<char>, args: Seq<ArgModel> },
    Bundle(Seq<PacketModel>),
}

/// What a packet of `rosc` holds. The time of a bundle is left out.
pub uninterp spec fn contents(p: rosc::OscPacket) -> PacketModel;

/// What an argument of `rosc` holds.
pub uninterp spec fn arg_contents(a: rosc::OscType) -> ArgModel;

/// What `rosc::decoder::decode_udp` reads out of a datagram.
pub uninterp spec fn packet_read(octets: Seq<u8>) -> Option<PacketModel>;

/// Calls `rosc::decoder::decode_udp`. The outcome depends on the octets alone; which octets are a
/// packet is left unsaid. A bundle is read by recursion, so the length is bounded.
#[verifier::external_body]
fn decode_udp(octets: &[u8]) -> (r: Option<OscPacket>)
    requires
        octets@.len() <= MAX_DATAGRAM,
    ensures
        match r {
            Some(p) => packet_read(octets@) == Some(contents(p)),
            None => packet_read(octets@) is None,
        },
{
    match rosc::decoder::decode_udp(octets) {
        Ok((_, p)) => Some(p),
        Err(_) => None,
    }
}

/// One layer of a packet of `rosc`.
enum Layer<'a> {
    Message(&'a String, &'a Vec<OscType>),
    Bundle(&'a Vec<OscPacket>),
}

/// Tells the variants of a `rosc::OscPacket` apart: a message's address and arguments, or the
/// packets of a bundle.
#[verifier::external_body]
fn layer<'a>(p: &'a OscPacket) -> (r: Layer<'a>)
    ensures
        match contents(*p) {
            PacketModel::Message { addr, args } => r is Message && r->Message_0@ == addr && args
                == r->Message_1@.map_values(|a: OscType| arg_contents(a)),
            PacketModel::Bundle(packets) => r is Bundle && packets == r->Bundle_0@.map_values(
                |q: OscPacket| contents(q),
            ),
        },
{
    match p {
        OscPacket::Message(m) => Layer::Message(&m.addr, &m.args),
        OscPacket::Bundle(b) => Layer::Bundle(&b.content),
    }
}

/// Tells the variants of a `rosc::OscType` apart. Of those that nothing looks at, the value is
/// left out.
#[verifier::external_body]
fn to_arg(a: &OscType) -> (r: Arg)
    ensures
        r@ == arg_contents(*a),
{
    match a {
        OscType::Int(n) => Arg::Int(*n),
        OscType::Float(x) => Arg::Float(Float32 { bits: x.to_bits() }),
        OscType::String(s) => Arg::Text(s.clone()),
        _ => Arg::Other,
    }
}

fn to_args(list: &Vec<OscType>) -> (r: Vec<Arg>)
    ensures
        arg_models(r@) == list@.map_values(|a: OscType| arg_contents(a)),
{
    let mut out: Vec<Arg> = Vec::new();
    let mut i: usize = 0;
    while i < list.len()
        invariant
            i <= list.len(),
            out@.len() == i,
            forall|j: int| 0 <= j < i ==> (#[trigger] out@[j])@ == arg_contents(list@[j]),
        decreases list.len() - i,
    {
        out.push(to_arg(&list[i]));
        i = i + 1;
    }
    assert(arg_models(out@) =~= list@.map_values(|a: OscType| arg_contents(a)));
    out
}

/// `s` and the one to four zeros that make its length a multiple of four.
pub open spec fn padded(s: Seq<u8>) -> Seq<u8> {
    s + Seq::new((4 - s.len() % 4) as nat, |i: int| 0u8)
}

/// A message with a whole number for its only argument, or with none: the address, the type tags,
/// and the argument.
pub open spec fn message_octets(addr: Seq<char>, arg: Option<i32>) -> Seq<u8> {
    padded(vstd::utf8::encode_utf8(addr)) + (match arg {
        Some(n) => padded(seq![0x2cu8, 0x69]) + bytes::u32_bytes(
            bytes::to_unsigned(n as int, 0x8000_0000),
        ),
        None => padded(seq![0x2cu8]),
    })
}

/// Whether a text can stand as the address of a message and be read as it was written.
pub open spec fn is_address(addr: Seq<char>) -> bool {
    addr.len() > 0 && addr[0] == '/' && forall|i: int|
        0 <= i < addr.len() ==> #[trigger] addr[i] != '\0'
}

/// The packet of a message with a whole number for its only argument, or with none.
pub open spec fn message(addr: Seq<char>, arg: Option<i32>) -> PacketModel {
    PacketModel::Message {
        addr,
        args: match arg {
            Some(n) => seq![ArgModel::Int(n)],
            None => seq![],
        },
    }
}

/// Calls `rosc::encoder::encode` for a message with a whole number for its only argument, or with
/// none. It writes into a vector, which cannot fail. What it wrote is what
/// `rosc::decoder::decode_udp` reads, where the address is one.
#[verifier::external_body]
pub(crate) fn encode(addr: &str, arg: Option<i32>) -> (r: Option<Vec<u8>>)
    ensures
        r is Some,
        r->Some_0@ == message_octets(addr@, arg),
        is_address(addr@) ==> packet_read(r->Some_0@) == Some(message(addr@, arg)),
{
    let args = arg.map(rosc::OscType::Int).into_iter().collect();
    let message = rosc::OscMessage { addr: addr.to_owned(), args };
    rosc::encoder::encode(&OscPacket::Message(message)).ok()
}

/// A packet, as plain data.
#[derive(Debug, PartialEq)]
pub enum Packet {
    Message { addr: String, args: Vec<Arg> },
    Bundle(Vec<Packet>),
}

/// A [`Packet`], its texts and lists as sequences.
pub open spec fn model(p: Packet) -> PacketModel
    decreases p,
{
    match p {
        Packet::Message { addr, args } => PacketModel::Message { addr: addr@, args: arg_models(args@) },
        Packet::Bundle(packets) => PacketModel::Bundle(packet_models(packets@)),
    }
}

/// The models of the packets of a bundle.
pub open spec fn packet_models(packets: Seq<Packet>) -> Seq<PacketModel>
    decreases packets,
{
    if packets.len() == 0 {
        seq![]
    } else {
        packet_models(packets.drop_last()).push(model(packets.last()))
    }
}

impl View for Packet {
    type V = PacketModel;

    open spec fn view(&self) -> PacketModel {
        model(*self)
    }
}

/// Packet by packet, a list of models is what the packets' own models are.
pub proof fn packets_have_their_models(packets: Seq<Packet>)
    ensures
        packet_models(packets).len() == packets.len(),
        forall|i: int| 0 <= i < packets.len() ==> #[trigger] packet_models(packets)[i]
            == packets[i]@,
    decreases packets.len(),
{
    if packets.len() > 0 {
        packets_have_their_models(packets.drop_last());
    }
}

fn to_packet(p: &OscPacket) -> (r: Packet)
    ensures
        r@ == contents(*p),
    decreases contents(*p),
{
    match layer(p) {
        Layer::Message(addr, args) => Packet::Message { addr: addr.clone(), args: to_args(args) },
        Layer::Bundle(list) => {
            let ghost packets = contents(*p)->Bundle_0;
            let mut out: Vec<Packet> = Vec::new();
            let mut i: usize = 0;
            while i < list.len()
                invariant
                    i <= list.len(),
                    contents(*p) == PacketModel::Bundle(packets),
                    packets == list@.map_values(|q: OscPacket| contents(q)),
                    packet_models(out@) =~= packets.take(i as int),
                decreases list.len() - i,
            {
                let ghost before = out@;
                assert(packets[i as int] == contents(list@[i as int]));
                assert(decreases_to!(contents(*p) => contents(*p)->Bundle_0));
                assert(decreases_to!(packets => packets[i as int]));
                let packet = to_packet(&list[i]);
                out.push(packet);
                assert(out@.drop_last() =~= before);
                assert(packets.take(i + 1) =~= packets.take(i as int).push(packets[i as int]));
                i = i + 1;
            }
            assert(packets.take(i as int) =~= packets);
            Packet::Bundle(out)
        },
    }
}

/// Reads a packet out of a datagram; `None` where it is none.
pub fn read_packet(octets: &[u8]) -> (r: Option<Packet>)
    requires
        octets@.len() <= MAX_DATAGRAM,
    ensures
        match r {
            Some(p) => packet_read(octets@) == Some(p@),
            None => packet_read(octets@) is None,
        },
{
    match decode_udp(octets) {
        Some(p) => Some(to_packet(&p)),
        None => None,
    }
}

/// A message on the wire, octet by octet: the address and at least one zero up to a multiple of four,
/// the type tags likewise, and the number, the highest octet first.
pub proof fn a_message_is_these_octets(addr: Seq<char>, n: i32, i: int)
    ensures
        ({
            let s = message_octets(addr, Some(n));
            let text = vstd::utf8::encode_utf8(addr);
            let at = s.len() - 8;
            &&& text.len() < at <= text.len() + 4 && at % 4 == 0
            &&& 0 <= i < text.len() ==> s[i] == text[i]
            &&& text.len() <= i < at ==> s[i] == 0
            &&& s[at] == 0x2c && s[at + 1] == 0x69 && s[at + 2] == 0 && s[at + 3] == 0
            &&& 0x100_0000 * s[at + 4] + 0x1_0000 * s[at + 5] + 0x100 * s[at + 6] + s[at + 7] == (
            if n >= 0 {
                n as int
            } else {
                n + 0x1_0000_0000
            })
        }),
        ({
            let s = message_octets(addr, None);
            let text = vstd::utf8::encode_utf8(addr);
            let at = s.len() - 4;
            &&& text.len() < at <= text.len() + 4 && at % 4 == 0
            &&& 0 <= i < text.len() ==> s[i] == text[i]
            &&& text.len() <= i < at ==> s[i] == 0
            &&& s[at] == 0x2c && s[at + 1] == 0 && s[at + 2] == 0 && s[at + 3] == 0
        }),
{
    let text = vstd::utf8::encode_utf8(addr);
    let head = padded(text);
    let tag = padded(seq![0x2cu8, 0x69]);
    let lone = padded(seq![0x2cu8]);
    assert(tag =~= seq![0x2cu8, 0x69, 0, 0]);
    assert(lone =~= seq![0x2cu8, 0, 0, 0]);
    let s = message_octets(addr, Some(n));
    let u = bytes::to_unsigned(n as int, 0x8000_0000);
    bytes::numbers_are_big_endian(s, 0, u);
    assert(s.len() == head.len() + 8);
}

/// The arguments that a message carries.
pub proof fn a_message_has_its_argument(addr: Seq<char>, n: i32)
    ensures
        message(addr, Some(n)) == (PacketModel::Message { addr, args: seq![ArgModel::Int(n)] }),
        message(addr, None) == (PacketModel::Message { addr, args: seq![] }),
{
}

} // verus!
