//! Dante's ARC control protocol, as far as it tells the current routing: which receive channel is
//! subscribed to which transmit channel, on which device. Routing is never written.
use vstd::prelude::*;

use crate::bytes;
use crate::bytes::{push_all, push_u16, read_u16};
use crate::text;
use crate::text::{clone_opt, from_utf8};

verus! {

pub const PROTOCOL_ID: u16 = 0x27FF;

pub const OPCODE_DEVICE_NAME: u16 = 0x1002;

pub const OPCODE_TX_CHANNEL_INFO: u16 = 0x2000;

pub const OPCODE_TX_CHANNEL_NAMES: u16 = 0x2010;

pub const OPCODE_RX_CHANNELS: u16 = 0x3000;

pub const RESPONSE_HEADER_SIZE: usize = 10;

pub const BODY_HEADER_SIZE: usize = 2;

pub const RX_RECORD_SIZE: usize = 20;

pub const TX_RECORD_SIZE: usize = 8;

pub const TX_FRIENDLY_RECORD_SIZE: usize = 6;

pub const RX_CHANNELS_PER_PAGE: u16 = 16;

pub const TX_CHANNELS_PER_PAGE: u16 = 32;

/// Pages are read up to 128 channels; a short page ends them before.
pub const MAX_RX_PAGES: u16 = 8;

pub const MAX_TX_PAGES: u16 = 4;

/// A receive channel's current subscription. `tx_device_name` is `None` where it has none.
#[derive(Debug, Clone, PartialEq, Eq)]
pub struct RxChannel {
    pub number: u16,
    pub tx_channel_name: Option<String>,
    pub tx_device_name: Option<String>,
}

/// An [`RxChannel`], its texts as sequences.
#[verifier::ext_equal]
pub struct RxModel {
    pub number: u16,
    pub tx_channel_name: Option<Seq<char>>,
    pub tx_device_name: Option<Seq<char>>,
}

impl View for RxChannel {
    type V = RxModel;

    open spec fn view(&self) -> RxModel {
        RxModel {
            number: self.number,
            tx_channel_name: text::opt_text(self.tx_channel_name),
            tx_device_name: text::opt_text(self.tx_device_name),
        }
    }
}

/// A transmit channel. `name` is the name that the user gave it, or else its own.
#[derive(Debug, Clone, PartialEq, Eq)]
pub struct TxChannel {
    pub number: u16,
    pub name: Option<String>,
}

/// A [`TxChannel`], its text as a sequence.
#[verifier::ext_equal]
pub struct TxModel {
    pub number: u16,
    pub name: Option<Seq<char>>,
}

impl View for TxChannel {
    type V = TxModel;

    open spec fn view(&self) -> TxModel {
        TxModel { number: self.number, name: text::opt_text(self.name) }
    }
}

/// The models of a list of receive channels.
pub open spec fn rx_models(v: Seq<RxChannel>) -> Seq<RxModel> {
    v.map_values(|c: RxChannel| c@)
}

/// The models of a list of transmit channels.
pub open spec fn tx_models(v: Seq<TxChannel>) -> Seq<TxModel> {
    v.map_values(|c: TxChannel| c@)
}

/// The models of a list of channel names.
pub open spec fn name_models(v: Seq<(u16, String)>) -> Seq<(u16, Seq<char>)> {
    v.map_values(|n: (u16, String)| (n.0, n.1@))
}

// ---------------------------------------------------------------------------
// Requests
// ---------------------------------------------------------------------------

/// A request. Its length keeps the low sixteen bits.
pub open spec fn packet(opcode: u16, payload: Seq<u8>, transaction_id: u16) -> Seq<u8> {
    bytes::u16_bytes(PROTOCOL_ID as int) + bytes::u16_bytes((8 + payload.len() as int) % 65536)
        + bytes::u16_bytes(transaction_id as int) + bytes::u16_bytes(opcode as int) + payload
}

/// What a request for a page of channels carries.
pub open spec fn page_payload(starting_channel: u16) -> Seq<u8> {
    seq![0u8, 0u8, 0u8, 1u8] + bytes::u16_bytes(starting_channel as int) + seq![0u8, 0u8]
}

fn build_packet(opcode: u16, payload: &[u8], transaction_id: u16) -> (r: Vec<u8>)
    requires
        payload@.len() + 8 <= usize::MAX,
    ensures
        r@ == packet(opcode, payload@, transaction_id),
{
    let length: usize = 8 + payload.len();
    let mut out: Vec<u8> = Vec::new();
    push_u16(&mut out, PROTOCOL_ID);
    push_u16(&mut out, (length as u64 % 65536) as u16);
    push_u16(&mut out, transaction_id);
    push_u16(&mut out, opcode);
    push_all(&mut out, payload);
    assert(out@ =~= packet(opcode, payload@, transaction_id));
    out
}

fn channel_query_payload(starting_channel: u16) -> (r: Vec<u8>)
    ensures
        r@ == page_payload(starting_channel),
        r@.len() == 8,
{
    let mut out: Vec<u8> = Vec::new();
    out.push(0);
    out.push(0);
    out.push(0);
    out.push(1);
    push_u16(&mut out, starting_channel);
    out.push(0);
    out.push(0);
    assert(out@ =~= page_payload(starting_channel));
    out
}

/// Asks for a device's own name.
pub fn build_device_name_query(transaction_id: u16) -> (r: Vec<u8>)
    ensures
        r@ == packet(OPCODE_DEVICE_NAME, seq![0u8, 0u8], transaction_id),
{
    let mut payload: Vec<u8> = Vec::new();
    payload.push(0);
    payload.push(0);
    assert(payload@ =~= seq![0u8, 0u8]);
    build_packet(OPCODE_DEVICE_NAME, payload.as_slice(), transaction_id)
}

/// The request for a page of receive channels.
pub open spec fn rx_query(page: u16, transaction_id: u16) -> Seq<u8> {
    packet(OPCODE_RX_CHANNELS, page_payload((page * 16 + 1) as u16), transaction_id)
}

/// Asks for a page of receive channels.
pub fn build_rx_query(page: u16, transaction_id: u16) -> (r: Vec<u8>)
    requires
        page * 16 + 1 <= 0xffff,
    ensures
        r@ == rx_query(page, transaction_id),
{
    let starting_channel: u16 = page * RX_CHANNELS_PER_PAGE + 1;
    let payload = channel_query_payload(starting_channel);
    build_packet(OPCODE_RX_CHANNELS, payload.as_slice(), transaction_id)
}

/// The request for a page of transmit channels, by the names that users gave or by their own.
pub open spec fn tx_query(page: u16, friendly_names: bool, transaction_id: u16) -> Seq<u8> {
    packet(
        if friendly_names {
            OPCODE_TX_CHANNEL_NAMES
        } else {
            OPCODE_TX_CHANNEL_INFO
        },
        page_payload((page * 32 + 1) as u16),
        transaction_id,
    )
}

/// Asks for a page of transmit channels.
pub fn build_tx_query(page: u16, friendly_names: bool, transaction_id: u16) -> (r: Vec<u8>)
    requires
        page * 32 + 1 <= 0xffff,
    ensures
        r@ == tx_query(page, friendly_names, transaction_id),
{
    let opcode: u16 = if friendly_names {
        OPCODE_TX_CHANNEL_NAMES
    } else {
        OPCODE_TX_CHANNEL_INFO
    };
    let starting_channel: u16 = page * TX_CHANNELS_PER_PAGE + 1;
    let payload = channel_query_payload(starting_channel);
    build_packet(opcode, payload.as_slice(), transaction_id)
}

// ---------------------------------------------------------------------------
// Responses
// ---------------------------------------------------------------------------

/// Whether a response belongs to a request.
pub open spec fn answers(response: Seq<u8>, transaction_id: u16) -> bool {
    response.len() >= 6 && bytes::u16_at(response, 4) == transaction_id
}

/// Whether a response belongs to a request; one that is too short or carries another transaction
/// id does not.
pub fn is_answer(response: &[u8], transaction_id: u16) -> (r: bool)
    ensures
        r == answers(response@, transaction_id),
{
    response.len() >= 6 && read_u16(response, 4) == transaction_id
}

/// The octets of `data` from `at` up to the next zero, or to the end.
pub open spec fn until_zero(data: Seq<u8>, at: int) -> Seq<u8>
    decreases data.len() - at,
{
    if at < 0 || at >= data.len() || data[at] == 0 {
        seq![]
    } else {
        seq![data[at]] + until_zero(data, at + 1)
    }
}

/// The text that octets spell, where they are well-formed UTF-8.
pub open spec fn spelled(octets: Seq<u8>) -> Option<Seq<char>> {
    if vstd::utf8::valid_utf8(octets) {
        Some(vstd::utf8::decode_utf8(octets))
    } else {
        None
    }
}

/// The text that a pointer leads to; 0 leads nowhere.
pub open spec fn pointed_text(data: Seq<u8>, pointer: int) -> Option<Seq<char>> {
    if pointer == 0 || pointer >= data.len() {
        None
    } else {
        spelled(until_zero(data, pointer))
    }
}

proof fn lemma_until_zero(data: Seq<u8>, at: int, end: int)
    requires
        0 <= at <= end <= data.len(),
        forall|j: int| at <= j < end ==> #[trigger] data[j] != 0,
        end < data.len() ==> data[end] == 0,
    ensures
        until_zero(data, at) == data.subrange(at, end),
    decreases end - at,
{
    if at < end {
        lemma_until_zero(data, at + 1, end);
        assert(seq![data[at]] + data.subrange(at + 1, end) =~= data.subrange(at, end));
    } else {
        assert(data.subrange(at, end) =~= seq![]);
    }
}

fn null_terminated_slice(data: &[u8], offset: usize) -> (r: &[u8])
    requires
        offset <= data@.len(),
    ensures
        r@ == until_zero(data@, offset as int),
{
    let mut end: usize = offset;
    while end < data.len() && data[end] != 0
        invariant
            offset <= end <= data.len(),
            forall|j: int| offset <= j < end ==> #[trigger] data@[j] != 0,
        decreases data.len() - end,
    {
        end = end + 1;
    }
    proof {
        lemma_until_zero(data@, offset as int, end as int);
    }
    vstd::slice::slice_subrange(data, offset, end)
}

fn string_at_pointer(data: &[u8], pointer: u16) -> (r: Option<String>)
    ensures
        text::opt_text(r) == pointed_text(data@, pointer as int),
{
    if pointer == 0 || pointer as usize >= data.len() {
        return None;
    }
    from_utf8(null_terminated_slice(data, pointer as usize))
}

/// The name in a response: what follows the header, without the terminator.
pub open spec fn device_name(response: Seq<u8>) -> Option<Seq<char>> {
    if response.len() <= 10 {
        None
    } else {
        spelled(response.subrange(10, response.len() - 1))
    }
}

/// Reads a device's own name.
pub fn parse_device_name(response: &[u8]) -> (r: Option<String>)
    ensures
        text::opt_text(r) == device_name(response@),
{
    if response.len() <= RESPONSE_HEADER_SIZE {
        return None;
    }
    from_utf8(
        vstd::slice::slice_subrange(response, RESPONSE_HEADER_SIZE, response.len() - 1),
    )
}

/// The position of the record number `i` of a page; records follow the two headers.
pub open spec fn record_at(i: int, size: int) -> int {
    12 + i * size
}

/// The receive channel that the record at `at` describes. Where the record gives no transmit
/// channel, the receive channel's own name stands for it.
pub open spec fn rx_record(response: Seq<u8>, at: int) -> RxModel {
    RxModel {
        number: bytes::u16_at(response, at) as u16,
        tx_channel_name: if bytes::u16_at(response, at + 6) != 0 {
            pointed_text(response, bytes::u16_at(response, at + 6))
        } else {
            pointed_text(response, bytes::u16_at(response, at + 10))
        },
        tx_device_name: pointed_text(response, bytes::u16_at(response, at + 8)),
    }
}

/// The receive channels of a page from record `i` on. The page ends with its octets, after
/// sixteen records, or at the first record out of sequence.
pub open spec fn rx_page_from(response: Seq<u8>, starting_channel: int, i: int) -> Seq<RxModel>
    decreases 16 - i,
{
    let at = record_at(i, 20);
    if i >= 16 || at + 20 > response.len() {
        seq![]
    } else {
        let number = bytes::u16_at(response, at);
        if number == 0 || number != starting_channel + i {
            seq![]
        } else {
            seq![rx_record(response, at)] + rx_page_from(response, starting_channel, i + 1)
        }
    }
}

/// Reads a page of receive channels.
pub fn parse_rx_page(response: &[u8], starting_channel: u16) -> (r: Vec<RxChannel>)
    ensures
        rx_models(r@) == rx_page_from(response@, starting_channel as int, 0),
        r@.len() <= 16,
{
    let mut out: Vec<RxChannel> = Vec::new();
    let ghost whole = rx_page_from(response@, starting_channel as int, 0);
    let mut i: usize = 0;
    assert(rx_models(out@) + whole =~= whole);
    while i < 16
        invariant
            i <= 16,
            out@.len() == i,
            whole == rx_page_from(response@, starting_channel as int, 0),
            rx_models(out@) + rx_page_from(response@, starting_channel as int, i as int) == whole,
        decreases 16 - i,
    {
        let ghost before = rx_models(out@);
        let at: usize = 12 + i * RX_RECORD_SIZE;
        if response.len() < at + RX_RECORD_SIZE {
            assert(before + Seq::<RxModel>::empty() =~= before);
            return out;
        }
        let number: u16 = read_u16(response, at);
        if number == 0 || number as u32 != starting_channel as u32 + i as u32 {
            assert(before + Seq::<RxModel>::empty() =~= before);
            return out;
        }
        let tx_channel_pointer: u16 = read_u16(response, at + 6);
        let tx_device_name = string_at_pointer(response, read_u16(response, at + 8));
        let tx_channel_name = if tx_channel_pointer != 0 {
            string_at_pointer(response, tx_channel_pointer)
        } else {
            string_at_pointer(response, read_u16(response, at + 10))
        };
        let channel = RxChannel { number, tx_channel_name, tx_device_name };
        out.push(channel);
        assert(channel@ == rx_record(response@, at as int));
        assert(rx_models(out@) =~= before.push(channel@));
        let ghost more = rx_page_from(response@, starting_channel as int, i + 1);
        assert(before + (seq![channel@] + more) =~= before.push(channel@) + more);
        i = i + 1;
    }
    assert(rx_models(out@) + Seq::<RxModel>::empty() =~= rx_models(out@));
    out
}

/// The transmit channels' own names, from record `i` of a page on.
pub open spec fn tx_page_from(response: Seq<u8>, starting_channel: int, i: int) -> Seq<TxModel>
    decreases 32 - i,
{
    let at = record_at(i, 8);
    if i >= 32 || at + 8 > response.len() {
        seq![]
    } else {
        let number = bytes::u16_at(response, at);
        if number == 0 || number != starting_channel + i {
            seq![]
        } else {
            seq![
                TxModel {
                    number: number as u16,
                    name: pointed_text(response, bytes::u16_at(response, at + 6)),
                },
            ] + tx_page_from(response, starting_channel, i + 1)
        }
    }
}

/// Reads a page of transmit channels' own names.
pub fn parse_tx_info_page(response: &[u8], starting_channel: u16) -> (r: Vec<TxChannel>)
    ensures
        tx_models(r@) == tx_page_from(response@, starting_channel as int, 0),
        r@.len() <= 32,
{
    let mut out: Vec<TxChannel> = Vec::new();
    let ghost whole = tx_page_from(response@, starting_channel as int, 0);
    let mut i: usize = 0;
    assert(tx_models(out@) + whole =~= whole);
    while i < 32
        invariant
            i <= 32,
            out@.len() == i,
            whole == tx_page_from(response@, starting_channel as int, 0),
            tx_models(out@) + tx_page_from(response@, starting_channel as int, i as int) == whole,
        decreases 32 - i,
    {
        let ghost before = tx_models(out@);
        let at: usize = 12 + i * TX_RECORD_SIZE;
        if response.len() < at + TX_RECORD_SIZE {
            assert(before + Seq::<TxModel>::empty() =~= before);
            return out;
        }
        let number: u16 = read_u16(response, at);
        if number == 0 || number as u32 != starting_channel as u32 + i as u32 {
            assert(before + Seq::<TxModel>::empty() =~= before);
            return out;
        }
        let name = string_at_pointer(response, read_u16(response, at + 6));
        let channel = TxChannel { number, name };
        out.push(channel);
        assert(tx_models(out@) =~= before.push(channel@));
        let ghost more = tx_page_from(response@, starting_channel as int, i + 1);
        assert(before + (seq![channel@] + more) =~= before.push(channel@) + more);
        i = i + 1;
    }
    assert(tx_models(out@) + Seq::<TxModel>::empty() =~= tx_models(out@));
    out
}

/// The names that users gave to transmit channels, from record `i` of a page on. A name that is
/// not text is left out; the first channel 0 ends the page.
pub open spec fn friendly_page_from(response: Seq<u8>, i: int) -> Seq<(u16, Seq<char>)>
    decreases 32 - i,
{
    let at = record_at(i, 6);
    if i >= 32 || at + 6 > response.len() {
        seq![]
    } else {
        let number = bytes::u16_at(response, at + 2);
        if number == 0 {
            seq![]
        } else {
            let more = friendly_page_from(response, i + 1);
            match pointed_text(response, bytes::u16_at(response, at + 4)) {
                Some(name) => seq![(number as u16, name)] + more,
                None => more,
            }
        }
    }
}

/// Reads a page of the names that users gave to transmit channels.
pub fn parse_tx_friendly_page(response: &[u8]) -> (r: Vec<(u16, String)>)
    ensures
        name_models(r@) == friendly_page_from(response@, 0),
        r@.len() <= 32,
{
    let mut out: Vec<(u16, String)> = Vec::new();
    let ghost whole = friendly_page_from(response@, 0);
    let mut i: usize = 0;
    assert(name_models(out@) + whole =~= whole);
    while i < 32
        invariant
            i <= 32,
            out@.len() <= i,
            whole == friendly_page_from(response@, 0),
            name_models(out@) + friendly_page_from(response@, i as int) == whole,
        decreases 32 - i,
    {
        let ghost before = name_models(out@);
        let at: usize = 12 + i * TX_FRIENDLY_RECORD_SIZE;
        if response.len() < at + TX_FRIENDLY_RECORD_SIZE {
            assert(before + Seq::<(u16, Seq<char>)>::empty() =~= before);
            return out;
        }
        let number: u16 = read_u16(response, at + 2);
        if number == 0 {
            assert(before + Seq::<(u16, Seq<char>)>::empty() =~= before);
            return out;
        }
        let ghost more = friendly_page_from(response@, i + 1);
        if let Some(name) = string_at_pointer(response, read_u16(response, at + 4)) {
            out.push((number, name));
            assert(name_models(out@) =~= before.push((number, name@)));
            assert(before + (seq![(number, name@)] + more) =~= before.push((number, name@)) + more);
        }
        i = i + 1;
    }
    assert(name_models(out@) + Seq::<(u16, Seq<char>)>::empty() =~= name_models(out@));
    out
}

/// How many records a page of the names that users gave has, from record `i` on, those without a
/// name counted in. The first channel 0 ends the page.
pub open spec fn friendly_records(response: Seq<u8>, i: int) -> nat
    decreases 32 - i,
{
    let at = record_at(i, 6);
    if i >= 32 || at + 6 > response.len() || bytes::u16_at(response, at + 2) == 0 {
        0
    } else {
        1 + friendly_records(response, i + 1)
    }
}

fn count_friendly_records(response: &[u8]) -> (r: usize)
    ensures
        r == friendly_records(response@, 0),
{
    let mut i: usize = 0;
    while i < 32
        invariant
            i <= 32,
            i + friendly_records(response@, i as int) == friendly_records(response@, 0),
        decreases 32 - i,
    {
        let at: usize = 12 + i * TX_FRIENDLY_RECORD_SIZE;
        if response.len() < at + TX_FRIENDLY_RECORD_SIZE || read_u16(response, at + 2) == 0 {
            return i;
        }
        i = i + 1;
    }
    i
}

// ---------------------------------------------------------------------------
// Queries, one request at a time
// ---------------------------------------------------------------------------

/// What a device sends back for a request; `None` where nothing comes in time.
pub type Replies = spec_fn(Seq<u8>) -> Option<Seq<u8>>;

/// The response to a request, where one comes that belongs to it.
pub open spec fn response_to(device: Replies, request: Seq<u8>, transaction_id: u16) -> Option<
    Seq<u8>,
> {
    match device(request) {
        Some(response) => if answers(response, transaction_id) {
            Some(response)
        } else {
            None
        },
        None => None,
    }
}

/// The receive channels of a device from a page on: pages are asked for until one is missing or
/// short.
pub open spec fn rx_channels_from(device: Replies, page: int) -> Seq<RxModel>
    decreases 8 - page,
{
    if page < 0 || page >= 8 {
        seq![]
    } else {
        match response_to(device, rx_query(page as u16, (page + 1) as u16), (page + 1) as u16) {
            None => seq![],
            Some(response) => {
                let here = rx_page_from(response, page * 16 + 1, 0);
                if here.len() == 16 {
                    here + rx_channels_from(device, page + 1)
                } else {
                    here
                }
            },
        }
    }
}

/// A query of all receive channels.
pub struct RxQuery {
    page: u16,
    channels: Vec<RxChannel>,
}

impl RxQuery {
    /// The page that is asked for next; 8 or more once the query is over.
    pub closed spec fn next_page(&self) -> u16 {
        self.page
    }

    /// The channels read so far.
    pub closed spec fn read(&self) -> Seq<RxModel> {
        rx_models(self.channels@)
    }

    /// The channels that the query will have read of a device once it is over.
    pub open spec fn outcome(&self, device: Replies) -> Seq<RxModel> {
        self.read() + rx_channels_from(device, self.next_page() as int)
    }

    /// Begins a query: with the first page, and nothing read.
    pub fn new() -> (r: Self)
        ensures
            r.next_page() == 0,
            r.read() == Seq::<RxModel>::empty(),
            forall|device: Replies| #[trigger]
                r.outcome(device) == rx_channels_from(device, 0),
    {
        let r = RxQuery { page: 0, channels: Vec::new() };
        assert(r.read() =~= Seq::empty());
        assert forall|device: Replies| #[trigger]
            r.outcome(device) == rx_channels_from(device, 0) by {
            assert(r.outcome(device) =~= rx_channels_from(device, 0));
        }
        r
    }

    /// The request to send next and its transaction id; `None` once the query is over.
    pub fn next_request(&self) -> (r: Option<(u16, Vec<u8>)>)
        ensures
            match r {
                Some((id, request)) => self.next_page() < 8 && id == self.next_page() + 1
                    && request@ == rx_query(self.next_page(), id),
                None => self.next_page() >= 8,
            },
    {
        if self.page >= MAX_RX_PAGES {
            return None;
        }
        let id: u16 = self.page + 1;
        Some((id, build_rx_query(self.page, id)))
    }

    /// Takes in what came back for the request, if anything did. Whatever device it is that
    /// answered so, the query still ends with that device's channels.
    pub fn reply(&mut self, response: Option<&[u8]>)
        ensures
            forall|device: Replies|
                old(self).next_page() < 8 && device(
                    rx_query(old(self).next_page(), (old(self).next_page() + 1) as u16),
                ) == (match response {
                    Some(b) => Some(b@),
                    None => None,
                }) ==> #[trigger] final(self).outcome(device) == old(self).outcome(device),
            old(self).next_page() < 8 ==> final(self).next_page() == old(self).next_page() + 1
                || final(self).next_page() == 8,
            old(self).next_page() >= 8 ==> *final(self) == *old(self),
    {
        if self.page >= MAX_RX_PAGES {
            return;
        }
        let ghost before = self.read();
        let page: u16 = self.page;
        let mut complete: bool = false;
        let mut parsed: Vec<RxChannel> = Vec::new();
        assert(rx_models(parsed@) =~= seq![]);
        if let Some(b) = response {
            if is_answer(b, page + 1) {
                parsed = parse_rx_page(b, page * RX_CHANNELS_PER_PAGE + 1);
                complete = parsed.len() == 16;
            }
        }
        let ghost here = rx_models(parsed@);
        let ghost was = self.channels@;
        self.channels.append(&mut parsed);
        assert(self.read() =~= before + here);
        self.page = if complete {
            page + 1
        } else {
            MAX_RX_PAGES
        };
        assert forall|device: Replies|
            device(rx_query(page, (page + 1) as u16)) == (match response {
                Some(b) => Some(b@),
                None => None,
            }) implies #[trigger] self.outcome(device) == old(self).outcome(device) by {
            let more = rx_channels_from(device, page + 1);
            assert((before + here) + more =~= before + (here + more));
            assert((before + here) + Seq::<RxModel>::empty() =~= before + here);
        }
    }

    /// The channels read so far; all of them, once the query is over.
    pub fn into_channels(self) -> (r: Vec<RxChannel>)
        ensures
            rx_models(r@) == self.read(),
    {
        self.channels
    }
}

/// The names that users gave to a device's transmit channels, from a page on: pages are asked for
/// until one is missing or has too few records. A channel without such a name does not end them.
pub open spec fn friendly_names_from(device: Replies, page: int) -> Seq<(u16, Seq<char>)>
    decreases 4 - page,
{
    if page < 0 || page >= 4 {
        seq![]
    } else {
        let id = (page + 1) as u16;
        match response_to(device, tx_query(page as u16, true, id), id) {
            None => seq![],
            Some(response) => {
                let here = friendly_page_from(response, 0);
                if friendly_records(response, 0) == 32 {
                    here + friendly_names_from(device, page + 1)
                } else {
                    here
                }
            },
        }
    }
}

/// A device's transmit channels by their own names, from a page on.
pub open spec fn own_names_from(device: Replies, page: int) -> Seq<TxModel>
    decreases 4 - page,
{
    if page < 0 || page >= 4 {
        seq![]
    } else {
        let id = (4 + page + 1) as u16;
        match response_to(device, tx_query(page as u16, false, id), id) {
            None => seq![],
            Some(response) => {
                let here = tx_page_from(response, page * 32 + 1, 0);
                if here.len() == 32 {
                    here + own_names_from(device, page + 1)
                } else {
                    here
                }
            },
        }
    }
}

/// The first name that `friendly` gives to a channel.
pub open spec fn friendly_name(friendly: Seq<(u16, Seq<char>)>, number: u16) -> Option<Seq<char>>
    decreases friendly.len(),
{
    if friendly.len() == 0 {
        None
    } else if friendly[0].0 == number {
        Some(friendly[0].1)
    } else {
        friendly_name(friendly.skip(1), number)
    }
}

/// A channel under the name that the user gave it, where there is one.
pub open spec fn renamed(channel: TxModel, friendly: Seq<(u16, Seq<char>)>) -> TxModel {
    match friendly_name(friendly, channel.number) {
        Some(name) => TxModel { number: channel.number, name: Some(name) },
        None => channel,
    }
}

/// Each channel under the name that the user gave it, where there is one.
pub open spec fn all_renamed(channels: Seq<TxModel>, friendly: Seq<(u16, Seq<char>)>) -> Seq<
    TxModel,
> {
    channels.map_values(|c: TxModel| renamed(c, friendly))
}

/// The transmit channels of a device.
pub open spec fn tx_channels(device: Replies) -> Seq<TxModel> {
    all_renamed(own_names_from(device, 0), friendly_names_from(device, 0))
}

/// Which names a query of transmit channels asks for.
#[derive(Debug, Clone, Copy, PartialEq, Eq, Structural)]
pub enum TxPhase {
    /// Those that users gave.
    Friendly,
    /// The channels' own.
    Own,
    /// None: the query is over.
    Over,
}

/// A query of all transmit channels: first the names that users gave, then the channels' own.
pub struct TxQuery {
    phase: TxPhase,
    page: u16,
    friendly: Vec<(u16, String)>,
    channels: Vec<TxChannel>,
}

/// The request that a query of transmit channels sends in a phase and for a page, and its
/// transaction id.
pub open spec fn tx_request(phase: TxPhase, page: u16) -> (u16, Seq<u8>) {
    if phase == TxPhase::Friendly {
        ((page + 1) as u16, tx_query(page, true, (page + 1) as u16))
    } else {
        ((4 + page + 1) as u16, tx_query(page, false, (4 + page + 1) as u16))
    }
}

impl TxQuery {
    /// Pages are asked for while there may be more.
    pub closed spec fn wf(&self) -> bool {
        self.phase != TxPhase::Over ==> self.page < 4
    }

    pub closed spec fn next_phase(&self) -> TxPhase {
        self.phase
    }

    pub closed spec fn next_page(&self) -> u16 {
        self.page
    }

    /// The names that users gave, as far as they were read.
    pub closed spec fn names(&self) -> Seq<(u16, Seq<char>)> {
        name_models(self.friendly@)
    }

    /// The channels by their own names, as far as they were read.
    pub closed spec fn read(&self) -> Seq<TxModel> {
        tx_models(self.channels@)
    }

    /// The channels that the query will have read of a device once it is over.
    pub open spec fn outcome(&self, device: Replies) -> Seq<TxModel> {
        match self.next_phase() {
            TxPhase::Friendly => all_renamed(
                self.read() + own_names_from(device, 0),
                self.names() + friendly_names_from(device, self.next_page() as int),
            ),
            TxPhase::Own => all_renamed(
                self.read() + own_names_from(device, self.next_page() as int),
                self.names(),
            ),
            TxPhase::Over => all_renamed(self.read(), self.names()),
        }
    }

    /// Begins a query: with the first page of the names that users gave, and nothing read.
    pub fn new() -> (r: Self)
        ensures
            r.wf(),
            r.next_phase() == TxPhase::Friendly,
            r.next_page() == 0,
            r.names() == Seq::<(u16, Seq<char>)>::empty(),
            r.read() == Seq::<TxModel>::empty(),
            forall|device: Replies| #[trigger] r.outcome(device) == tx_channels(device),
    {
        let r = TxQuery {
            phase: TxPhase::Friendly,
            page: 0,
            friendly: Vec::new(),
            channels: Vec::new(),
        };
        assert(r.names() =~= Seq::empty());
        assert(r.read() =~= Seq::empty());
        assert forall|device: Replies| #[trigger] r.outcome(device) == tx_channels(device) by {
            assert(r.read() + own_names_from(device, 0) =~= own_names_from(device, 0));
            assert(r.names() + friendly_names_from(device, 0) =~= friendly_names_from(device, 0));
        }
        r
    }

    /// The request to send next and its transaction id; `None` once the query is over.
    pub fn next_request(&self) -> (r: Option<(u16, Vec<u8>)>)
        requires
            self.wf(),
        ensures
            match r {
                Some((id, request)) => self.next_phase() != TxPhase::Over && (id, request@)
                    == tx_request(self.next_phase(), self.next_page()),
                None => self.next_phase() == TxPhase::Over,
            },
    {
        match self.phase {
            TxPhase::Friendly => {
                let id: u16 = self.page + 1;
                Some((id, build_tx_query(self.page, true, id)))
            },
            TxPhase::Own => {
                let id: u16 = MAX_TX_PAGES + self.page + 1;
                Some((id, build_tx_query(self.page, false, id)))
            },
            TxPhase::Over => None,
        }
    }

    /// Takes in what came back for the request, if anything did. Whatever device it is that
    /// answered so, the query still ends with that device's channels.
    pub fn reply(&mut self, response: Option<&[u8]>)
        requires
            old(self).wf(),
        ensures
            final(self).wf(),
            forall|device: Replies|
                old(self).next_phase() != TxPhase::Over && device(
                    tx_request(old(self).next_phase(), old(self).next_page()).1,
                ) == (match response {
                    Some(b) => Some(b@),
                    None => None,
                }) ==> #[trigger] final(self).outcome(device) == old(self).outcome(device),
            match old(self).next_phase() {
                TxPhase::Friendly => final(self).next_phase() == TxPhase::Friendly
                    && final(self).next_page() == old(self).next_page() + 1
                    || final(self).next_phase() == TxPhase::Own && final(self).next_page() == 0,
                TxPhase::Own => final(self).next_phase() == TxPhase::Own && final(self).next_page()
                    == old(self).next_page() + 1 || final(self).next_phase() == TxPhase::Over,
                TxPhase::Over => *final(self) == *old(self),
            },
    {
        let ghost before = *self;
        let page: u16 = self.page;
        match self.phase {
            TxPhase::Friendly => {
                let mut complete: bool = false;
                let mut parsed: Vec<(u16, String)> = Vec::new();
                assert(name_models(parsed@) =~= seq![]);
                if let Some(b) = response {
                    if is_answer(b, page + 1) {
                        parsed = parse_tx_friendly_page(b);
                        complete = count_friendly_records(b) == 32;
                    }
                }
                let ghost here = name_models(parsed@);
                self.friendly.append(&mut parsed);
                assert(self.names() =~= before.names() + here);
                if complete && page + 1 < MAX_TX_PAGES {
                    self.page = page + 1;
                } else {
                    self.phase = TxPhase::Own;
                    self.page = 0;
                }
                assert forall|device: Replies|
                    device(tx_query(page, true, (page + 1) as u16)) == (match response {
                        Some(b) => Some(b@),
                        None => None,
                    }) implies #[trigger] self.outcome(device) == before.outcome(device) by {
                    let more = friendly_names_from(device, page + 1);
                    assert((before.names() + here) + more =~= before.names() + (here + more));
                    assert(here + Seq::<(u16, Seq<char>)>::empty() =~= here);
                }
            },
            TxPhase::Own => {
                let mut complete: bool = false;
                let mut parsed: Vec<TxChannel> = Vec::new();
                assert(tx_models(parsed@) =~= seq![]);
                if let Some(b) = response {
                    if is_answer(b, MAX_TX_PAGES + page + 1) {
                        parsed = parse_tx_info_page(b, page * TX_CHANNELS_PER_PAGE + 1);
                        complete = parsed.len() == 32;
                    }
                }
                let ghost here = tx_models(parsed@);
                self.channels.append(&mut parsed);
                assert(self.read() =~= before.read() + here);
                if complete && page + 1 < MAX_TX_PAGES {
                    self.page = page + 1;
                } else {
                    self.phase = TxPhase::Over;
                }
                assert forall|device: Replies|
                    device(tx_query(page, false, (4 + page + 1) as u16)) == (match response {
                        Some(b) => Some(b@),
                        None => None,
                    }) implies #[trigger] self.outcome(device) == before.outcome(device) by {
                    let more = own_names_from(device, page + 1);
                    assert((before.read() + here) + more =~= before.read() + (here + more));
                    assert(here + Seq::<TxModel>::empty() =~= here);
                }
            },
            TxPhase::Over => {},
        }
    }

    /// The channels, each under the name that the user gave it where there is one.
    pub fn into_channels(self) -> (r: Vec<TxChannel>)
        ensures
            tx_models(r@) == all_renamed(self.read(), self.names()),
            self.next_phase() == TxPhase::Over ==> forall|device: Replies| #[trigger]
                self.outcome(device) == tx_models(r@),
    {
        let ghost friendly = self.names();
        let mut out: Vec<TxChannel> = Vec::new();
        let mut i: usize = 0;
        while i < self.channels.len()
            invariant
                i <= self.channels.len(),
                friendly == self.names(),
                out@.len() == i,
                forall|j: int|
                    0 <= j < i ==> #[trigger] out@[j]@ == renamed(self.channels@[j]@, friendly),
            decreases self.channels.len() - i,
        {
            let number: u16 = self.channels[i].number;
            let name = match self.find_friendly(number) {
                Some(k) => Some(self.friendly[k].1.clone()),
                None => clone_opt(&self.channels[i].name),
            };
            out.push(TxChannel { number, name });
            i = i + 1;
        }
        assert(tx_models(out@) =~= all_renamed(self.read(), friendly));
        out
    }

    fn find_friendly(&self, number: u16) -> (r: Option<usize>)
        ensures
            match r {
                Some(k) => k < self.friendly@.len() && friendly_name(self.names(), number) == Some(
                    self.friendly@[k as int].1@,
                ),
                None => friendly_name(self.names(), number) is None,
            },
    {
        let ghost all = self.names();
        let mut i: usize = 0;
        assert(all.skip(0) =~= all);
        while i < self.friendly.len()
            invariant
                i <= self.friendly.len(),
                all == self.names(),
                friendly_name(all, number) == friendly_name(all.skip(i as int), number),
            decreases self.friendly.len() - i,
        {
            assert(all.skip(i as int)[0] == (
                self.friendly@[i as int].0,
                self.friendly@[i as int].1@,
            ));
            if self.friendly[i].0 == number {
                return Some(i);
            }
            assert(all.skip(i as int).skip(1) =~= all.skip(i + 1));
            i = i + 1;
        }
        None
    }
}

// ---------------------------------------------------------------------------
// Laws
// ---------------------------------------------------------------------------

/// The number in the two octets at `at`.
pub open spec fn pair_at(page: Seq<u8>, at: int) -> int {
    0x100 * page[at] + page[at + 1]
}

/// Whether these octets, none of them zero, stand at `at`, with a zero or nothing behind them.
pub open spec fn stands_at(page: Seq<u8>, at: int, octets: Seq<u8>) -> bool {
    &&& 0 < at < page.len()
    &&& at + octets.len() <= page.len()
    &&& forall|i: int| 0 <= i < octets.len() ==> #[trigger] octets[i] != 0
    &&& forall|i: int| 0 <= i < octets.len() ==> page[at + i] == #[trigger] octets[i]
    &&& at + octets.len() < page.len() ==> page[at + octets.len()] == 0
}

/// Whether a pointer gives this name, or none by being zero.
pub open spec fn names(page: Seq<u8>, pointer: int, name: Option<Seq<char>>) -> bool {
    match name {
        None => pointer == 0,
        Some(text) => stands_at(page, pointer, vstd::utf8::encode_utf8(text)),
    }
}

/// A pointer leads to the text whose octets stand there, up to the zero behind them, wherever that is.
/// It leads to none if those octets are no UTF-8, if it is zero, and if it points behind the page.
pub proof fn a_pointer_leads_to_its_text(page: Seq<u8>, pointer: int, octets: Seq<u8>, text: Seq<char>)
    ensures
        stands_at(page, pointer, octets) && vstd::utf8::valid_utf8(octets) ==> pointed_text(
            page,
            pointer,
        ) == Some(vstd::utf8::decode_utf8(octets)),
        stands_at(page, pointer, octets) && !vstd::utf8::valid_utf8(octets) ==> pointed_text(
            page,
            pointer,
        ) is None,
        stands_at(page, pointer, vstd::utf8::encode_utf8(text)) ==> pointed_text(page, pointer)
            == Some(text),
        pointer == 0 || pointer >= page.len() ==> pointed_text(page, pointer) is None,
{
    if stands_at(page, pointer, octets) {
        lemma_text_stands(page, pointer, octets);
    }
    let spelt = vstd::utf8::encode_utf8(text);
    if stands_at(page, pointer, spelt) {
        lemma_text_stands(page, pointer, spelt);
        vstd::utf8::encode_utf8_valid_utf8(text);
        vstd::utf8::encode_utf8_decode_utf8(text);
    }
}

proof fn lemma_text_stands(page: Seq<u8>, at: int, octets: Seq<u8>)
    requires
        stands_at(page, at, octets),
    ensures
        until_zero(page, at) == octets,
{
    let end = at + octets.len();
    assert forall|j: int| at <= j < end implies #[trigger] page[j] != 0 by {
        assert(page[at + (j - at)] == octets[j - at]);
    }
    lemma_until_zero(page, at, end);
    assert forall|i: int| 0 <= i < octets.len() implies page.subrange(at, end)[i] == octets[i] by {
        assert(page[at + i] == octets[i]);
    }
    assert(page.subrange(at, end) =~= octets);
}

proof fn lemma_named(page: Seq<u8>, pointer: int, name: Option<Seq<char>>)
    requires
        names(page, pointer, name),
    ensures
        pointed_text(page, pointer) == name,
{
    match name {
        None => {},
        Some(text) => {
            a_pointer_leads_to_its_text(page, pointer, seq![], text);
        },
    }
}

/// Whether the twenty octets at `at` describe a subscription: its number, the pointer to the name of
/// the transmit channel, and the pointer to the name of the device. A channel pointer of zero leaves
/// the name to a third pointer.
pub open spec fn describes_rx(page: Seq<u8>, at: int, c: RxModel) -> bool {
    &&& at + 20 <= page.len()
    &&& pair_at(page, at) == c.number
    &&& pair_at(page, at + 6) != 0 ==> names(page, pair_at(page, at + 6), c.tx_channel_name)
    &&& pair_at(page, at + 6) == 0 ==> names(page, pair_at(page, at + 10), c.tx_channel_name)
    &&& names(page, pair_at(page, at + 8), c.tx_device_name)
}

/// Whether a page lists these subscriptions: one record after the other behind twelve octets, and then
/// no record that would go on with the next number.
pub open spec fn lists_rx(page: Seq<u8>, first: int, list: Seq<RxModel>) -> bool {
    &&& list.len() <= 16
    &&& forall|i: int|
        0 <= i < list.len() ==> (#[trigger] list[i]).number == first + i && describes_rx(
            page,
            12 + 20 * i,
            list[i],
        )
    &&& list.len() == 16 || page.len() < 12 + 20 * (list.len() + 1) || pair_at(
        page,
        12 + 20 * list.len() as int,
    ) != first + list.len() || first + list.len() == 0
}

proof fn lemma_rx_record(page: Seq<u8>, at: int, c: RxModel)
    requires
        describes_rx(page, at, c),
    ensures
        rx_record(page, at) == c,
{
    let channel = if pair_at(page, at + 6) != 0 {
        pair_at(page, at + 6)
    } else {
        pair_at(page, at + 10)
    };
    lemma_named(page, channel, c.tx_channel_name);
    lemma_named(page, pair_at(page, at + 8), c.tx_device_name);
}

proof fn lemma_rx_page(page: Seq<u8>, first: int, list: Seq<RxModel>, i: int)
    requires
        first >= 1,
        lists_rx(page, first, list),
        0 <= i <= list.len(),
    ensures
        rx_page_from(page, first, i) == list.skip(i),
    decreases list.len() - i,
{
    let at = 12 + 20 * i;
    assert(record_at(i, 20) == at);
    if i < list.len() {
        assert(list[i].number == first + i && describes_rx(page, at, list[i]));
        lemma_rx_record(page, at, list[i]);
        lemma_rx_page(page, first, list, i + 1);
        assert(list.skip(i) =~= seq![list[i]] + list.skip(i + 1));
    } else {
        assert(list.skip(i) =~= Seq::<RxModel>::empty());
    }
}

/// A page of subscriptions is read back as the very list that it was laid out from, however the names
/// behind the records are arranged.
pub proof fn a_page_of_subscriptions_reads_back(page: Seq<u8>, first: u16, list: Seq<RxModel>)
    requires
        first >= 1,
        lists_rx(page, first as int, list),
    ensures
        rx_page_from(page, first as int, 0) == list,
{
    lemma_rx_page(page, first as int, list, 0);
    assert(list.skip(0) =~= list);
}

/// What is read of a record depends on nothing but its own twenty octets and the texts that they point
/// to: two pages that have these in common give the same entry.
pub proof fn a_record_speaks_for_itself(p: Seq<u8>, q: Seq<u8>, first: int, i: int)
    requires
        0 <= i < rx_page_from(p, first, 0).len(),
        i < rx_page_from(q, first, 0).len(),
        forall|k: int|
            12 + 20 * i <= k < 12 + 20 * i + 20 ==> #[trigger] p[k] == q[k],
        pointed_text(p, pair_at(p, 12 + 20 * i + 6)) == pointed_text(q, pair_at(p, 12 + 20 * i + 6)),
        pointed_text(p, pair_at(p, 12 + 20 * i + 8)) == pointed_text(q, pair_at(p, 12 + 20 * i + 8)),
        pointed_text(p, pair_at(p, 12 + 20 * i + 10)) == pointed_text(
            q,
            pair_at(p, 12 + 20 * i + 10),
        ),
    ensures
        rx_page_from(p, first, 0)[i] == rx_page_from(q, first, 0)[i],
        rx_page_from(p, first, 0)[i].number == pair_at(p, 12 + 20 * i),
        rx_page_from(p, first, 0)[i].number == first + i,
        rx_page_from(p, first, 0)[i].tx_device_name == pointed_text(
            p,
            pair_at(p, 12 + 20 * i + 8),
        ),
{
    lemma_rx_entry(p, first, 0, i);
    lemma_rx_entry(q, first, 0, i);
    let at = 12 + 20 * i;
    assert(p[at] == q[at] && p[at + 1] == q[at + 1]);
    assert(p[at + 6] == q[at + 6] && p[at + 7] == q[at + 7]);
    assert(p[at + 8] == q[at + 8] && p[at + 9] == q[at + 9]);
    assert(p[at + 10] == q[at + 10] && p[at + 11] == q[at + 11]);
}

proof fn lemma_rx_entry(page: Seq<u8>, first: int, from: int, i: int)
    requires
        0 <= from,
        0 <= i < rx_page_from(page, first, from).len(),
    ensures
        rx_page_from(page, first, from)[i] == rx_record(page, 12 + 20 * (from + i)),
        bytes::u16_at(page, 12 + 20 * (from + i)) == first + from + i,
    decreases i,
{
    assert(record_at(from, 20) == 12 + 20 * from);
    if i > 0 {
        lemma_rx_entry(page, first, from + 1, i - 1);
    }
}

/// Whether the eight octets at `at` describe a transmit channel by its own name.
pub open spec fn describes_tx(page: Seq<u8>, at: int, c: TxModel) -> bool {
    &&& at + 8 <= page.len()
    &&& pair_at(page, at) == c.number
    &&& names(page, pair_at(page, at + 6), c.name)
}

/// Whether a page lists these transmit channels, and no more.
pub open spec fn lists_tx(page: Seq<u8>, first: int, list: Seq<TxModel>) -> bool {
    &&& list.len() <= 32
    &&& forall|i: int|
        0 <= i < list.len() ==> (#[trigger] list[i]).number == first + i && describes_tx(
            page,
            12 + 8 * i,
            list[i],
        )
    &&& list.len() == 32 || page.len() < 12 + 8 * (list.len() + 1) || pair_at(
        page,
        12 + 8 * list.len() as int,
    ) != first + list.len()
}

proof fn lemma_tx_page(page: Seq<u8>, first: int, list: Seq<TxModel>, i: int)
    requires
        first >= 1,
        lists_tx(page, first, list),
        0 <= i <= list.len(),
    ensures
        tx_page_from(page, first, i) == list.skip(i),
    decreases list.len() - i,
{
    let at = 12 + 8 * i;
    assert(record_at(i, 8) == at);
    if i < list.len() {
        assert(list[i].number == first + i && describes_tx(page, at, list[i]));
        lemma_named(page, pair_at(page, at + 6), list[i].name);
        lemma_tx_page(page, first, list, i + 1);
        assert(list.skip(i) =~= seq![list[i]] + list.skip(i + 1));
    } else {
        assert(list.skip(i) =~= Seq::<TxModel>::empty());
    }
}

/// A page of transmit channels is read back as the very list that it was laid out from.
pub proof fn a_page_of_transmit_channels_reads_back(page: Seq<u8>, first: u16, list: Seq<TxModel>)
    requires
        first >= 1,
        lists_tx(page, first as int, list),
    ensures
        tx_page_from(page, first as int, 0) == list,
{
    lemma_tx_page(page, first as int, list, 0);
    assert(list.skip(0) =~= list);
}

/// Whether a page gives these names to these channels: records of six octets, with the number in the
/// second pair and the pointer in the third, and a number 0 or the end of the page behind them.
pub open spec fn lists_names(page: Seq<u8>, list: Seq<(u16, Seq<char>)>) -> bool {
    &&& list.len() <= 32
    &&& forall|i: int|
        0 <= i < list.len() ==> {
            &&& 12 + 6 * i + 6 <= page.len()
            &&& pair_at(page, 12 + 6 * i + 2) == (#[trigger] list[i]).0
            &&& list[i].0 != 0
            &&& names(page, pair_at(page, 12 + 6 * i + 4), Some(list[i].1))
        }
    &&& list.len() == 32 || page.len() < 12 + 6 * (list.len() + 1) || pair_at(
        page,
        12 + 6 * list.len() as int + 2,
    ) == 0
}

proof fn lemma_friendly_page(page: Seq<u8>, list: Seq<(u16, Seq<char>)>, i: int)
    requires
        lists_names(page, list),
        0 <= i <= list.len(),
    ensures
        friendly_page_from(page, i) == list.skip(i),
        friendly_records(page, i) == list.len() - i,
    decreases list.len() - i,
{
    let at = 12 + 6 * i;
    assert(record_at(i, 6) == at);
    if i < list.len() {
        assert(pair_at(page, at + 2) == list[i].0);
        lemma_named(page, pair_at(page, at + 4), Some(list[i].1));
        lemma_friendly_page(page, list, i + 1);
        assert(list.skip(i) =~= seq![list[i]] + list.skip(i + 1));
    } else {
        assert(list.skip(i) =~= Seq::<(u16, Seq<char>)>::empty());
    }
}

/// A page of the names that users gave is read back as the very list that it was laid out from, and as
/// having that many records.
pub proof fn a_page_of_given_names_reads_back(page: Seq<u8>, list: Seq<(u16, Seq<char>)>)
    requires
        lists_names(page, list),
    ensures
        friendly_page_from(page, 0) == list,
        friendly_records(page, 0) == list.len(),
{
    lemma_friendly_page(page, list, 0);
    assert(list.skip(0) =~= list);
}

/// A record of the names that users gave whose text cannot be read gives no name, but counts as a
/// record, and what follows it is read.
pub proof fn an_unreadable_name_is_passed_over(page: Seq<u8>, i: int)
    requires
        0 <= i < 32,
        12 + 6 * i + 6 <= page.len(),
        pair_at(page, 12 + 6 * i + 2) != 0,
        pointed_text(page, pair_at(page, 12 + 6 * i + 4)) is None,
    ensures
        friendly_page_from(page, i) == friendly_page_from(page, i + 1),
        friendly_records(page, i) == friendly_records(page, i + 1) + 1,
{
    assert(record_at(i, 6) == 12 + 6 * i);
}

/// A device's name is what stands between ten octets of header and the last octet.
pub proof fn a_device_name_reads_back(header: Seq<u8>, name: Seq<char>, last: u8, octets: Seq<u8>)
    requires
        header.len() == 10,
    ensures
        device_name(header + vstd::utf8::encode_utf8(name) + seq![last]) == Some(name),
        octets.len() <= 10 ==> device_name(octets) is None,
{
    let spelt = vstd::utf8::encode_utf8(name);
    let s = header + spelt + seq![last];
    assert(s.subrange(10, s.len() - 1) =~= spelt);
    vstd::utf8::encode_utf8_valid_utf8(name);
    vstd::utf8::encode_utf8_decode_utf8(name);
}

/// The requests, octet by octet. A page of receive channels begins sixteen channels behind the one
/// before it, a page of transmit channels thirty-two.
pub proof fn requests_are_these_octets(page: u16, id: u16)
    ensures
        page < 4095 ==> rx_query(page, id) == seq![
            0x27u8, 0xff, 0, 16,
            (id / 256) as u8, (id % 256) as u8, 0x30, 0x00,
            0, 0, 0, 1,
            ((16 * page + 1) / 256) as u8, ((16 * page + 1) % 256) as u8, 0, 0,
        ],
        page < 2047 ==> tx_query(page, false, id) == seq![
            0x27u8, 0xff, 0, 16,
            (id / 256) as u8, (id % 256) as u8, 0x20, 0x00,
            0, 0, 0, 1,
            ((32 * page + 1) / 256) as u8, ((32 * page + 1) % 256) as u8, 0, 0,
        ],
        page < 2047 ==> tx_query(page, true, id) == seq![
            0x27u8, 0xff, 0, 16,
            (id / 256) as u8, (id % 256) as u8, 0x20, 0x10,
            0, 0, 0, 1,
            ((32 * page + 1) / 256) as u8, ((32 * page + 1) % 256) as u8, 0, 0,
        ],
        packet(OPCODE_DEVICE_NAME, seq![0u8, 0u8], id) == seq![
            0x27u8, 0xff, 0, 10,
            (id / 256) as u8, (id % 256) as u8, 0x10, 0x02,
            0, 0,
        ],
{
    if page < 4095 {
        assert(rx_query(page, id).len() == 16);
    }
}

/// Whether a device, asked for a page under the number of the request, answers with a page for which
/// `good` holds.
pub open spec fn replies_with(
    device: Replies,
    request: Seq<u8>,
    id: int,
    good: spec_fn(Seq<u8>) -> bool,
) -> bool {
    device(request) matches Some(page) && page.len() >= 6 && pair_at(page, 4) == id && good(page)
}

/// The part of a list that a page of `size` entries holds.
pub open spec fn on_page<A>(all: Seq<A>, page: int, size: int) -> Seq<A> {
    if all.len() <= page * size {
        seq![]
    } else if all.len() <= page * size + size {
        all.skip(page * size)
    } else {
        all.subrange(page * size, page * size + size)
    }
}

/// A device that answers every request for a page with the subscriptions of that page is read whole,
/// whatever number of channels it has up to 128.
pub proof fn all_subscriptions_are_read(device: Replies, channels: Seq<RxModel>)
    requires
        channels.len() <= 128,
        forall|page: u16|
            page < 8 ==> replies_with(
                device,
                #[trigger] rx_query(page, (page + 1) as u16),
                page + 1,
                |octets: Seq<u8>|
                    lists_rx(octets, 16 * page + 1, on_page(channels, page as int, 16)),
            ),
    ensures
        rx_channels_from(device, 0) == channels,
{
    lemma_rx_pages(device, channels, 0);
    assert(channels.skip(0) =~= channels);
}

proof fn lemma_rx_pages(device: Replies, channels: Seq<RxModel>, page: int)
    requires
        channels.len() <= 128,
        0 <= page <= 8,
        16 * page <= channels.len(),
        forall|p: u16|
            p < 8 ==> replies_with(
                device,
                #[trigger] rx_query(p, (p + 1) as u16),
                p + 1,
                |octets: Seq<u8>| lists_rx(octets, 16 * p + 1, on_page(channels, p as int, 16)),
            ),
    ensures
        rx_channels_from(device, page) == channels.skip(16 * page),
    decreases 8 - page,
{
    if page < 8 {
        let p = page as u16;
        let request = rx_query(p, (p + 1) as u16);
        let octets = device(request)->Some_0;
        let here = on_page(channels, page, 16);
        assert(lists_rx(octets, 16 * page + 1, here));
        a_page_of_subscriptions_reads_back(octets, (16 * page + 1) as u16, here);
        assert(answers(octets, (page + 1) as u16));
        if here.len() == 16 {
            lemma_rx_pages(device, channels, page + 1);
            assert(here + channels.skip(16 * (page + 1)) =~= channels.skip(16 * page));
        } else {
            assert(here =~= channels.skip(16 * page));
        }
    } else {
        assert(channels.skip(16 * page) =~= Seq::<RxModel>::empty());
    }
}

/// A device that answers every request for a page with the transmit channels of that page, and with the
/// names that users gave, is read whole: up to 128 channels, each under the first name given to it,
/// or else under its own.
pub proof fn all_transmit_channels_are_read(
    device: Replies,
    channels: Seq<TxModel>,
    given: Seq<(u16, Seq<char>)>,
    i: int,
)
    requires
        channels.len() <= 128,
        given.len() <= 128,
        forall|page: u16|
            page < 4 ==> replies_with(
                device,
                #[trigger] tx_query(page, false, (page + 5) as u16),
                page + 5,
                |octets: Seq<u8>|
                    lists_tx(octets, 32 * page + 1, on_page(channels, page as int, 32)),
            ),
        forall|page: u16|
            page < 4 ==> replies_with(
                device,
                #[trigger] tx_query(page, true, (page + 1) as u16),
                page + 1,
                |octets: Seq<u8>| lists_names(octets, on_page(given, page as int, 32)),
            ),
        0 <= i < channels.len(),
    ensures
        tx_channels(device).len() == channels.len(),
        tx_channels(device)[i].number == channels[i].number,
        (forall|k: int| 0 <= k < given.len() ==> (#[trigger] given[k]).0 != channels[i].number)
            ==> tx_channels(device)[i].name == channels[i].name,
        forall|k: int|
            0 <= k < given.len() && (#[trigger] given[k]).0 == channels[i].number && (forall|
                j: int,
            |
                0 <= j < k ==> (#[trigger] given[j]).0 != channels[i].number) ==> tx_channels(
                device,
            )[i].name == Some(given[k].1),
{
    lemma_own_pages(device, channels, 0);
    lemma_given_pages(device, given, 0);
    assert(channels.skip(0) =~= channels);
    assert(given.skip(0) =~= given);
    if forall|k: int| 0 <= k < given.len() ==> (#[trigger] given[k]).0 != channels[i].number {
        lemma_no_name(given, channels[i].number);
    }
    assert forall|k: int|
        0 <= k < given.len() && (#[trigger] given[k]).0 == channels[i].number && (forall|j: int|
            0 <= j < k ==> (#[trigger] given[j]).0 != channels[i].number) implies tx_channels(
        device,
    )[i].name == Some(given[k].1) by {
        lemma_first_name(given, channels[i].number, k);
    }
}

proof fn lemma_own_pages(device: Replies, channels: Seq<TxModel>, page: int)
    requires
        channels.len() <= 128,
        0 <= page <= 4,
        32 * page <= channels.len(),
        forall|p: u16|
            p < 4 ==> replies_with(
                device,
                #[trigger] tx_query(p, false, (p + 5) as u16),
                p + 5,
                |octets: Seq<u8>| lists_tx(octets, 32 * p + 1, on_page(channels, p as int, 32)),
            ),
    ensures
        own_names_from(device, page) == channels.skip(32 * page),
    decreases 4 - page,
{
    if page < 4 {
        let p = page as u16;
        let request = tx_query(p, false, (p + 5) as u16);
        let octets = device(request)->Some_0;
        let here = on_page(channels, page, 32);
        assert(lists_tx(octets, 32 * page + 1, here));
        a_page_of_transmit_channels_reads_back(octets, (32 * page + 1) as u16, here);
        assert(answers(octets, (page + 5) as u16));
        if here.len() == 32 {
            lemma_own_pages(device, channels, page + 1);
            assert(here + channels.skip(32 * (page + 1)) =~= channels.skip(32 * page));
        } else {
            assert(here =~= channels.skip(32 * page));
        }
    } else {
        assert(channels.skip(32 * page) =~= Seq::<TxModel>::empty());
    }
}

proof fn lemma_given_pages(device: Replies, given: Seq<(u16, Seq<char>)>, page: int)
    requires
        given.len() <= 128,
        0 <= page <= 4,
        32 * page <= given.len(),
        forall|p: u16|
            p < 4 ==> replies_with(
                device,
                #[trigger] tx_query(p, true, (p + 1) as u16),
                p + 1,
                |octets: Seq<u8>| lists_names(octets, on_page(given, p as int, 32)),
            ),
    ensures
        friendly_names_from(device, page) == given.skip(32 * page),
    decreases 4 - page,
{
    if page < 4 {
        let p = page as u16;
        let request = tx_query(p, true, (p + 1) as u16);
        let octets = device(request)->Some_0;
        let here = on_page(given, page, 32);
        assert(lists_names(octets, here));
        a_page_of_given_names_reads_back(octets, here);
        assert(answers(octets, (page + 1) as u16));
        if here.len() == 32 {
            lemma_given_pages(device, given, page + 1);
            assert(here + given.skip(32 * (page + 1)) =~= given.skip(32 * page));
        } else {
            assert(here =~= given.skip(32 * page));
        }
    } else {
        assert(given.skip(32 * page) =~= Seq::<(u16, Seq<char>)>::empty());
    }
}

proof fn lemma_no_name(given: Seq<(u16, Seq<char>)>, number: u16)
    requires
        forall|k: int| 0 <= k < given.len() ==> (#[trigger] given[k]).0 != number,
    ensures
        friendly_name(given, number) is None,
    decreases given.len(),
{
    if given.len() > 0 {
        assert(given[0].0 != number);
        assert forall|k: int| 0 <= k < given.skip(1).len() implies (#[trigger] given.skip(1)[k]).0
            != number by {
            assert(given.skip(1)[k] == given[k + 1]);
        }
        lemma_no_name(given.skip(1), number);
    }
}

proof fn lemma_first_name(given: Seq<(u16, Seq<char>)>, number: u16, k: int)
    requires
        0 <= k < given.len(),
        given[k].0 == number,
        forall|j: int| 0 <= j < k ==> (#[trigger] given[j]).0 != number,
    ensures
        friendly_name(given, number) == Some(given[k].1),
    decreases k,
{
    if k > 0 {
        assert(given[0].0 != number);
        let tail = given.skip(1);
        assert(tail[k - 1] == given[k]);
        assert forall|j: int| 0 <= j < k - 1 implies (#[trigger] tail[j]).0 != number by {
            assert(tail[j] == given[j + 1]);
        }
        lemma_first_name(tail, number, k - 1);
    }
}

} // verus!
