//! dLive mix racks: MIDI over TCP. A preamp is addressed by its physical socket, not by the channel
//! that the socket is patched to. Gain is a pitchbend message whose two data octets are the socket
//! and the gain; pad and phantom power are SysEx. A status octet that repeats may be left out.
use vstd::prelude::*;

use crate::allen_heath;
use crate::allen_heath::{
    bool_to_byte, byte_to_bool, Channels, EventModel, Readout, ReadoutEvent, Update,
};
use crate::bridge::adapter::{AdapterError, AdapterErrorModel, DeviceInfo};
use crate::bytes;
use crate::bytes::{find_octet, push_all};

verus! {

pub const OP_GET_PAD: u8 = 0x07;

pub const OP_PAD_STATUS: u8 = 0x08;

pub const OP_GET_48V: u8 = 0x0A;

pub const OP_48V_STATUS: u8 = 0x0B;

pub const OP_SET_48V: u8 = 0x0C;

/// The general template for reading a parameter.
pub const OP_GET_GAIN: u8 = 0x0B;

pub const PARAM_GAIN: u8 = 0x19;

/// The MIDI channel of preamp control. It can be set on the console; this is its default.
pub const MIDI_N: u8 = 0x00;

/// What every SysEx message begins with.
pub open spec fn sysex_header() -> Seq<u8> {
    seq![0xf0u8, 0x00, 0x00, 0x1a, 0x50, 0x10, 0x01, 0x00]
}

fn header() -> (r: Vec<u8>)
    ensures
        r@ == sysex_header(),
{
    let mut out: Vec<u8> = Vec::new();
    out.push(0xF0);
    out.push(0x00);
    out.push(0x00);
    out.push(0x1A);
    out.push(0x50);
    out.push(0x10);
    out.push(0x01);
    out.push(0x00);
    assert(out@ =~= sysex_header());
    out
}

// ---------------------------------------------------------------------------
// Framing
// ---------------------------------------------------------------------------

/// How many data octets follow a channel message's status; `None` where it is the status of none.
pub open spec fn data_len(status: u8) -> Option<int> {
    if 0x80 <= status < 0xc0 || 0xe0 <= status < 0xf0 {
        Some(2)
    } else if 0xc0 <= status < 0xe0 {
        Some(1)
    } else {
        None
    }
}

/// How many data octets follow a channel message's status.
pub fn channel_msg_data_len(status: u8) -> (r: Option<usize>)
    ensures
        match r {
            Some(n) => data_len(status) == Some(n as int),
            None => data_len(status) is None,
        },
{
    if (status >= 0x80 && status < 0xC0) || (status >= 0xE0 && status < 0xF0) {
        Some(2)
    } else if status >= 0xC0 && status < 0xE0 {
        Some(1)
    } else {
        None
    }
}

/// A stream that is being read: what is not yet part of a message, and the status that the next
/// message has if it leaves its own out.
#[verifier::ext_equal]
pub struct StreamModel {
    pub buf: Seq<u8>,
    pub running: Option<u8>,
}

/// The first message of a stream, its status always in it, and what is left; `None` while no
/// message is whole. Octets that can begin no message are dropped.
pub open spec fn next(s: StreamModel) -> (Option<Seq<u8>>, StreamModel)
    decreases s.buf.len(),
{
    if s.buf.len() == 0 {
        (None, s)
    } else {
        let first = s.buf[0];
        let dropped = StreamModel { buf: s.buf.skip(1), running: s.running };
        if first == 0xf0 {
            match bytes::first_octet(s.buf, 0xf7) {
                Some(end) => (
                    Some(s.buf.take(end + 1)),
                    StreamModel { buf: s.buf.skip(end + 1), running: None },
                ),
                None => (None, s),
            }
        } else if first >= 0x80 {
            match data_len(first) {
                Some(n) => if s.buf.len() < 1 + n {
                    (None, s)
                } else {
                    (
                        Some(s.buf.take(1 + n)),
                        StreamModel { buf: s.buf.skip(1 + n), running: Some(first) },
                    )
                },
                None => next(dropped),
            }
        } else {
            match s.running {
                Some(status) => match data_len(status) {
                    Some(n) => if s.buf.len() < n {
                        (None, s)
                    } else {
                        (
                            Some(seq![status] + s.buf.take(n)),
                            StreamModel { buf: s.buf.skip(n), running: s.running },
                        )
                    },
                    None => next(dropped),
                },
                None => next(dropped),
            }
        }
    }
}

/// The whole messages of a stream.
pub open spec fn messages(s: StreamModel) -> Seq<Seq<u8>>
    decreases s.buf.len(),
{
    match next(s) {
        (Some(message), rest) => if rest.buf.len() < s.buf.len() {
            seq![message] + messages(rest)
        } else {
            seq![]
        },
        (None, _) => seq![],
    }
}

/// What is left of a stream after its whole messages.
pub open spec fn left(s: StreamModel) -> StreamModel
    decreases s.buf.len(),
{
    match next(s) {
        (Some(message), rest) => if rest.buf.len() < s.buf.len() {
            left(rest)
        } else {
            s
        },
        (None, rest) => rest,
    }
}

/// A stream with more octets read.
pub open spec fn with_more(s: StreamModel, more: Seq<u8>) -> StreamModel {
    StreamModel { buf: s.buf + more, running: s.running }
}

proof fn lemma_next_shrinks(s: StreamModel)
    ensures
        next(s).1.buf.len() <= s.buf.len(),
        next(s).0 is Some ==> next(s).1.buf.len() < s.buf.len(),
    decreases s.buf.len(),
{
    if s.buf.len() > 0 {
        bytes::first_octet_is_first(s.buf, 0xf7);
        lemma_next_shrinks(StreamModel { buf: s.buf.skip(1), running: s.running });
    }
}

proof fn lemma_next_of_more(s: StreamModel, more: Seq<u8>)
    ensures
        match next(s) {
            (Some(message), rest) => next(with_more(s, more)) == (
                Some(message),
                with_more(rest, more),
            ),
            (None, rest) => next(with_more(s, more)) == next(with_more(rest, more)),
        },
    decreases s.buf.len(),
{
    if s.buf.len() > 0 {
        let all = s.buf + more;
        let first = s.buf[0];
        assert(all[0] == first);
        let dropped = StreamModel { buf: s.buf.skip(1), running: s.running };
        assert(all.skip(1) =~= s.buf.skip(1) + more);
        if first == 0xf0 {
            if let Some(end) = bytes::first_octet(s.buf, 0xf7) {
                bytes::first_octet_of_more(s.buf, more, 0xf7);
                bytes::first_octet_is_first(s.buf, 0xf7);
                assert(all.take(end + 1) =~= s.buf.take(end + 1));
                assert(all.skip(end + 1) =~= s.buf.skip(end + 1) + more);
            }
        } else if first >= 0x80 {
            match data_len(first) {
                Some(n) => {
                    if s.buf.len() >= 1 + n {
                        assert(all.take(1 + n) =~= s.buf.take(1 + n));
                        assert(all.skip(1 + n) =~= s.buf.skip(1 + n) + more);
                    }
                },
                None => {
                    lemma_next_of_more(dropped, more);
                },
            }
        } else {
            match s.running {
                Some(status) => match data_len(status) {
                    Some(n) => {
                        if s.buf.len() >= n {
                            assert(all.take(n) =~= s.buf.take(n));
                            assert(all.skip(n) =~= s.buf.skip(n) + more);
                        }
                    },
                    None => {
                        lemma_next_of_more(dropped, more);
                    },
                },
                None => {
                    lemma_next_of_more(dropped, more);
                },
            }
        }
    }
}

/// A stream may be cut anywhere. The messages that came whole with the first part, and those that
/// are found once the second part was added to the remainder, are the messages of the stream.
pub proof fn a_stream_may_be_cut_anywhere(s: StreamModel, second: Seq<u8>)
    ensures
        messages(with_more(s, second)) == messages(s) + messages(with_more(left(s), second)),
        left(with_more(s, second)) == left(with_more(left(s), second)),
    decreases s.buf.len(),
{
    let all = with_more(s, second);
    lemma_next_of_more(s, second);
    lemma_next_shrinks(s);
    lemma_next_shrinks(all);
    match next(s) {
        (Some(message), rest) => {
            a_stream_may_be_cut_anywhere(rest, second);
            let late = messages(with_more(left(rest), second));
            assert((seq![message] + messages(rest)) + late =~= seq![message] + (messages(rest)
                + late));
        },
        (None, rest) => {
            lemma_next_shrinks(with_more(rest, second));
            assert(left(s) == rest);
            assert(messages(all) == messages(with_more(rest, second)));
            assert(left(all) == left(with_more(rest, second)));
            assert(messages(s) + messages(all) =~= messages(all));
        },
    }
}

/// A message that leaves its status out means what it would mean with the status of the message
/// before it.
pub proof fn an_omitted_status_is_the_last_one(
    status: u8,
    first: Seq<u8>,
    second: Seq<u8>,
    running: Option<u8>,
)
    requires
        0x80 <= status < 0xf0,
        first.len() == data_len(status)->Some_0,
        second.len() == data_len(status)->Some_0,
        second[0] < 0x80,
    ensures
        messages(StreamModel { buf: seq![status] + first + second, running }) == seq![
            seq![status] + first,
            seq![status] + second,
        ],
{
    let n = data_len(status)->Some_0;
    let all = StreamModel { buf: seq![status] + first + second, running };
    let rest = StreamModel { buf: second, running: Some(status) };
    let end = StreamModel { buf: seq![], running: Some(status) };
    assert(all.buf[0] == status);
    assert(all.buf.take(1 + n) =~= seq![status] + first);
    assert(all.buf.skip(1 + n) =~= second);
    assert(next(all) == (Some(seq![status] + first), rest));
    assert(second.take(n) =~= second);
    assert(second.skip(n) =~= seq![]);
    assert(next(rest) == (Some(seq![status] + second), end));
    assert(messages(end) =~= seq![]);
    assert(messages(rest) =~= seq![seq![status] + second]);
    assert(messages(all) =~= seq![seq![status] + first, seq![status] + second]);
}

/// Splits a stream of octets into MIDI messages.
#[derive(Debug, Clone)]
pub struct MidiStreamParser {
    buf: Vec<u8>,
    running_status: Option<u8>,
}

impl View for MidiStreamParser {
    type V = StreamModel;

    closed spec fn view(&self) -> StreamModel {
        StreamModel { buf: self.buf@, running: self.running_status }
    }
}

impl MidiStreamParser {
    pub fn new() -> (r: Self)
        ensures
            r@ == (StreamModel { buf: seq![], running: None }),
    {
        MidiStreamParser { buf: Vec::new(), running_status: None }
    }

    /// Takes in what was read.
    pub fn push(&mut self, data: &[u8])
        ensures
            final(self)@ == with_more(old(self)@, data@),
    {
        push_all(&mut self.buf, data);
    }

    fn take_out(&mut self, n: usize) -> (r: Vec<u8>)
        requires
            n <= old(self)@.buf.len(),
        ensures
            r@ == old(self)@.buf.take(n as int),
            final(self)@ == (StreamModel {
                buf: old(self)@.buf.skip(n as int),
                running: old(self)@.running,
            }),
    {
        let len: usize = self.buf.len();
        let message = vstd::slice::slice_to_vec(
            vstd::slice::slice_subrange(self.buf.as_slice(), 0, n),
        );
        let rest = vstd::slice::slice_to_vec(
            vstd::slice::slice_subrange(self.buf.as_slice(), n, len),
        );
        assert(message@ =~= self.buf@.take(n as int));
        assert(rest@ =~= self.buf@.skip(n as int));
        self.buf = rest;
        message
    }

    /// Takes out the first whole message, with its status in it even where it was left out.
    pub fn next_message(&mut self) -> (r: Option<Vec<u8>>)
        ensures
            match r {
                Some(m) => next(old(self)@).0 == Some(m@) && final(self)@.buf.len() < old(
                    self,
                )@.buf.len(),
                None => next(old(self)@).0 is None,
            },
            final(self)@ == next(old(self)@).1,
    {
        proof {
            lemma_next_shrinks(self@);
        }
        loop
            invariant
                next(self@) == next(old(self)@),
                next(old(self)@).0 is Some ==> next(old(self)@).1.buf.len() < old(
                    self,
                )@.buf.len(),
            decreases self@.buf.len(),
        {
            if self.buf.len() == 0 {
                return None;
            }
            let first: u8 = self.buf[0];
            if first == 0xF0 {
                match find_octet(self.buf.as_slice(), 0xF7) {
                    Some(end) => {
                        let message = self.take_out(end + 1);
                        self.running_status = None;
                        return Some(message);
                    },
                    None => {
                        return None;
                    },
                }
            }
            if first >= 0x80 {
                match channel_msg_data_len(first) {
                    Some(n) => {
                        if self.buf.len() < 1 + n {
                            return None;
                        }
                        let message = self.take_out(1 + n);
                        self.running_status = Some(first);
                        return Some(message);
                    },
                    None => {
                        let _dropped = self.take_out(1);
                        continue;
                    },
                }
            }
            let status: u8 = match self.running_status {
                Some(status) => status,
                None => {
                    let _dropped = self.take_out(1);
                    continue;
                },
            };
            match channel_msg_data_len(status) {
                Some(n) => {
                    if self.buf.len() < n {
                        return None;
                    }
                    let data = self.take_out(n);
                    let mut message: Vec<u8> = Vec::new();
                    message.push(status);
                    push_all(&mut message, data.as_slice());
                    assert(message@ =~= seq![status] + data@);
                    return Some(message);
                },
                None => {
                    let _dropped = self.take_out(1);
                },
            }
        }
    }
}

// ---------------------------------------------------------------------------
// Messages
// ---------------------------------------------------------------------------

/// Whether a channel is a socket: 64 on the rack and 32 on each of the two expander ports.
pub open spec fn is_socket(channel: u16) -> bool {
    1 <= channel <= 128
}

/// The channel that a socket number stands for.
pub open spec fn channel_of(mp: u8) -> Option<u16> {
    if mp < 0x80 {
        Some((mp + 1) as u16)
    } else {
        None
    }
}

/// The update that a message brings, and the channel that it is of.
pub open spec fn update_in(msg: Seq<u8>) -> Option<(u16, Update)> {
    if msg.len() == 3 && 0xe0 <= msg[0] < 0xf0 {
        match channel_of(msg[1]) {
            Some(channel) => Some((channel, Update::Gain(msg[2]))),
            None => None,
        }
    } else if msg.len() == 13 && msg.take(8) == sysex_header() && msg[12] == 0xf7 {
        match channel_of(msg[10]) {
            Some(channel) => if msg[9] == OP_48V_STATUS {
                Some((channel, Update::Phantom(msg[11] >= 0x40)))
            } else if msg[9] == OP_PAD_STATUS {
                Some((channel, Update::Pad(msg[11] >= 0x40)))
            } else {
                None
            },
            None => None,
        }
    } else {
        None
    }
}

fn has_header(msg: &[u8]) -> (r: bool)
    requires
        msg@.len() >= 8,
    ensures
        r == (msg@.take(8) == sysex_header()),
{
    let expected = header();
    let mut i: usize = 0;
    while i < 8
        invariant
            i <= 8,
            msg@.len() >= 8,
            expected@ == sysex_header(),
            forall|j: int| 0 <= j < i ==> #[trigger] msg@[j] == sysex_header()[j],
        decreases 8 - i,
    {
        if msg[i] != expected[i] {
            assert(msg@.take(8)[i as int] != sysex_header()[i as int]);
            return false;
        }
        i = i + 1;
    }
    assert(msg@.take(8) =~= sysex_header());
    true
}

/// Reads the update that a message brings, and the channel that it is of.
pub fn parse_message(msg: &[u8]) -> (r: Option<(u16, Update)>)
    ensures
        r == update_in(msg@),
{
    if msg.len() == 3 && msg[0] >= 0xE0 && msg[0] < 0xF0 {
        match DliveAdapter::channel_from_socket(msg[1]) {
            Some(channel) => Some((channel, Update::Gain(msg[2]))),
            None => None,
        }
    } else if msg.len() == 13 && has_header(msg) && msg[12] == 0xF7 {
        match DliveAdapter::channel_from_socket(msg[10]) {
            Some(channel) => {
                if msg[9] == OP_48V_STATUS {
                    Some((channel, Update::Phantom(byte_to_bool(msg[11]))))
                } else if msg[9] == OP_PAD_STATUS {
                    Some((channel, Update::Pad(byte_to_bool(msg[11]))))
                } else {
                    None
                }
            },
            None => None,
        }
    } else {
        None
    }
}

/// The events that messages bring, and what is then known of the channels.
pub open spec fn events_of(
    id: Seq<char>,
    channels: Map<u16, Readout>,
    msgs: Seq<Seq<u8>>,
) -> (Seq<EventModel>, Map<u16, Readout>)
    decreases msgs.len(),
{
    if msgs.len() == 0 {
        (seq![], channels)
    } else {
        match update_in(msgs[0]) {
            None => events_of(id, channels, msgs.skip(1)),
            Some((channel, update)) => {
                let event = allen_heath::event_of(id, channels, channel, update);
                let (more, after) = events_of(
                    id,
                    channels.insert(channel, event.state),
                    msgs.skip(1),
                );
                (seq![event] + more, after)
            },
        }
    }
}

/// A SysEx message about a socket.
pub open spec fn sysex(opcode: u8, mp: u8, value: Option<u8>) -> Seq<u8> {
    sysex_header() + seq![MIDI_N, opcode, mp] + (match value {
        Some(v) => seq![v],
        None => seq![],
    }) + seq![0xf7u8]
}

/// The request for a socket's gain. It addresses a processing channel, which is taken to have the
/// socket's number.
pub open spec fn gain_query(mp: u8) -> Seq<u8> {
    sysex_header() + seq![MIDI_N, 0x05u8, OP_GET_GAIN, PARAM_GAIN, mp, 0xf7u8]
}

// ---------------------------------------------------------------------------
// The adapter
// ---------------------------------------------------------------------------

/// A mix rack's adapter.
#[derive(Debug, Clone)]
pub struct DliveAdapter {
    id: String,
    parser: MidiStreamParser,
    channels: Channels,
}

impl DliveAdapter {
    pub closed spec fn name(&self) -> Seq<char> {
        self.id@
    }

    /// The stream as far as it is not yet part of a message.
    pub closed spec fn pending(&self) -> StreamModel {
        self.parser@
    }

    /// What is known of the channels.
    pub closed spec fn known(&self) -> Map<u16, Readout> {
        self.channels@
    }

    pub fn new(id: &str) -> (r: Self)
        ensures
            r.name() == id@,
            r.pending() == (StreamModel { buf: seq![], running: None }),
            r.known() == Map::<u16, Readout>::empty(),
    {
        DliveAdapter {
            id: id.to_owned(),
            parser: MidiStreamParser::new(),
            channels: Channels::new(),
        }
    }

    pub fn id(&self) -> (r: &str)
        ensures
            r@ == self.name(),
    {
        self.id.as_str()
    }

    /// The socket that a channel stands for.
    pub fn socket_number(channel: u16) -> (r: Result<u8, AdapterError>)
        ensures
            match r {
                Ok(mp) => is_socket(channel) && mp == channel - 1,
                Err(e) => !is_socket(channel) && e@ == AdapterErrorModel::UnsupportedChannel(
                    channel,
                ),
            },
    {
        if channel >= 1 && channel <= 128 {
            Ok((channel - 1) as u8)
        } else {
            Err(AdapterError::UnsupportedChannel(channel))
        }
    }

    /// The channel that a socket number stands for; `None` where it is no MIDI data octet.
    pub fn channel_from_socket(mp: u8) -> (r: Option<u16>)
        ensures
            r == channel_of(mp),
    {
        if mp < 0x80 {
            Some(mp as u16 + 1)
        } else {
            None
        }
    }

    fn sysex(opcode: u8, mp: u8, value: Option<u8>) -> (r: Vec<u8>)
        ensures
            r@ == sysex(opcode, mp, value),
    {
        let mut msg = header();
        msg.push(MIDI_N);
        msg.push(opcode);
        msg.push(mp);
        if let Some(v) = value {
            msg.push(v);
        }
        msg.push(0xF7);
        assert(msg@ =~= sysex(opcode, mp, value));
        msg
    }

    /// Refuses: the protocol has no such query.
    pub fn identify() -> (r: Result<DeviceInfo, AdapterError>)
        ensures
            r is Err,
            r->Err_0@ == AdapterErrorModel::Protocol(
                "identify: dLive MIDI protocol has no device-identity query"@,
            ),
    {
        Err(AdapterError::protocol("identify: dLive MIDI protocol has no device-identity query"))
    }

    /// What to send to set a channel's gain, `gain` being the octet that stands for it.
    pub fn set_gain(channel: u16, gain: u8) -> (r: Result<Vec<u8>, AdapterError>)
        ensures
            match r {
                Ok(msg) => is_socket(channel) && msg@ == seq![0xe0u8, (channel - 1) as u8, gain],
                Err(e) => !is_socket(channel) && e@ == AdapterErrorModel::UnsupportedChannel(
                    channel,
                ),
            },
    {
        match Self::socket_number(channel) {
            Ok(mp) => {
                let mut msg: Vec<u8> = Vec::new();
                msg.push(0xE0);
                msg.push(mp);
                msg.push(gain);
                assert(msg@ =~= seq![0xe0u8, (channel - 1) as u8, gain]);
                Ok(msg)
            },
            Err(e) => Err(e),
        }
    }

    /// What to send to switch a channel's phantom power.
    pub fn set_phantom(channel: u16, on: bool) -> (r: Result<Vec<u8>, AdapterError>)
        ensures
            match r {
                Ok(msg) => is_socket(channel) && msg@ == sysex(
                    OP_SET_48V,
                    (channel - 1) as u8,
                    Some(allen_heath::switch_octet(on)),
                ),
                Err(e) => !is_socket(channel) && e@ == AdapterErrorModel::UnsupportedChannel(
                    channel,
                ),
            },
    {
        match Self::socket_number(channel) {
            Ok(mp) => Ok(Self::sysex(OP_SET_48V, mp, Some(bool_to_byte(on)))),
            Err(e) => Err(e),
        }
    }

    /// What to send to learn a channel's state: three messages, for phantom power, pad and gain.
    pub fn state_requests(channel: u16) -> (r: Result<Vec<Vec<u8>>, AdapterError>)
        ensures
            match r {
                Ok(msgs) => is_socket(channel) && msgs@.len() == 3 && msgs@[0]@ == sysex(
                    OP_GET_48V,
                    (channel - 1) as u8,
                    None,
                ) && msgs@[1]@ == sysex(OP_GET_PAD, (channel - 1) as u8, None) && msgs@[2]@
                    == gain_query((channel - 1) as u8),
                Err(e) => !is_socket(channel) && e@ == AdapterErrorModel::UnsupportedChannel(
                    channel,
                ),
            },
    {
        match Self::socket_number(channel) {
            Ok(mp) => {
                let mut gain = header();
                gain.push(MIDI_N);
                gain.push(0x05);
                gain.push(OP_GET_GAIN);
                gain.push(PARAM_GAIN);
                gain.push(mp);
                gain.push(0xF7);
                assert(gain@ =~= gain_query(mp));
                let mut msgs: Vec<Vec<u8>> = Vec::new();
                msgs.push(Self::sysex(OP_GET_48V, mp, None));
                msgs.push(Self::sysex(OP_GET_PAD, mp, None));
                msgs.push(gain);
                Ok(msgs)
            },
            Err(e) => Err(e),
        }
    }

    /// Whether a query of a channel is over, `polls` looks after its requests were sent.
    pub fn get_state(&self, channel: u16, polls: u32) -> (r: Option<Result<Readout, AdapterError>>)
        ensures
            match r {
                Some(Ok(state)) => self.known().contains_key(channel) && state
                    == self.known()[channel],
                Some(Err(e)) => !self.known().contains_key(channel) && polls
                    >= allen_heath::MAX_POLLS && e@ == AdapterErrorModel::Protocol(
                    allen_heath::no_reply_text(channel),
                ),
                None => !self.known().contains_key(channel) && polls < allen_heath::MAX_POLLS,
            },
    {
        self.channels.query_outcome(channel, polls)
    }

    /// Takes in what was read. Gives the events that the messages in it bring.
    pub fn receive(&mut self, data: &[u8]) -> (r: Vec<ReadoutEvent>)
        ensures
            final(self).name() == old(self).name(),
            final(self).pending() == left(with_more(old(self).pending(), data@)),
            (allen_heath::event_models(r@), final(self).known()) == events_of(
                old(self).name(),
                old(self).known(),
                messages(with_more(old(self).pending(), data@)),
            ),
    {
        self.parser.push(data);
        let ghost stream = self.pending();
        let ghost whole = events_of(old(self).name(), old(self).known(), messages(stream));
        let mut events: Vec<ReadoutEvent> = Vec::new();
        assert(allen_heath::event_models(events@) + whole.0 =~= whole.0);
        loop
            invariant
                self.name() == old(self).name(),
                stream == with_more(old(self).pending(), data@),
                whole == events_of(old(self).name(), old(self).known(), messages(stream)),
                left(self.pending()) == left(stream),
                ({
                    let (more, after) = events_of(
                        self.name(),
                        self.known(),
                        messages(self.pending()),
                    );
                    (allen_heath::event_models(events@) + more, after) == whole
                }),
            decreases self.pending().buf.len(),
        {
            let ghost before = self.pending();
            let ghost done = allen_heath::event_models(events@);
            match self.parser.next_message() {
                Some(message) => {
                    let ghost later = messages(self.pending());
                    assert(messages(before) == seq![message@] + later);
                    assert((seq![message@] + later)[0] == message@);
                    assert((seq![message@] + later).skip(1) =~= later);
                    if let Some((channel, update)) = parse_message(message.as_slice()) {
                        let event = self.channels.apply(self.id.as_str(), channel, update);
                        events.push(event);
                        proof {
                            let (more, after) = events_of(self.name(), self.known(), later);
                            assert(allen_heath::event_models(events@) =~= done.push(event@));
                            assert(done + (seq![event@] + more) =~= done.push(event@) + more);
                        }
                    }
                },
                None => {
                    assert(done + Seq::<EventModel>::empty() =~= done);
                    return events;
                },
            }
        }
    }
}

/// Channels and sockets stand for each other, one for one.
pub proof fn sockets_round_trip(channel: u16, mp: u8)
    ensures
        is_socket(channel) ==> channel_of((channel - 1) as u8) == Some(channel),
        mp < 0x80 ==> is_socket(channel_of(mp)->Some_0) && channel_of(mp)->Some_0 - 1 == mp,
{
}

/// A gain that is set is, where the device reports it in the same form, the gain that is then
/// known.
pub proof fn a_gain_reads_back(channel: u16, gain: u8)
    requires
        is_socket(channel),
    ensures
        update_in(seq![0xe0u8, (channel - 1) as u8, gain]) == Some((channel, Update::Gain(gain))),
{
}

/// A switch that is set is, where the device reports it under the status opcode, the switch that is
/// then known.
pub proof fn a_reported_switch_is_read(channel: u16, on: bool)
    requires
        is_socket(channel),
    ensures
        update_in(
            sysex(OP_48V_STATUS, (channel - 1) as u8, Some(allen_heath::switch_octet(on))),
        ) == Some((channel, Update::Phantom(on))),
        update_in(
            sysex(OP_PAD_STATUS, (channel - 1) as u8, Some(allen_heath::switch_octet(on))),
        ) == Some((channel, Update::Pad(on))),
{
    let value = Some(allen_heath::switch_octet(on));
    assert(sysex(OP_48V_STATUS, (channel - 1) as u8, value).take(8) =~= sysex_header());
    assert(sysex(OP_PAD_STATUS, (channel - 1) as u8, value).take(8) =~= sysex_header());
}

// ---------------------------------------------------------------------------
// Laws
// ---------------------------------------------------------------------------

/// The stream falls into its messages: a channel message of two data octets or of one by its status,
/// which is then the status of those that leave theirs out, and a message from 0xf0 up to the next
/// 0xf7, after which none may. An octet that can begin no message is passed over. A message that is
/// not whole stays.
pub proof fn a_stream_falls_into_its_messages(
    m: Seq<u8>,
    rest: Seq<u8>,
    running: Option<u8>,
    stray: u8,
)
    ensures
        m.len() == 3 && (0x80 <= m[0] < 0xc0 || 0xe0 <= m[0] < 0xf0) || m.len() == 2 && 0xc0 <= m[0]
            < 0xe0 ==> messages(StreamModel { buf: m + rest, running }) == seq![m] + messages(
            StreamModel { buf: rest, running: Some(m[0]) },
        ) && left(StreamModel { buf: m + rest, running }) == left(
            StreamModel { buf: rest, running: Some(m[0]) },
        ),
        m.len() >= 2 && m[0] == 0xf0 && m.last() == 0xf7 && (forall|i: int|
            0 <= i < m.len() - 1 ==> #[trigger] m[i] != 0xf7) ==> messages(
            StreamModel { buf: m + rest, running },
        ) == seq![m] + messages(StreamModel { buf: rest, running: None }) && left(
            StreamModel { buf: m + rest, running },
        ) == left(StreamModel { buf: rest, running: None }),
        stray > 0xf0 || stray < 0x80 && running is None ==> messages(
            StreamModel { buf: seq![stray] + rest, running },
        ) == messages(StreamModel { buf: rest, running }) && left(
            StreamModel { buf: seq![stray] + rest, running },
        ) == left(StreamModel { buf: rest, running }),
        0 < m.len() < 3 && (0x80 <= m[0] < 0xc0 || 0xe0 <= m[0] < 0xf0) || m.len() == 1 && 0xc0
            <= m[0] < 0xe0 ==> messages(StreamModel { buf: m, running }).len() == 0 && left(
            StreamModel { buf: m, running },
        ) == (StreamModel { buf: m, running }),
        m.len() > 0 && m[0] == 0xf0 && (forall|i: int|
            0 <= i < m.len() ==> #[trigger] m[i] != 0xf7) ==> messages(
            StreamModel { buf: m, running },
        ).len() == 0 && left(StreamModel { buf: m, running }) == (StreamModel { buf: m, running }),
        messages(StreamModel { buf: seq![], running }).len() == 0,
        left(StreamModel { buf: seq![], running }) == (StreamModel { buf: seq![], running }),
{
    let all = m + rest;
    let s = StreamModel { buf: all, running };
    if m.len() > 0 {
        assert(all[0] == m[0]);
        assert(all.take(m.len() as int) =~= m);
        assert(all.skip(m.len() as int) =~= rest);
        bytes::first_octet_is_first(all, 0xf7);
        bytes::first_octet_is_first(m, 0xf7);
        if m[0] == 0xf0 && m.len() >= 2 && m.last() == 0xf7 && (forall|i: int|
            0 <= i < m.len() - 1 ==> #[trigger] m[i] != 0xf7) {
            assert(all[m.len() - 1] == 0xf7);
            assert forall|i: int| 0 <= i < m.len() - 1 implies all[i] != 0xf7 by {
                assert(all[i] == m[i]);
            }
            assert(bytes::first_octet(all, 0xf7) == Some(m.len() - 1));
        }
    }
    let t = StreamModel { buf: seq![stray] + rest, running };
    let r = StreamModel { buf: rest, running };
    assert(t.buf[0] == stray);
    assert(t.buf.skip(1) =~= rest);
    lemma_next_shrinks(r);
    if stray > 0xf0 || stray < 0x80 && running is None {
        assert(next(t) == next(r));
    }
}

/// Whether only this one of a channel's values may differ between two states of knowledge, and no other
/// channel's.
pub open spec fn same_but_for(
    before: Map<u16, Readout>,
    after: Map<u16, Readout>,
    channel: u16,
    gain: bool,
    phantom: bool,
    pad: bool,
) -> bool {
    &&& after.contains_key(channel)
    &&& forall|c: u16|
        c != channel ==> (#[trigger] after.contains_key(c)) == before.contains_key(c)
    &&& forall|c: u16|
        c != channel && #[trigger] before.contains_key(c) ==> after[c] == before[c]
    &&& !gain && before.contains_key(channel) ==> after[channel].gain == before[channel].gain
    &&& !pad && before.contains_key(channel) ==> after[channel].pad == before[channel].pad
    &&& !phantom && before.contains_key(channel) ==> after[channel].phantom
        == before[channel].phantom
    &&& !before.contains_key(channel) ==> {
        &&& !gain ==> after[channel].gain is None
        &&& !pad ==> after[channel].pad is None
        &&& !phantom ==> !after[channel].phantom
    }
}

/// A message about a socket makes what it says of that socket known, and reports it: a pitchbend the
/// gain as its octet, a phantom status and a pad status a switch that is on from 0x40 up. Nothing else
/// of the socket changes, and nothing of any other.
pub proof fn a_received_value_is_then_known(
    id: Seq<char>,
    channels: Map<u16, Readout>,
    channel: u16,
    n: u8,
    value: u8,
)
    requires
        1 <= channel <= 128,
        n < 0x10,
    ensures
        ({
            let msg = seq![(0xe0 + n) as u8, (channel - 1) as u8, value];
            let (events, after) = events_of(id, channels, seq![msg]);
            &&& same_but_for(channels, after, channel, true, false, false)
            &&& after[channel].gain == Some(value)
            &&& events.len() == 1 && events[0].device_id == id && events[0].channel == channel
            &&& events[0].state == after[channel]
            &&& events[0].changed.gain && !events[0].changed.phantom && !events[0].changed.pad
        }),
        ({
            let msg = seq![
                0xf0u8, 0x00, 0x00, 0x1a, 0x50, 0x10, 0x01, 0x00, n, 0x0b, (channel - 1) as u8,
                value, 0xf7,
            ];
            let (events, after) = events_of(id, channels, seq![msg]);
            &&& same_but_for(channels, after, channel, false, true, false)
            &&& after[channel].phantom == (value >= 0x40)
            &&& events.len() == 1 && events[0].device_id == id && events[0].channel == channel
            &&& events[0].state == after[channel]
            &&& events[0].changed.phantom && !events[0].changed.gain && !events[0].changed.pad
        }),
        ({
            let msg = seq![
                0xf0u8, 0x00, 0x00, 0x1a, 0x50, 0x10, 0x01, 0x00, n, 0x08, (channel - 1) as u8,
                value, 0xf7,
            ];
            let (events, after) = events_of(id, channels, seq![msg]);
            &&& same_but_for(channels, after, channel, false, false, true)
            &&& after[channel].pad == Some(value >= 0x40)
            &&& events.len() == 1 && events[0].device_id == id && events[0].channel == channel
            &&& events[0].state == after[channel]
            &&& events[0].changed.pad && !events[0].changed.gain && !events[0].changed.phantom
        }),
{
    let mp = (channel - 1) as u8;
    let gain = seq![(0xe0 + n) as u8, mp, value];
    let phantom = seq![
        0xf0u8, 0x00, 0x00, 0x1a, 0x50, 0x10, 0x01, 0x00, n, 0x0b, mp, value, 0xf7,
    ];
    let pad = seq![
        0xf0u8, 0x00, 0x00, 0x1a, 0x50, 0x10, 0x01, 0x00, n, 0x08, mp, value, 0xf7,
    ];
    assert(phantom.take(8) =~= sysex_header());
    assert(pad.take(8) =~= sysex_header());
    lemma_one_message(id, channels, gain);
    lemma_one_message(id, channels, phantom);
    lemma_one_message(id, channels, pad);
}

proof fn lemma_one_message(id: Seq<char>, channels: Map<u16, Readout>, msg: Seq<u8>)
    ensures
        events_of(id, channels, seq![msg]) == (match update_in(msg) {
            None => (Seq::<EventModel>::empty(), channels),
            Some((channel, update)) => {
                let event = allen_heath::event_of(id, channels, channel, update);
                (seq![event], channels.insert(channel, event.state))
            },
        }),
{
    assert(seq![msg].skip(1) =~= Seq::<Seq<u8>>::empty());
    reveal_with_fuel(events_of, 2);
    match update_in(msg) {
        None => {},
        Some((channel, update)) => {
            let event = allen_heath::event_of(id, channels, channel, update);
            assert(seq![event] + Seq::<EventModel>::empty() =~= seq![event]);
        },
    }
}

/// Messages of any other form tell nothing.
pub proof fn other_messages_are_passed_over(
    id: Seq<char>,
    channels: Map<u16, Readout>,
    msg: Seq<u8>,
)
    requires
        msg.len() != 3 || msg[0] < 0xe0 || msg[0] > 0xef || msg[1] >= 0x80,
        msg.len() != 13 || msg[0] != 0xf0 || msg[1] != 0 || msg[2] != 0 || msg[3] != 0x1a || msg[4]
            != 0x50 || msg[5] != 0x10 || msg[6] != 0x01 || msg[7] != 0x00 || msg[9] != 0x0b
            && msg[9] != 0x08 || msg[10] >= 0x80 || msg[12] != 0xf7,
    ensures
        events_of(id, channels, seq![msg]).0.len() == 0,
        events_of(id, channels, seq![msg]).1 == channels,
{
    lemma_one_message(id, channels, msg);
    if msg.len() == 13 && msg.take(8) == sysex_header() {
        assert(msg[0] == msg.take(8)[0] && msg[1] == msg.take(8)[1]);
        assert(msg[2] == msg.take(8)[2] && msg[3] == msg.take(8)[3]);
        assert(msg[4] == msg.take(8)[4] && msg[5] == msg.take(8)[5]);
        assert(msg[6] == msg.take(8)[6] && msg[7] == msg.take(8)[7]);
    }
}

/// What is sent, octet by octet.
pub proof fn what_is_sent_are_these_octets(mp: u8, on: bool)
    ensures
        sysex(OP_SET_48V, mp, Some(allen_heath::switch_octet(on))) == seq![
            0xf0u8, 0x00, 0x00, 0x1a, 0x50, 0x10, 0x01, 0x00, 0x00, 0x0c, mp,
            if on { 0x7fu8 } else { 0x00u8 }, 0xf7,
        ],
        sysex(OP_GET_48V, mp, None) == seq![
            0xf0u8, 0x00, 0x00, 0x1a, 0x50, 0x10, 0x01, 0x00, 0x00, 0x0a, mp, 0xf7,
        ],
        sysex(OP_GET_PAD, mp, None) == seq![
            0xf0u8, 0x00, 0x00, 0x1a, 0x50, 0x10, 0x01, 0x00, 0x00, 0x07, mp, 0xf7,
        ],
        gain_query(mp) == seq![
            0xf0u8, 0x00, 0x00, 0x1a, 0x50, 0x10, 0x01, 0x00, 0x00, 0x05, 0x0b, 0x19, mp, 0xf7,
        ],
{
}

/// What is sent to set a gain, received in turn, makes just that gain known. What is sent to switch
/// phantom power makes that position known once the device reports it under its status opcode.
pub proof fn what_is_set_is_then_known(
    id: Seq<char>,
    channels: Map<u16, Readout>,
    running: Option<u8>,
    channel: u16,
    on: bool,
    gain: u8,
)
    requires
        1 <= channel <= 128,
    ensures
        ({
            let after = events_of(
                id,
                channels,
                messages(StreamModel { buf: seq![0xe0u8, (channel - 1) as u8, gain], running }),
            ).1;
            same_but_for(channels, after, channel, true, false, false) && after[channel].gain
                == Some(gain)
        }),
        ({
            let sent = sysex(
                OP_SET_48V,
                (channel - 1) as u8,
                Some(allen_heath::switch_octet(on)),
            );
            let after = events_of(
                id,
                channels,
                messages(StreamModel { buf: sent.update(9, 0x0bu8), running }),
            ).1;
            same_but_for(channels, after, channel, false, true, false) && after[channel].phantom
                == on
        }),
{
    let mp = (channel - 1) as u8;
    let octet = allen_heath::switch_octet(on);
    let msg = seq![0xe0u8, mp, gain];
    let none = Seq::<u8>::empty();
    a_stream_falls_into_its_messages(msg, none, running, 0);
    a_stream_falls_into_its_messages(none, none, Some(0xe0u8), 0);
    assert(msg + none =~= msg);
    assert(messages(StreamModel { buf: msg, running }) =~= seq![msg]);
    a_received_value_is_then_known(id, channels, channel, 0, gain);
    what_is_sent_are_these_octets(mp, on);
    let reported = sysex(OP_SET_48V, mp, Some(octet)).update(9, 0x0bu8);
    let literal = seq![
        0xf0u8, 0x00, 0x00, 0x1a, 0x50, 0x10, 0x01, 0x00, 0x00, 0x0b, mp, octet, 0xf7,
    ];
    assert(reported =~= literal);
    a_stream_falls_into_its_messages(literal, none, running, 0);
    a_stream_falls_into_its_messages(none, none, None, 0);
    assert(literal + none =~= literal);
    assert(messages(StreamModel { buf: literal, running }) =~= seq![literal]);
    a_received_value_is_then_known(id, channels, channel, 0, octet);
}

/// What the messages of two stretches bring is what those of the first bring, and then what those of
/// the second do.
pub proof fn messages_take_effect_one_after_the_other(
    id: Seq<char>,
    channels: Map<u16, Readout>,
    first: Seq<Seq<u8>>,
    second: Seq<Seq<u8>>,
)
    ensures
        ({
            let (events, after) = events_of(id, channels, first);
            let (more, later) = events_of(id, after, second);
            events_of(id, channels, first + second) == (events + more, later)
        }),
    decreases first.len(),
{
    if first.len() == 0 {
        assert(first + second =~= second);
        assert(Seq::<EventModel>::empty() + events_of(id, channels, second).0 =~= events_of(
            id,
            channels,
            second,
        ).0);
    } else {
        assert((first + second)[0] == first[0]);
        assert((first + second).skip(1) =~= first.skip(1) + second);
        match update_in(first[0]) {
            None => {
                messages_take_effect_one_after_the_other(id, channels, first.skip(1), second);
            },
            Some((channel, update)) => {
                let event = allen_heath::event_of(id, channels, channel, update);
                let next = channels.insert(channel, event.state);
                messages_take_effect_one_after_the_other(id, next, first.skip(1), second);
                let (events, after) = events_of(id, next, first.skip(1));
                let more = events_of(id, after, second).0;
                assert((seq![event] + events) + more =~= seq![event] + (events + more));
            },
        }
    }
}

} // verus!
