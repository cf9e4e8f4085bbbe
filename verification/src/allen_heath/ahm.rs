//! AHM processors: MIDI over TCP. A parameter is set by three control changes, which select the
//! channel, select the parameter and carry the value. It is asked for by SysEx, and answered by
//! three control changes of the same form.
use std::collections::HashMap;

use vstd::prelude::*;

use crate::allen_heath;
use crate::allen_heath::{
    bool_to_byte, byte_to_bool, Channels, EventModel, Readout, ReadoutEvent, Update,
};
use crate::bridge::adapter::{AdapterError, AdapterErrorModel, DeviceInfo};
use crate::bytes;
use crate::bytes::{find_octet, push_all};

verus! {

broadcast use vstd::std_specs::hash::group_hash_axioms;

pub const PARAM_GAIN: u8 = 0x19;

pub const PARAM_PAD: u8 = 0x1A;

pub const PARAM_PHANTOM: u8 = 0x1B;

/// The MIDI channel that stands for inputs.
pub const MIDI_N_INPUTS: u8 = 0x00;

// ---------------------------------------------------------------------------
// Framing
// ---------------------------------------------------------------------------

/// How long a channel message is, by its status; `None` where it is the status of none.
pub open spec fn message_len(status: u8) -> Option<int> {
    if 0x80 <= status < 0xc0 || 0xe0 <= status < 0xf0 {
        Some(3)
    } else if 0xc0 <= status < 0xe0 {
        Some(2)
    } else {
        None
    }
}

/// The first message of a stream, and what is left; `None` while no message is whole. Octets that
/// can begin no message are dropped.
pub open spec fn next(buf: Seq<u8>) -> (Option<Seq<u8>>, Seq<u8>)
    decreases buf.len(),
{
    if buf.len() == 0 {
        (None, buf)
    } else if buf[0] == 0xf0 {
        match bytes::first_octet(buf, 0xf7) {
            Some(end) => (Some(buf.take(end + 1)), buf.skip(end + 1)),
            None => (None, buf),
        }
    } else {
        match message_len(buf[0]) {
            Some(n) => if buf.len() < n {
                (None, buf)
            } else {
                (Some(buf.take(n)), buf.skip(n))
            },
            None => next(buf.skip(1)),
        }
    }
}

/// The whole messages of a stream.
pub open spec fn messages(buf: Seq<u8>) -> Seq<Seq<u8>>
    decreases buf.len(),
{
    match next(buf) {
        (Some(message), rest) => if rest.len() < buf.len() {
            seq![message] + messages(rest)
        } else {
            seq![]
        },
        (None, _) => seq![],
    }
}

/// What is left of a stream after its whole messages.
pub open spec fn left(buf: Seq<u8>) -> Seq<u8>
    decreases buf.len(),
{
    match next(buf) {
        (Some(message), rest) => if rest.len() < buf.len() {
            left(rest)
        } else {
            buf
        },
        (None, rest) => rest,
    }
}

proof fn lemma_next_shrinks(buf: Seq<u8>)
    ensures
        next(buf).1.len() <= buf.len(),
        next(buf).0 is Some ==> next(buf).1.len() < buf.len(),
    decreases buf.len(),
{
    if buf.len() > 0 {
        bytes::first_octet_is_first(buf, 0xf7);
        lemma_next_shrinks(buf.skip(1));
    }
}

proof fn lemma_next_of_more(buf: Seq<u8>, more: Seq<u8>)
    ensures
        match next(buf) {
            (Some(message), rest) => next(buf + more) == (Some(message), rest + more),
            (None, rest) => next(buf + more) == next(rest + more),
        },
    decreases buf.len(),
{
    if buf.len() > 0 {
        let all = buf + more;
        assert(all[0] == buf[0]);
        if buf[0] == 0xf0 {
            if let Some(end) = bytes::first_octet(buf, 0xf7) {
                bytes::first_octet_of_more(buf, more, 0xf7);
                bytes::first_octet_is_first(buf, 0xf7);
                assert(all.take(end + 1) =~= buf.take(end + 1));
                assert(all.skip(end + 1) =~= buf.skip(end + 1) + more);
            }
        } else {
            match message_len(buf[0]) {
                Some(n) => {
                    if buf.len() >= n {
                        assert(all.take(n) =~= buf.take(n));
                        assert(all.skip(n) =~= buf.skip(n) + more);
                    }
                },
                None => {
                    assert(all.skip(1) =~= buf.skip(1) + more);
                    lemma_next_of_more(buf.skip(1), more);
                },
            }
        }
    }
}

/// A stream may be cut anywhere. The messages that came whole with the first part, and those that
/// are found once the second part was added to the remainder, are the messages of the stream.
pub proof fn a_stream_may_be_cut_anywhere(first: Seq<u8>, second: Seq<u8>)
    ensures
        messages(first + second) == messages(first) + messages(left(first) + second),
        left(first + second) == left(left(first) + second),
    decreases first.len(),
{
    let all = first + second;
    lemma_next_of_more(first, second);
    lemma_next_shrinks(first);
    lemma_next_shrinks(all);
    match next(first) {
        (Some(message), rest) => {
            a_stream_may_be_cut_anywhere(rest, second);
            let late = messages(left(rest) + second);
            assert((seq![message] + messages(rest)) + late =~= seq![message] + (messages(rest)
                + late));
        },
        (None, rest) => {
            lemma_next_shrinks(rest + second);
            assert(left(first) == rest);
            assert(messages(all) == messages(rest + second));
            assert(left(all) == left(rest + second));
            assert(messages(first) + messages(all) =~= messages(all));
        },
    }
}

/// Splits a stream of octets into MIDI messages.
#[derive(Debug, Clone)]
pub struct MidiStreamParser {
    buf: Vec<u8>,
}

impl View for MidiStreamParser {
    type V = Seq<u8>;

    closed spec fn view(&self) -> Seq<u8> {
        self.buf@
    }
}

impl MidiStreamParser {
    pub fn new() -> (r: Self)
        ensures
            r@ == Seq::<u8>::empty(),
    {
        MidiStreamParser { buf: Vec::new() }
    }

    /// Takes in what was read.
    pub fn push(&mut self, data: &[u8])
        ensures
            final(self)@ == old(self)@ + data@,
    {
        push_all(&mut self.buf, data);
    }

    fn take_out(&mut self, n: usize) -> (r: Vec<u8>)
        requires
            n <= old(self)@.len(),
        ensures
            r@ == old(self)@.take(n as int),
            final(self)@ == old(self)@.skip(n as int),
    {
        let len: usize = self.buf.len();
        let message = vstd::slice::slice_to_vec(
            vstd::slice::slice_subrange(self.buf.as_slice(), 0, n),
        );
        let rest = vstd::slice::slice_to_vec(
            vstd::slice::slice_subrange(self.buf.as_slice(), n, len),
        );
        assert(message@ =~= self.buf@.take(n as int));
        assert(rest@ =~= self.buf@.skip(n as int));
        self.buf = rest;
        message
    }

    /// Takes out the first whole message.
    pub fn next_message(&mut self) -> (r: Option<Vec<u8>>)
        ensures
            match r {
                Some(m) => next(old(self)@).0 == Some(m@) && final(self)@.len() < old(self)@.len(),
                None => next(old(self)@).0 is None,
            },
            final(self)@ == next(old(self)@).1,
    {
        proof {
            lemma_next_shrinks(self@);
        }
        loop
            invariant
                next(self@) == next(old(self)@),
                next(old(self)@).0 is Some ==> next(old(self)@).1.len() < old(self)@.len(),
            decreases self@.len(),
        {
            if self.buf.len() == 0 {
                return None;
            }
            let status: u8 = self.buf[0];
            if status == 0xF0 {
                match find_octet(self.buf.as_slice(), 0xF7) {
                    Some(end) => {
                        return Some(self.take_out(end + 1));
                    },
                    None => {
                        return None;
                    },
                }
            }
            let len: usize = if status < 0x80 || status >= 0xF0 {
                1
            } else if status >= 0xC0 && status < 0xE0 {
                2
            } else {
                3
            };
            if len == 1 {
                let _dropped = self.take_out(1);
                continue;
            }
            if self.buf.len() < len {
                return None;
            }
            return Some(self.take_out(len));
        }
    }
}

// ---------------------------------------------------------------------------
// Messages
// ---------------------------------------------------------------------------

/// What was selected on each MIDI channel.
#[verifier::ext_equal]
pub struct Selected {
    pub channel: Map<u8, u8>,
    pub param: Map<u8, u8>,
}

impl Selected {
    /// What is selected after a message, and what the message then sets: the MIDI channel, the
    /// channel, the parameter and its value.
    pub open spec fn after(self, msg: Seq<u8>) -> (Selected, Option<(u8, u8, u8, u8)>) {
        if msg.len() != 3 || !(0xb0 <= msg[0] < 0xc0) {
            (self, None)
        } else {
            let n = (msg[0] - 0xb0) as u8;
            if msg[1] == 0x63 {
                (Selected { channel: self.channel.insert(n, msg[2]), ..self }, None)
            } else if msg[1] == 0x62 {
                (Selected { param: self.param.insert(n, msg[2]), ..self }, None)
            } else if msg[1] == 0x06 && self.channel.contains_key(n) && self.param.contains_key(n) {
                (self, Some((n, self.channel[n], self.param[n], msg[2])))
            } else {
                (self, None)
            }
        }
    }
}

/// Puts the three control changes together.
#[derive(Debug, Clone)]
pub struct NrpnTracker {
    pending_ch: HashMap<u8, u8>,
    pending_param: HashMap<u8, u8>,
}

impl View for NrpnTracker {
    type V = Selected;

    closed spec fn view(&self) -> Selected {
        Selected { channel: self.pending_ch@, param: self.pending_param@ }
    }
}

impl NrpnTracker {
    pub fn new() -> (r: Self)
        ensures
            r@ == (Selected { channel: Map::empty(), param: Map::empty() }),
    {
        NrpnTracker { pending_ch: HashMap::new(), pending_param: HashMap::new() }
    }

    /// Takes in a message. Gives what it sets: the MIDI channel, the channel, the parameter and its
    /// value.
    pub fn feed(&mut self, msg: &[u8]) -> (r: Option<(u8, u8, u8, u8)>)
        ensures
            (final(self)@, r) == old(self)@.after(msg@),
    {
        if msg.len() != 3 || msg[0] < 0xB0 || msg[0] >= 0xC0 {
            return None;
        }
        let n: u8 = msg[0] - 0xB0;
        let value: u8 = msg[2];
        if msg[1] == 0x63 {
            self.pending_ch.insert(n, value);
            None
        } else if msg[1] == 0x62 {
            self.pending_param.insert(n, value);
            None
        } else if msg[1] == 0x06 {
            match (self.pending_ch.get(&n), self.pending_param.get(&n)) {
                (Some(ch), Some(param)) => Some((n, *ch, *param, value)),
                _ => None,
            }
        } else {
            None
        }
    }
}

/// The update that a setting brings, and the channel that it is of. Only inputs have preamps.
pub open spec fn update_of(n: u8, ch: u8, param: u8, value: u8) -> Option<(u16, Update)> {
    if n != MIDI_N_INPUTS {
        None
    } else if param == PARAM_GAIN {
        Some(((ch + 1) as u16, Update::Gain(value)))
    } else if param == PARAM_PAD {
        Some(((ch + 1) as u16, Update::Pad(value >= 0x40)))
    } else if param == PARAM_PHANTOM {
        Some(((ch + 1) as u16, Update::Phantom(value >= 0x40)))
    } else {
        None
    }
}

/// The update that a setting brings, and the channel that it is of.
pub fn to_update(n: u8, ch: u8, param: u8, value: u8) -> (r: Option<(u16, Update)>)
    ensures
        r == update_of(n, ch, param, value),
{
    if n != MIDI_N_INPUTS {
        return None;
    }
    let channel: u16 = ch as u16 + 1;
    if param == PARAM_GAIN {
        Some((channel, Update::Gain(value)))
    } else if param == PARAM_PAD {
        Some((channel, Update::Pad(byte_to_bool(value))))
    } else if param == PARAM_PHANTOM {
        Some((channel, Update::Phantom(byte_to_bool(value))))
    } else {
        None
    }
}

/// The update that a message brings where `selected` was selected before it.
pub open spec fn update_in(selected: Selected, msg: Seq<u8>) -> Option<(u16, Update)> {
    match selected.after(msg).1 {
        Some((n, ch, param, value)) => update_of(n, ch, param, value),
        None => None,
    }
}

/// What messages bring: the events, what is then known of the channels, and what is selected.
pub open spec fn events_of(
    id: Seq<char>,
    channels: Map<u16, Readout>,
    selected: Selected,
    msgs: Seq<Seq<u8>>,
) -> (Seq<EventModel>, Map<u16, Readout>, Selected)
    decreases msgs.len(),
{
    if msgs.len() == 0 {
        (seq![], channels, selected)
    } else {
        let now = selected.after(msgs[0]).0;
        match update_in(selected, msgs[0]) {
            None => events_of(id, channels, now, msgs.skip(1)),
            Some((channel, update)) => {
                let event = allen_heath::event_of(id, channels, channel, update);
                let (more, after, end) = events_of(
                    id,
                    channels.insert(channel, event.state),
                    now,
                    msgs.skip(1),
                );
                (seq![event] + more, after, end)
            },
        }
    }
}

/// Whether a channel is an input.
pub open spec fn is_input(channel: u16) -> bool {
    1 <= channel <= 64
}

/// The messages that set a parameter of a channel.
pub open spec fn setting(channel: u16, param: u8, value: u8) -> Seq<u8> {
    seq![
        0xb0u8,
        0x63,
        (channel - 1) as u8,
        0xb0,
        0x62,
        param,
        0xb0,
        0x06,
        value,
    ]
}

/// The request for a parameter of a channel.
pub open spec fn query(channel: u16, param: u8) -> Seq<u8> {
    seq![
        0xf0u8,
        0x00,
        0x00,
        0x1a,
        0x50,
        0x12,
        0x01,
        0x00,
        MIDI_N_INPUTS,
        0x01,
        0x0b,
        param,
        (channel - 1) as u8,
        0xf7,
    ]
}

/// A parameter that is set is, read back in the same form, the update of that parameter.
pub proof fn a_setting_reads_back(
    id: Seq<char>,
    channels: Map<u16, Readout>,
    selected: Selected,
    channel: u16,
    param: u8,
    value: u8,
)
    requires
        is_input(channel),
        param == PARAM_GAIN || param == PARAM_PAD || param == PARAM_PHANTOM,
    ensures
        ({
            let update = update_of(MIDI_N_INPUTS, (channel - 1) as u8, param, value);
            let (events, after, end) = events_of(
                id,
                channels,
                selected,
                messages(setting(channel, param, value)),
            );
            update is Some && update->Some_0.0 == channel && events == seq![
                allen_heath::event_of(id, channels, channel, update->Some_0.1),
            ] && after == channels.insert(channel, events[0].state)
        }),
{
    let all = setting(channel, param, value);
    let a = seq![0xb0u8, 0x63, (channel - 1) as u8];
    let b = seq![0xb0u8, 0x62, param];
    let c = seq![0xb0u8, 0x06, value];
    let bc = b + c;
    assert(all.take(3) =~= a);
    assert(all.skip(3) =~= bc);
    assert(bc.take(3) =~= b);
    assert(bc.skip(3) =~= c);
    assert(c.take(3) =~= c);
    assert(c.skip(3) =~= seq![]);
    assert(next(all) == (Some(a), bc));
    assert(next(bc) == (Some(b), c));
    assert(next(c) == (Some(c), Seq::<u8>::empty()));
    assert(messages(seq![]) =~= seq![]);
    assert(messages(c) =~= seq![c]);
    assert(messages(bc) =~= seq![b, c]);
    assert(messages(all) =~= seq![a, b, c]);
    let s1 = selected.after(a).0;
    let s2 = s1.after(b).0;
    assert(seq![a, b, c].skip(1) =~= seq![b, c]);
    assert(seq![b, c].skip(1) =~= seq![c]);
    assert(seq![c].skip(1) =~= Seq::<Seq<u8>>::empty());
    let update = update_of(MIDI_N_INPUTS, (channel - 1) as u8, param, value)->Some_0.1;
    let event = allen_heath::event_of(id, channels, channel, update);
    let after = channels.insert(channel, event.state);
    assert(update_in(s2, c) == Some((channel, update)));
    assert(events_of(id, after, s2, Seq::<Seq<u8>>::empty()) == (
        Seq::<EventModel>::empty(),
        after,
        s2,
    ));
    assert(events_of(id, channels, s2, seq![c]).0 =~= seq![event]);
    assert(events_of(id, channels, s1, seq![b, c]) == events_of(id, channels, s2, seq![c]));
    assert(events_of(id, channels, selected, seq![a, b, c]) == events_of(
        id,
        channels,
        s1,
        seq![b, c],
    ));
}

// ---------------------------------------------------------------------------
// The adapter
// ---------------------------------------------------------------------------

/// A processor's adapter.
#[derive(Debug, Clone)]
pub struct AhmAdapter {
    id: String,
    parser: MidiStreamParser,
    tracker: NrpnTracker,
    channels: Channels,
}

impl AhmAdapter {
    pub closed spec fn name(&self) -> Seq<char> {
        self.id@
    }

    /// What was read and is not yet part of a message.
    pub closed spec fn pending(&self) -> Seq<u8> {
        self.parser@
    }

    /// What the last messages selected.
    pub closed spec fn selected(&self) -> Selected {
        self.tracker@
    }

    /// What is known of the channels.
    pub closed spec fn known(&self) -> Map<u16, Readout> {
        self.channels@
    }

    pub fn new(id: &str) -> (r: Self)
        ensures
            r.name() == id@,
            r.pending() == Seq::<u8>::empty(),
            r.selected() == (Selected { channel: Map::empty(), param: Map::empty() }),
            r.known() == Map::<u16, Readout>::empty(),
    {
        AhmAdapter {
            id: id.to_owned(),
            parser: MidiStreamParser::new(),
            tracker: NrpnTracker::new(),
            channels: Channels::new(),
        }
    }

    pub fn id(&self) -> (r: &str)
        ensures
            r@ == self.name(),
    {
        self.id.as_str()
    }

    /// The number of a channel on the wire.
    pub fn channel_index(channel: u16) -> (r: Result<u8, AdapterError>)
        ensures
            match r {
                Ok(ch) => is_input(channel) && ch == channel - 1,
                Err(e) => !is_input(channel) && e@ == AdapterErrorModel::UnsupportedChannel(
                    channel,
                ),
            },
    {
        if channel < 1 || channel > 64 {
            return Err(AdapterError::UnsupportedChannel(channel));
        }
        Ok((channel - 1) as u8)
    }

    /// What to send to set a parameter of a channel.
    pub fn set_param(channel: u16, param: u8, value: u8) -> (r: Result<Vec<u8>, AdapterError>)
        ensures
            match r {
                Ok(msg) => is_input(channel) && msg@ == setting(channel, param, value),
                Err(e) => !is_input(channel) && e@ == AdapterErrorModel::UnsupportedChannel(
                    channel,
                ),
            },
    {
        match Self::channel_index(channel) {
            Ok(ch) => {
                let mut msg: Vec<u8> = Vec::new();
                msg.push(0xB0);
                msg.push(0x63);
                msg.push(ch);
                msg.push(0xB0);
                msg.push(0x62);
                msg.push(param);
                msg.push(0xB0);
                msg.push(0x06);
                msg.push(value);
                assert(msg@ =~= setting(channel, param, value));
                Ok(msg)
            },
            Err(e) => Err(e),
        }
    }

    /// What to send to learn a parameter of a channel.
    pub fn get_param(channel: u16, param: u8) -> (r: Result<Vec<u8>, AdapterError>)
        ensures
            match r {
                Ok(msg) => is_input(channel) && msg@ == query(channel, param),
                Err(e) => !is_input(channel) && e@ == AdapterErrorModel::UnsupportedChannel(
                    channel,
                ),
            },
    {
        match Self::channel_index(channel) {
            Ok(ch) => {
                let mut msg: Vec<u8> = Vec::new();
                msg.push(0xF0);
                msg.push(0x00);
                msg.push(0x00);
                msg.push(0x1A);
                msg.push(0x50);
                msg.push(0x12);
                msg.push(0x01);
                msg.push(0x00);
                msg.push(MIDI_N_INPUTS);
                msg.push(0x01);
                msg.push(0x0B);
                msg.push(param);
                msg.push(ch);
                msg.push(0xF7);
                assert(msg@ =~= query(channel, param));
                Ok(msg)
            },
            Err(e) => Err(e),
        }
    }

    /// Refuses: the protocol has no such query.
    pub fn identify() -> (r: Result<DeviceInfo, AdapterError>)
        ensures
            r is Err,
            r->Err_0@ == AdapterErrorModel::Protocol(
                "identify: AHM protocol has no device-identity query"@,
            ),
    {
        Err(AdapterError::protocol("identify: AHM protocol has no device-identity query"))
    }

    /// What to send to set a channel's gain, `gain` being the octet that stands for it.
    pub fn set_gain(channel: u16, gain: u8) -> (r: Result<Vec<u8>, AdapterError>)
        ensures
            match r {
                Ok(msg) => is_input(channel) && msg@ == setting(channel, PARAM_GAIN, gain),
                Err(e) => !is_input(channel) && e@ == AdapterErrorModel::UnsupportedChannel(
                    channel,
                ),
            },
    {
        Self::set_param(channel, PARAM_GAIN, gain)
    }

    /// What to send to switch a channel's phantom power.
    pub fn set_phantom(channel: u16, on: bool) -> (r: Result<Vec<u8>, AdapterError>)
        ensures
            match r {
                Ok(msg) => is_input(channel) && msg@ == setting(
                    channel,
                    PARAM_PHANTOM,
                    allen_heath::switch_octet(on),
                ),
                Err(e) => !is_input(channel) && e@ == AdapterErrorModel::UnsupportedChannel(
                    channel,
                ),
            },
    {
        Self::set_param(channel, PARAM_PHANTOM, bool_to_byte(on))
    }

    /// What to send to learn a channel's state: two messages, for gain and phantom power.
    pub fn state_requests(channel: u16) -> (r: Result<Vec<Vec<u8>>, AdapterError>)
        ensures
            match r {
                Ok(msgs) => is_input(channel) && msgs@.len() == 2 && msgs@[0]@ == query(
                    channel,
                    PARAM_GAIN,
                ) && msgs@[1]@ == query(channel, PARAM_PHANTOM),
                Err(e) => !is_input(channel) && e@ == AdapterErrorModel::UnsupportedChannel(
                    channel,
                ),
            },
    {
        let gain = match Self::get_param(channel, PARAM_GAIN) {
            Ok(msg) => msg,
            Err(e) => {
                return Err(e);
            },
        };
        let phantom = match Self::get_param(channel, PARAM_PHANTOM) {
            Ok(msg) => msg,
            Err(e) => {
                return Err(e);
            },
        };
        let mut msgs: Vec<Vec<u8>> = Vec::new();
        msgs.push(gain);
        msgs.push(phantom);
        Ok(msgs)
    }

    /// Whether a query of a channel is over, `polls` looks after its requests were sent.
    pub fn get_state(&self, channel: u16, polls: u32) -> (r: Option<Result<Readout, AdapterError>>)
        ensures
            match r {
                Some(Ok(state)) => self.known().contains_key(channel) && state
                    == self.known()[channel],
                Some(Err(e)) => !self.known().contains_key(channel) && polls
                    >= allen_heath::MAX_POLLS && e@ == AdapterErrorModel::Protocol(
                    allen_heath::no_reply_text(channel),
                ),
                None => !self.known().contains_key(channel) && polls < allen_heath::MAX_POLLS,
            },
    {
        self.channels.query_outcome(channel, polls)
    }

    /// Takes in what was read. Gives the events that the messages in it bring.
    pub fn receive(&mut self, data: &[u8]) -> (r: Vec<ReadoutEvent>)
        ensures
            final(self).name() == old(self).name(),
            final(self).pending() == left(old(self).pending() + data@),
            (allen_heath::event_models(r@), final(self).known(), final(self).selected())
                == events_of(
                old(self).name(),
                old(self).known(),
                old(self).selected(),
                messages(old(self).pending() + data@),
            ),
    {
        self.parser.push(data);
        let ghost stream = self.pending();
        let ghost whole = events_of(
            old(self).name(),
            old(self).known(),
            old(self).selected(),
            messages(stream),
        );
        let mut events: Vec<ReadoutEvent> = Vec::new();
        assert(allen_heath::event_models(events@) + whole.0 =~= whole.0);
        loop
            invariant
                self.name() == old(self).name(),
                stream == old(self).pending() + data@,
                whole == events_of(
                    old(self).name(),
                    old(self).known(),
                    old(self).selected(),
                    messages(stream),
                ),
                left(self.pending()) == left(stream),
                ({
                    let (more, after, end) = events_of(
                        self.name(),
                        self.known(),
                        self.selected(),
                        messages(self.pending()),
                    );
                    (allen_heath::event_models(events@) + more, after, end) == whole
                }),
            decreases self.pending().len(),
        {
            let ghost before = self.pending();
            let ghost done = allen_heath::event_models(events@);
            match self.parser.next_message() {
                Some(message) => {
                    let ghost later = messages(self.pending());
                    let ghost was = self.selected();
                    assert(messages(before) == seq![message@] + later);
                    assert((seq![message@] + later)[0] == message@);
                    assert((seq![message@] + later).skip(1) =~= later);
                    if let Some((n, ch, param, value)) = self.tracker.feed(message.as_slice()) {
                        if let Some((channel, update)) = to_update(n, ch, param, value) {
                            assert(update_in(was, message@) == Some((channel, update)));
                            let event = self.channels.apply(self.id.as_str(), channel, update);
                            events.push(event);
                            proof {
                                let (more, after, end) = events_of(
                                    self.name(),
                                    self.known(),
                                    self.selected(),
                                    later,
                                );
                                assert(allen_heath::event_models(events@) =~= done.push(event@));
                                assert(done + (seq![event@] + more) =~= done.push(event@) + more);
                            }
                        }
                    }
                },
                None => {
                    assert(done + Seq::<EventModel>::empty() =~= done);
                    return events;
                },
            }
        }
    }
}

// ---------------------------------------------------------------------------
// Laws
// ---------------------------------------------------------------------------

/// The stream falls into its messages: one of three octets by its status, one of two, one from 0xf0
/// up to the next 0xf7. An octet that can begin none is passed over. A message that is not whole stays.
pub proof fn a_stream_falls_into_its_messages(m: Seq<u8>, rest: Seq<u8>, stray: u8)
    ensures
        m.len() == 3 && (0x80 <= m[0] < 0xc0 || 0xe0 <= m[0] < 0xf0) ==> messages(m + rest)
            == seq![m] + messages(rest) && left(m + rest) == left(rest),
        m.len() == 2 && 0xc0 <= m[0] < 0xe0 ==> messages(m + rest) == seq![m] + messages(rest)
            && left(m + rest) == left(rest),
        m.len() >= 2 && m[0] == 0xf0 && m.last() == 0xf7 && (forall|i: int|
            0 <= i < m.len() - 1 ==> #[trigger] m[i] != 0xf7) ==> messages(m + rest) == seq![m]
            + messages(rest) && left(m + rest) == left(rest),
        stray < 0x80 || stray > 0xf0 ==> messages(seq![stray] + rest) == messages(rest) && left(
            seq![stray] + rest,
        ) == left(rest),
        0 < m.len() < 3 && (0x80 <= m[0] < 0xc0 || 0xe0 <= m[0] < 0xf0) ==> messages(m).len() == 0
            && left(m) == m,
        m.len() == 1 && 0xc0 <= m[0] < 0xe0 ==> messages(m).len() == 0 && left(m) == m,
        m.len() > 0 && m[0] == 0xf0 && (forall|i: int|
            0 <= i < m.len() ==> #[trigger] m[i] != 0xf7) ==> messages(m).len() == 0 && left(m)
            == m,
        messages(seq![]).len() == 0,
        left(seq![]) == Seq::<u8>::empty(),
{
    let all = m + rest;
    if m.len() > 0 {
        assert(all[0] == m[0]);
        assert(all.take(m.len() as int) =~= m);
        assert(all.skip(m.len() as int) =~= rest);
        bytes::first_octet_is_first(all, 0xf7);
        bytes::first_octet_is_first(m, 0xf7);
        if m[0] == 0xf0 && m.len() >= 2 && m.last() == 0xf7 && (forall|i: int|
            0 <= i < m.len() - 1 ==> #[trigger] m[i] != 0xf7) {
            assert(all[m.len() - 1] == 0xf7);
            assert forall|i: int| 0 <= i < m.len() - 1 implies all[i] != 0xf7 by {
                assert(all[i] == m[i]);
            }
            assert(bytes::first_octet(all, 0xf7) == Some(m.len() - 1));
        }
    }
    let s = seq![stray] + rest;
    assert(s[0] == stray);
    assert(s.skip(1) =~= rest);
    lemma_next_shrinks(rest);
    if stray < 0x80 || stray > 0xf0 {
        assert(next(s) == next(rest));
    }
}

/// Control changes: 0x63 selects a channel and 0x62 a parameter, each on its own MIDI channel and until
/// the next selection there; 0x06 carries a value for what is selected, and for nothing while either
/// is missing. No other message has to do with it.
pub proof fn a_selection_stays(s: Selected, n: u8, octet: u8, other: u8, msg: Seq<u8>)
    requires
        n < 0x10,
        other != n,
    ensures
        ({
            let (now, set) = s.after(seq![(0xb0 + n) as u8, 0x63, octet]);
            &&& set is None
            &&& now.channel.contains_key(n) && now.channel[n] == octet
            &&& now.channel.contains_key(other) == s.channel.contains_key(other)
            &&& s.channel.contains_key(other) ==> now.channel[other] == s.channel[other]
            &&& now.param == s.param
        }),
        ({
            let (now, set) = s.after(seq![(0xb0 + n) as u8, 0x62, octet]);
            &&& set is None
            &&& now.param.contains_key(n) && now.param[n] == octet
            &&& now.param.contains_key(other) == s.param.contains_key(other)
            &&& s.param.contains_key(other) ==> now.param[other] == s.param[other]
            &&& now.channel == s.channel
        }),
        ({
            let (now, set) = s.after(seq![(0xb0 + n) as u8, 0x06, octet]);
            &&& now == s
            &&& s.channel.contains_key(n) && s.param.contains_key(n) ==> set == Some(
                (n, s.channel[n], s.param[n], octet),
            )
            &&& !s.channel.contains_key(n) || !s.param.contains_key(n) ==> set is None
        }),
        msg.len() != 3 || msg[0] < 0xb0 || msg[0] > 0xbf || msg[1] != 0x63 && msg[1] != 0x62
            && msg[1] != 0x06 ==> s.after(msg) == (s, None::<(u8, u8, u8, u8)>),
{
}

/// Whether only this one of a channel's values may differ between two states of knowledge, and no other
/// channel's.
pub open spec fn same_but_for(
    before: Map<u16, Readout>,
    after: Map<u16, Readout>,
    channel: u16,
    field: u8,
) -> bool {
    &&& after.contains_key(channel)
    &&& forall|c: u16|
        c != channel ==> (#[trigger] after.contains_key(c)) == before.contains_key(c)
    &&& forall|c: u16|
        c != channel && #[trigger] before.contains_key(c) ==> after[c] == before[c]
    &&& field != 0x19 && before.contains_key(channel) ==> after[channel].gain
        == before[channel].gain
    &&& field != 0x1a && before.contains_key(channel) ==> after[channel].pad
        == before[channel].pad
    &&& field != 0x1b && before.contains_key(channel) ==> after[channel].phantom
        == before[channel].phantom
    &&& !before.contains_key(channel) ==> {
        &&& field != 0x19 ==> after[channel].gain is None
        &&& field != 0x1a ==> after[channel].pad is None
        &&& field != 0x1b ==> !after[channel].phantom
    }
}

proof fn lemma_three_changes(
    id: Seq<char>,
    channels: Map<u16, Readout>,
    selected: Selected,
    first: u8,
    ch: u8,
    param: u8,
    value: u8,
)
    requires
        0xb0 <= first <= 0xbf,
    ensures
        ({
            let octets = seq![first, 0x63, ch, first, 0x62, param, first, 0x06, value];
            let n = (first - 0xb0) as u8;
            let (events, after, end) = events_of(id, channels, selected, messages(octets));
            &&& left(octets) == Seq::<u8>::empty()
            &&& end.channel == selected.channel.insert(n, ch)
            &&& end.param == selected.param.insert(n, param)
            &&& match update_of(n, ch, param, value) {
                None => events == Seq::<EventModel>::empty() && after == channels,
                Some((channel, update)) => {
                    let event = allen_heath::event_of(id, channels, channel, update);
                    events == seq![event] && after == channels.insert(channel, event.state)
                },
            }
        }),
{
    let octets = seq![first, 0x63, ch, first, 0x62, param, first, 0x06, value];
    let n = (first - 0xb0) as u8;
    let a = seq![first, 0x63, ch];
    let b = seq![first, 0x62, param];
    let c = seq![first, 0x06, value];
    let none = Seq::<u8>::empty();
    a_stream_falls_into_its_messages(a, b + c, 0);
    a_stream_falls_into_its_messages(b, c, 0);
    a_stream_falls_into_its_messages(c, none, 0);
    assert(octets =~= a + (b + c));
    assert(c + none =~= c);
    assert(messages(c) =~= seq![c]);
    assert(messages(b + c) =~= seq![b, c]);
    assert(messages(octets) =~= seq![a, b, c]);
    let s1 = selected.after(a).0;
    let s2 = s1.after(b).0;
    assert(seq![a, b, c].skip(1) =~= seq![b, c]);
    assert(seq![b, c].skip(1) =~= seq![c]);
    assert(seq![c].skip(1) =~= Seq::<Seq<u8>>::empty());
    assert(update_in(selected, a) is None);
    assert(update_in(s1, b) is None);
    assert(update_in(s2, c) == update_of(n, ch, param, value));
    assert(events_of(id, channels, selected, seq![a, b, c]) == events_of(
        id,
        channels,
        s1,
        seq![b, c],
    ));
    assert(events_of(id, channels, s1, seq![b, c]) == events_of(id, channels, s2, seq![c]));
    match update_of(n, ch, param, value) {
        None => {
            assert(events_of(id, channels, s2, seq![c]) == events_of(
                id,
                channels,
                s2,
                Seq::<Seq<u8>>::empty(),
            ));
        },
        Some((channel, update)) => {
            let event = allen_heath::event_of(id, channels, channel, update);
            let after = channels.insert(channel, event.state);
            assert(events_of(id, after, s2, Seq::<Seq<u8>>::empty()) == (
                Seq::<EventModel>::empty(),
                after,
                s2,
            ));
            assert(events_of(id, channels, s2, seq![c]).0 =~= seq![event]);
        },
    }
}

/// The three control changes about a parameter of an input make that parameter known, and report it:
/// the gain as the octet that was sent, the pad and phantom power as on from 0x40 up. Nothing else of
/// the channel changes, and nothing of any other.
pub proof fn a_received_value_is_then_known(
    id: Seq<char>,
    channels: Map<u16, Readout>,
    selected: Selected,
    channel: u16,
    value: u8,
)
    requires
        1 <= channel <= 256,
    ensures
        ({
            let ch = (channel - 1) as u8;
            let (events, after, end) = events_of(
                id,
                channels,
                selected,
                messages(seq![0xb0u8, 0x63, ch, 0xb0, 0x62, 0x1b, 0xb0, 0x06, value]),
            );
            &&& after.contains_key(channel) && after[channel].phantom == (value >= 0x40)
            &&& same_but_for(channels, after, channel, 0x1b)
            &&& events.len() == 1 && events[0].device_id == id && events[0].channel == channel
            &&& events[0].state == after[channel]
            &&& events[0].changed.phantom && !events[0].changed.gain && !events[0].changed.pad
        }),
        ({
            let ch = (channel - 1) as u8;
            let (events, after, end) = events_of(
                id,
                channels,
                selected,
                messages(seq![0xb0u8, 0x63, ch, 0xb0, 0x62, 0x1a, 0xb0, 0x06, value]),
            );
            &&& after.contains_key(channel) && after[channel].pad == Some(value >= 0x40)
            &&& same_but_for(channels, after, channel, 0x1a)
            &&& events.len() == 1 && events[0].device_id == id && events[0].channel == channel
            &&& events[0].state == after[channel]
            &&& events[0].changed.pad && !events[0].changed.gain && !events[0].changed.phantom
        }),
        ({
            let ch = (channel - 1) as u8;
            let (events, after, end) = events_of(
                id,
                channels,
                selected,
                messages(seq![0xb0u8, 0x63, ch, 0xb0, 0x62, 0x19, 0xb0, 0x06, value]),
            );
            &&& after.contains_key(channel) && after[channel].gain == Some(value)
            &&& same_but_for(channels, after, channel, 0x19)
            &&& events.len() == 1 && events[0].device_id == id && events[0].channel == channel
            &&& events[0].state == after[channel]
            &&& events[0].changed.gain && !events[0].changed.pad && !events[0].changed.phantom
        }),
{
    let ch = (channel - 1) as u8;
    lemma_three_changes(id, channels, selected, 0xb0, ch, 0x1b, value);
    lemma_three_changes(id, channels, selected, 0xb0, ch, 0x1a, value);
    lemma_three_changes(id, channels, selected, 0xb0, ch, 0x19, value);
}

/// Control changes about another parameter, or on another MIDI channel than the inputs', tell nothing
/// of a preamp.
pub proof fn other_parameters_are_passed_over(
    id: Seq<char>,
    channels: Map<u16, Readout>,
    selected: Selected,
    first: u8,
    ch: u8,
    param: u8,
    value: u8,
)
    requires
        0xb0 <= first <= 0xbf,
        first != 0xb0 || param != 0x19 && param != 0x1a && param != 0x1b,
    ensures
        ({
            let (events, after, end) = events_of(
                id,
                channels,
                selected,
                messages(seq![first, 0x63, ch, first, 0x62, param, first, 0x06, value]),
            );
            events.len() == 0 && after == channels
        }),
{
    lemma_three_changes(id, channels, selected, first, ch, param, value);
}

/// What is sent to switch phantom power of an input or to set its gain, received in turn, makes just
/// that known of it: the position it was switched to, the octet that the gain was set to.
pub proof fn what_is_set_is_then_known(
    id: Seq<char>,
    channels: Map<u16, Readout>,
    selected: Selected,
    channel: u16,
    on: bool,
    gain: u8,
)
    requires
        1 <= channel <= 64,
    ensures
        ({
            let sent = setting(channel, PARAM_PHANTOM, allen_heath::switch_octet(on));
            let after = events_of(id, channels, selected, messages(sent)).1;
            after.contains_key(channel) && after[channel].phantom == on && same_but_for(
                channels,
                after,
                channel,
                0x1b,
            )
        }),
        ({
            let after = events_of(
                id,
                channels,
                selected,
                messages(setting(channel, PARAM_GAIN, gain)),
            ).1;
            after.contains_key(channel) && after[channel].gain == Some(gain) && same_but_for(
                channels,
                after,
                channel,
                0x19,
            )
        }),
{
    let octet = allen_heath::switch_octet(on);
    let ch = (channel - 1) as u8;
    a_received_value_is_then_known(id, channels, selected, channel, octet);
    a_received_value_is_then_known(id, channels, selected, channel, gain);
    assert(setting(channel, PARAM_PHANTOM, octet) =~= seq![
        0xb0u8, 0x63, ch, 0xb0, 0x62, 0x1b, 0xb0, 0x06, octet,
    ]);
    assert(setting(channel, PARAM_GAIN, gain) =~= seq![
        0xb0u8, 0x63, ch, 0xb0, 0x62, 0x19, 0xb0, 0x06, gain,
    ]);
}

/// What is sent, octet by octet.
pub proof fn what_is_sent_are_these_octets(channel: u16, param: u8, value: u8, on: bool)
    requires
        1 <= channel <= 64,
    ensures
        setting(channel, param, value) == seq![
            0xb0u8, 0x63, (channel - 1) as u8, 0xb0, 0x62, param, 0xb0, 0x06, value,
        ],
        query(channel, param) == seq![
            0xf0u8, 0x00, 0x00, 0x1a, 0x50, 0x12, 0x01, 0x00, 0x00, 0x01, 0x0b, param,
            (channel - 1) as u8, 0xf7,
        ],
        setting(channel, PARAM_PHANTOM, allen_heath::switch_octet(on)) == seq![
            0xb0u8, 0x63, (channel - 1) as u8, 0xb0, 0x62, 0x1b, 0xb0, 0x06,
            if on { 0x7fu8 } else { 0x00u8 },
        ],
        PARAM_GAIN == 0x19 && PARAM_PAD == 0x1a && PARAM_PHANTOM == 0x1b,
{
}

/// What the messages of two stretches bring is what those of the first bring, and then what those of
/// the second do.
pub proof fn messages_take_effect_one_after_the_other(
    id: Seq<char>,
    channels: Map<u16, Readout>,
    selected: Selected,
    first: Seq<Seq<u8>>,
    second: Seq<Seq<u8>>,
)
    ensures
        ({
            let (events, after, end) = events_of(id, channels, selected, first);
            let (more, later, last) = events_of(id, after, end, second);
            events_of(id, channels, selected, first + second) == (events + more, later, last)
        }),
    decreases first.len(),
{
    if first.len() == 0 {
        assert(first + second =~= second);
        assert(Seq::<EventModel>::empty() + events_of(id, channels, selected, second).0
            =~= events_of(id, channels, selected, second).0);
    } else {
        assert((first + second)[0] == first[0]);
        assert((first + second).skip(1) =~= first.skip(1) + second);
        let now = selected.after(first[0]).0;
        match update_in(selected, first[0]) {
            None => {
                messages_take_effect_one_after_the_other(
                    id,
                    channels,
                    now,
                    first.skip(1),
                    second,
                );
            },
            Some((channel, update)) => {
                let event = allen_heath::event_of(id, channels, channel, update);
                let next = channels.insert(channel, event.state);
                messages_take_effect_one_after_the_other(id, next, now, first.skip(1), second);
                let (events, after, end) = events_of(id, next, now, first.skip(1));
                let more = events_of(id, after, end, second).0;
                assert((seq![event] + events) + more =~= seq![event] + (events + more));
            },
        }
    }
}

/// There are 64 inputs, counted from 1.
pub proof fn inputs_count_from_one(channel: u16)
    ensures
        is_input(channel) <==> channel != 0 && channel < 65,
{
}

} // verus!
