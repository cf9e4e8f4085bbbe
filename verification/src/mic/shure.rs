//! Shure ULX-D and Axient Digital receivers, by their command strings: ASCII over TCP, each
//! message between `<` and `>`. A receiver reports a parameter whenever it changes, and samples
//! its meters once it is told to.
use vstd::prelude::*;

use crate::bridge::adapter::{AdapterError, AdapterErrorModel, DeviceInfo};
use crate::mic;
use crate::mic::{
    AntennaDiversity, Channels, MicAddress, MicAddressModel, MicEvent, MicEventModel, MicState,
    Reading,
};
use crate::text;
use crate::text::{
    chars_of, find_char, from_utf8_lossy, parse_i16, parse_u16, parse_u32, parse_u8, push_decimal,
    split_words, text_eq,
};

verus! {

// ---------------------------------------------------------------------------
// Framing
// ---------------------------------------------------------------------------

/// The first message of a stream and what follows it; `None` while there is no whole one. What
/// stands before the message is no part of anything.
pub open spec fn next_frame(buf: Seq<char>) -> Option<(Seq<char>, Seq<char>)> {
    match text::first_index(buf, '<') {
        None => None,
        Some(i) => match text::first_index(buf.skip(i), '>') {
            None => None,
            Some(k) => Some((buf.subrange(i + 1, i + k), buf.skip(i + k + 1))),
        },
    }
}

/// The whole messages of a stream, each as its words.
pub open spec fn frames(buf: Seq<char>) -> Seq<Seq<Seq<char>>>
    decreases buf.len(),
{
    match next_frame(buf) {
        Some((body, rest)) => if rest.len() < buf.len() {
            seq![text::words(body)] + frames(rest)
        } else {
            seq![]
        },
        None => seq![],
    }
}

/// What is left of a stream after its whole messages.
pub open spec fn unframed(buf: Seq<char>) -> Seq<char>
    decreases buf.len(),
{
    match next_frame(buf) {
        Some((body, rest)) => if rest.len() < buf.len() {
            unframed(rest)
        } else {
            buf
        },
        None => buf,
    }
}

proof fn lemma_first_index_is(s: Seq<char>, c: char, k: int)
    requires
        0 <= k < s.len(),
        s[k] == c,
        forall|j: int| 0 <= j < k ==> #[trigger] s[j] != c,
    ensures
        text::first_index(s, c) == Some(k),
{
    text::first_index_is_first(s, c);
    match text::first_index(s, c) {
        Some(i) => {
            if i < k {
                assert(s[i] != c);
            } else if k < i {
                assert(s[k] != c);
            }
        },
        None => {
            assert(s[k] != c);
        },
    }
}

proof fn lemma_next_frame(buf: Seq<char>)
    ensures
        match next_frame(buf) {
            Some((body, rest)) => rest.len() < buf.len(),
            None => true,
        },
{
    text::first_index_is_first(buf, '<');
    if let Some(i) = text::first_index(buf, '<') {
        text::first_index_is_first(buf.skip(i), '>');
    }
}

proof fn lemma_next_frame_of_more(buf: Seq<char>, more: Seq<char>)
    requires
        next_frame(buf) is Some,
    ensures
        ({
            let (body, rest) = next_frame(buf)->Some_0;
            next_frame(buf + more) == Some((body, rest + more))
        }),
{
    let all = buf + more;
    text::first_index_is_first(buf, '<');
    let i = text::first_index(buf, '<')->Some_0;
    assert forall|j: int| 0 <= j < i implies #[trigger] all[j] != '<' by {
        assert(buf[j] != '<');
    }
    lemma_first_index_is(all, '<', i);
    text::first_index_is_first(buf.skip(i), '>');
    let k = text::first_index(buf.skip(i), '>')->Some_0;
    assert(buf.skip(i)[k] == '>');
    assert(all.skip(i)[k] == '>');
    assert forall|j: int| 0 <= j < k implies #[trigger] all.skip(i)[j] != '>' by {
        assert(buf.skip(i)[j] != '>');
    }
    lemma_first_index_is(all.skip(i), '>', k);
    assert(all.subrange(i + 1, i + k) =~= buf.subrange(i + 1, i + k));
    assert(all.skip(i + k + 1) =~= buf.skip(i + k + 1) + more);
}

/// A stream may be cut anywhere. The messages that came whole with the first part, and those that
/// are found once the second part was added to the remainder, are the messages of the stream.
pub proof fn a_stream_may_be_cut_anywhere(first: Seq<char>, second: Seq<char>)
    ensures
        frames(first + second) == frames(first) + frames(unframed(first) + second),
        unframed(first + second) == unframed(unframed(first) + second),
    decreases first.len(),
{
    lemma_next_frame(first);
    match next_frame(first) {
        Some((body, rest)) => {
            lemma_next_frame_of_more(first, second);
            lemma_next_frame(first + second);
            a_stream_may_be_cut_anywhere(rest, second);
            let here = seq![text::words(body)];
            let late = frames(unframed(rest) + second);
            assert((here + frames(rest)) + late =~= here + (frames(rest) + late));
        },
        None => {
            assert(frames(first) + frames(first + second) =~= frames(first + second));
        },
    }
}

/// Splits a stream of octets into messages.
#[derive(Debug, Clone)]
pub struct ShureStreamParser {
    buf: Vec<char>,
}

impl View for ShureStreamParser {
    type V = Seq<char>;

    closed spec fn view(&self) -> Seq<char> {
        self.buf@
    }
}

impl ShureStreamParser {
    pub fn new() -> (r: Self)
        ensures
            r@ == Seq::<char>::empty(),
    {
        ShureStreamParser { buf: Vec::new() }
    }

    /// Takes in what was read.
    pub fn push(&mut self, data: &[u8])
        ensures
            final(self)@ == old(self)@ + text::utf8_lossy(data@),
            text::read_faithfully(data@),
    {
        let read = from_utf8_lossy(data);
        let mut more = chars_of(read.as_str());
        self.buf.append(&mut more);
    }

    /// Takes out the first whole message, as its words.
    pub fn next_message(&mut self) -> (r: Option<Vec<String>>)
        ensures
            match r {
                Some(tokens) => next_frame(old(self)@) is Some && text::texts(tokens@)
                    == text::words(next_frame(old(self)@)->Some_0.0) && final(self)@ == next_frame(
                    old(self)@,
                )->Some_0.1 && final(self)@.len() < old(self)@.len(),
                None => next_frame(old(self)@) is None && final(self)@ == old(self)@,
            },
    {
        let len: usize = self.buf.len();
        let start: usize = match find_char(self.buf.as_slice(), '<') {
            Some(i) => i,
            None => {
                return None;
            },
        };
        let tail = vstd::slice::slice_subrange(self.buf.as_slice(), start, len);
        assert(tail@ =~= self.buf@.skip(start as int));
        let k: usize = match find_char(tail, '>') {
            Some(k) => k,
            None => {
                return None;
            },
        };
        proof {
            text::first_index_is_first(self.buf@, '<');
            text::first_index_is_first(tail@, '>');
            assert(tail@[0] == '<');
        }
        let body = vstd::slice::slice_subrange(self.buf.as_slice(), start + 1, start + k);
        let tokens = split_words(body);
        let rest = vstd::slice::slice_to_vec(
            vstd::slice::slice_subrange(self.buf.as_slice(), start + k + 1, len),
        );
        assert(rest@ =~= self.buf@.skip(start + k + 1));
        self.buf = rest;
        Some(tokens)
    }
}

// ---------------------------------------------------------------------------
// Messages
// ---------------------------------------------------------------------------

/// What a message says of a channel.
#[derive(Debug, Clone, Copy, PartialEq, Eq, Structural)]
pub enum ParsedUpdate {
    Mute { channel: u16, muted: bool },
    BatteryCharge { channel: u16, percent: Option<u8> },
    BatteryRunTime { channel: u16, minutes: Option<u16> },
    Frequency { channel: u16, khz: u32 },
    Sample { channel: u16, antenna: Option<AntennaDiversity>, rf_dbm: i32, audio_level: u8 },
}

/// The channel that a message names. In a reply 0 names none: it means all channels, and only in
/// requests.
pub open spec fn named_channel(token: Seq<char>) -> Option<u16> {
    match text::parsed_unsigned(token, 0xffff) {
        Some(n) => if n == 0 {
            None
        } else {
            Some(n as u16)
        },
        None => None,
    }
}

/// Reads a channel.
pub fn parse_channel(token: &str) -> (r: Option<u16>)
    ensures
        r == named_channel(token@),
{
    match parse_u16(token) {
        Some(n) => {
            if n == 0 {
                None
            } else {
                Some(n)
            }
        },
        None => None,
    }
}

/// The antenna that a sample names.
pub open spec fn named_antenna(token: Seq<char>) -> Option<AntennaDiversity> {
    if token == "AX"@ {
        Some(AntennaDiversity::A)
    } else if token == "XB"@ {
        Some(AntennaDiversity::B)
    } else if token == "XX"@ {
        Some(AntennaDiversity::Inactive)
    } else {
        None
    }
}

/// What a report says: `REP`, a channel, a parameter and its value. A charge above 100 and a run
/// time of 65535 and more stand for no reading.
pub open spec fn reported(channel: u16, parameter: Seq<char>, value: Seq<char>) -> Option<
    ParsedUpdate,
> {
    if parameter == "AUDIO_MUTE"@ {
        Some(ParsedUpdate::Mute { channel, muted: value == "ON"@ })
    } else if parameter == "BATT_CHARGE"@ {
        match text::parsed_unsigned(value, 0xffff) {
            Some(n) => Some(
                ParsedUpdate::BatteryCharge {
                    channel,
                    percent: if n <= 100 {
                        Some(n as u8)
                    } else {
                        None
                    },
                },
            ),
            None => None,
        }
    } else if parameter == "BATT_RUN_TIME"@ {
        match text::parsed_unsigned(value, 0xffff_ffff) {
            Some(n) => Some(
                ParsedUpdate::BatteryRunTime {
                    channel,
                    minutes: if n < 65535 {
                        Some(n as u16)
                    } else {
                        None
                    },
                },
            ),
            None => None,
        }
    } else if parameter == "FREQUENCY"@ {
        match text::parsed_unsigned(value, 0xffff_ffff) {
            Some(n) => Some(ParsedUpdate::Frequency { channel, khz: n as u32 }),
            None => None,
        }
    } else {
        None
    }
}

/// What a sample of the meters says: the antenna, the RF level with 128 added to its dBm, and the
/// audio level on the receiver's own scale.
pub open spec fn sampled(channel: u16, nn: Seq<char>, aaa: Seq<char>, eee: Seq<char>) -> Option<
    ParsedUpdate,
> {
    match (text::parsed_i16(aaa), text::parsed_unsigned(eee, 0xff)) {
        (Some(rf), Some(audio)) => Some(
            ParsedUpdate::Sample {
                channel,
                antenna: named_antenna(nn),
                rf_dbm: (rf - 128) as i32,
                audio_level: audio as u8,
            },
        ),
        _ => None,
    }
}

/// What a message says; `None` where it is none of the known ones, or malformed.
pub open spec fn parsed(t: Seq<Seq<char>>) -> Option<ParsedUpdate> {
    if t.len() == 4 && t[0] == "REP"@ {
        match named_channel(t[1]) {
            Some(channel) => reported(channel, t[2], t[3]),
            None => None,
        }
    } else if t.len() == 6 && t[0] == "SAMPLE"@ && t[2] == "ALL"@ {
        match named_channel(t[1]) {
            Some(channel) => sampled(channel, t[3], t[4], t[5]),
            None => None,
        }
    } else {
        None
    }
}

fn parse_report(channel: u16, parameter: &str, value: &str) -> (r: Option<ParsedUpdate>)
    ensures
        r == reported(channel, parameter@, value@),
{
    if text_eq(parameter, "AUDIO_MUTE") {
        Some(ParsedUpdate::Mute { channel, muted: text_eq(value, "ON") })
    } else if text_eq(parameter, "BATT_CHARGE") {
        match parse_u16(value) {
            Some(n) => {
                let percent: Option<u8> = if n <= 100 {
                    Some(n as u8)
                } else {
                    None
                };
                Some(ParsedUpdate::BatteryCharge { channel, percent })
            },
            None => None,
        }
    } else if text_eq(parameter, "BATT_RUN_TIME") {
        match parse_u32(value) {
            Some(n) => {
                let minutes: Option<u16> = if n < 65535 {
                    Some(n as u16)
                } else {
                    None
                };
                Some(ParsedUpdate::BatteryRunTime { channel, minutes })
            },
            None => None,
        }
    } else if text_eq(parameter, "FREQUENCY") {
        match parse_u32(value) {
            Some(n) => Some(ParsedUpdate::Frequency { channel, khz: n }),
            None => None,
        }
    } else {
        None
    }
}

fn parse_sample(channel: u16, nn: &str, aaa: &str, eee: &str) -> (r: Option<ParsedUpdate>)
    ensures
        r == sampled(channel, nn@, aaa@, eee@),
{
    let antenna = if text_eq(nn, "AX") {
        Some(AntennaDiversity::A)
    } else if text_eq(nn, "XB") {
        Some(AntennaDiversity::B)
    } else if text_eq(nn, "XX") {
        Some(AntennaDiversity::Inactive)
    } else {
        None
    };
    match (parse_i16(aaa), parse_u8(eee)) {
        (Some(rf), Some(audio_level)) => Some(
            ParsedUpdate::Sample { channel, antenna, rf_dbm: rf as i32 - 128, audio_level },
        ),
        _ => None,
    }
}

/// Reads a message.
pub fn parse_message(tokens: &[String]) -> (r: Option<ParsedUpdate>)
    ensures
        r == parsed(text::texts(tokens@)),
{
    let ghost t = text::texts(tokens@);
    if tokens.len() == 4 && text_eq(tokens[0].as_str(), "REP") {
        match parse_channel(tokens[1].as_str()) {
            Some(channel) => parse_report(channel, tokens[2].as_str(), tokens[3].as_str()),
            None => None,
        }
    } else if tokens.len() == 6 && text_eq(tokens[0].as_str(), "SAMPLE") && text_eq(
        tokens[2].as_str(),
        "ALL",
    ) {
        match parse_channel(tokens[1].as_str()) {
            Some(channel) => parse_sample(
                channel,
                tokens[3].as_str(),
                tokens[4].as_str(),
                tokens[5].as_str(),
            ),
            None => None,
        }
    } else {
        None
    }
}

// ---------------------------------------------------------------------------
// The adapter
// ---------------------------------------------------------------------------

impl ParsedUpdate {
    /// The channel that the update is of.
    pub open spec fn of(self) -> u16 {
        match self {
            ParsedUpdate::Mute { channel, .. } => channel,
            ParsedUpdate::BatteryCharge { channel, .. } => channel,
            ParsedUpdate::BatteryRunTime { channel, .. } => channel,
            ParsedUpdate::Frequency { channel, .. } => channel,
            ParsedUpdate::Sample { channel, .. } => channel,
        }
    }

    /// A channel's state with the update.
    pub open spec fn on(self, state: MicState) -> MicState {
        match self {
            ParsedUpdate::Mute { muted, .. } => MicState { muted, ..state },
            ParsedUpdate::BatteryCharge { percent, .. } => MicState {
                battery_percent: percent,
                ..state
            },
            ParsedUpdate::BatteryRunTime { minutes, .. } => MicState {
                battery_minutes_remaining: minutes,
                ..state
            },
            ParsedUpdate::Frequency { khz, .. } => MicState {
                frequency_khz: Some(Reading::Unsigned(khz as u64)),
                ..state
            },
            ParsedUpdate::Sample { antenna, rf_dbm, audio_level, .. } => MicState {
                antenna,
                rf_level_dbm: Some(Reading::Signed(rf_dbm as i64)),
                audio_level: Some(audio_level),
                ..state
            },
        }
    }
}

/// The events that messages bring, and what is then known of the channels. A message that is not
/// understood brings none.
pub open spec fn events_of(
    id: Seq<char>,
    channels: Map<u16, MicState>,
    messages: Seq<Seq<Seq<char>>>,
) -> (Seq<MicEventModel>, Map<u16, MicState>)
    decreases messages.len(),
{
    if messages.len() == 0 {
        (seq![], channels)
    } else {
        match parsed(messages[0]) {
            None => events_of(id, channels, messages.skip(1)),
            Some(update) => {
                let state = update.on(mic::known(channels, update.of()));
                let (more, after) = events_of(
                    id,
                    channels.insert(update.of(), state),
                    messages.skip(1),
                );
                let event = MicEventModel {
                    address: MicAddressModel { device_id: id, channel: update.of() },
                    state,
                };
                (seq![event] + more, after)
            },
        }
    }
}

/// A receiver's adapter.
#[derive(Debug, Clone)]
pub struct ShureAdapter {
    id: String,
    parser: ShureStreamParser,
    channels: Channels,
}

/// A message in its frame.
pub open spec fn framed(message: Seq<char>) -> Seq<char> {
    "< "@ + message + " >"@
}

/// Why the receiver cannot be identified.
pub open spec fn no_identity() -> Seq<char> {
    "identify: Shure's command-string protocol has no device-identity query for receivers (DEVICE_ID is a user-settable label, not a model/vendor identity)"@
}

impl ShureAdapter {
    pub closed spec fn name(&self) -> Seq<char> {
        self.id@
    }

    /// What was read and is not yet a whole message.
    pub closed spec fn pending(&self) -> Seq<char> {
        self.parser@
    }

    /// What is known of the channels.
    pub closed spec fn known(&self) -> Map<u16, MicState> {
        self.channels@
    }

    pub fn new(id: &str) -> (r: Self)
        ensures
            r.name() == id@,
            r.pending() == Seq::<char>::empty(),
            r.known() == Map::<u16, MicState>::empty(),
    {
        ShureAdapter {
            id: id.to_owned(),
            parser: ShureStreamParser::new(),
            channels: Channels::new(),
        }
    }

    pub fn id(&self) -> (r: &str)
        ensures
            r@ == self.name(),
    {
        self.id.as_str()
    }

    /// What to send first: it turns the meters on, for all channels.
    pub fn metering_request() -> (r: String)
        ensures
            r@ == framed("SET 0 METER_RATE 00500"@),
    {
        Self::frame("SET 0 METER_RATE 00500")
    }

    fn frame(message: &str) -> (r: String)
        ensures
            r@ == framed(message@),
    {
        let mut out: String = "< ".to_owned();
        out.append(message);
        out.append(" >");
        out
    }

    /// What to send to learn a channel's state.
    pub fn state_request(channel: u16) -> (r: String)
        ensures
            r@ == framed("GET "@ + text::decimal(channel as nat) + " ALL"@),
    {
        let mut message: String = "GET ".to_owned();
        push_decimal(&mut message, channel as u64);
        message.append(" ALL");
        Self::frame(message.as_str())
    }

    /// What to send to mute a channel, or to unmute it.
    pub fn set_mute(channel: u16, muted: bool) -> (r: String)
        ensures
            r@ == framed(
                "SET "@ + text::decimal(channel as nat) + " AUDIO_MUTE "@ + (if muted {
                    "ON"@
                } else {
                    "OFF"@
                }),
            ),
    {
        let mut message: String = "SET ".to_owned();
        push_decimal(&mut message, channel as u64);
        message.append(" AUDIO_MUTE ");
        if muted {
            message.append("ON");
        } else {
            message.append("OFF");
        }
        Self::frame(message.as_str())
    }

    /// Refuses: the protocol has no such query.
    pub fn identify() -> (r: Result<DeviceInfo, AdapterError>)
        ensures
            r is Err,
            r->Err_0@ == AdapterErrorModel::Protocol(no_identity()),
    {
        Err(
            AdapterError::protocol(
                "identify: Shure's command-string protocol has no device-identity query for receivers (DEVICE_ID is a user-settable label, not a model/vendor identity)",
            ),
        )
    }

    /// Whether a query of a channel is over, `polls` looks after its request was sent.
    pub fn get_state(&self, channel: u16, polls: u32) -> (r: Option<Result<MicState, AdapterError>>)
        ensures
            match r {
                Some(Ok(state)) => self.known().contains_key(channel) && state
                    == self.known()[channel],
                Some(Err(e)) => !self.known().contains_key(channel) && polls >= mic::MAX_POLLS && e@
                    == AdapterErrorModel::Protocol(mic::no_reply_text(channel)),
                None => !self.known().contains_key(channel) && polls < mic::MAX_POLLS,
            },
    {
        mic::query_outcome(&self.channels, channel, polls)
    }

    fn apply(&mut self, update: ParsedUpdate) -> (r: MicEvent)
        ensures
            final(self).name() == old(self).name(),
            final(self).pending() == old(self).pending(),
            r@ == (MicEventModel {
                address: MicAddressModel { device_id: old(self).name(), channel: update.of() },
                state: update.on(mic::known(old(self).known(), update.of())),
            }),
            final(self).known() == old(self).known().insert(update.of(), r.state),
    {
        let channel: u16 = match update {
            ParsedUpdate::Mute { channel, .. } => channel,
            ParsedUpdate::BatteryCharge { channel, .. } => channel,
            ParsedUpdate::BatteryRunTime { channel, .. } => channel,
            ParsedUpdate::Frequency { channel, .. } => channel,
            ParsedUpdate::Sample { channel, .. } => channel,
        };
        let mut state = self.channels.get_or_empty(channel);
        match update {
            ParsedUpdate::Mute { muted, .. } => {
                state.muted = muted;
            },
            ParsedUpdate::BatteryCharge { percent, .. } => {
                state.battery_percent = percent;
            },
            ParsedUpdate::BatteryRunTime { minutes, .. } => {
                state.battery_minutes_remaining = minutes;
            },
            ParsedUpdate::Frequency { khz, .. } => {
                state.frequency_khz = Some(Reading::Unsigned(khz as u64));
            },
            ParsedUpdate::Sample { antenna, rf_dbm, audio_level, .. } => {
                state.antenna = antenna;
                state.rf_level_dbm = Some(Reading::Signed(rf_dbm as i64));
                state.audio_level = Some(audio_level);
            },
        }
        self.channels.set(channel, state);
        MicEvent { address: MicAddress::new(self.id.as_str(), channel), state }
    }

    /// Takes in what was read. Gives the events that the messages in it bring.
    pub fn receive(&mut self, data: &[u8]) -> (r: Vec<MicEvent>)
        ensures
            final(self).name() == old(self).name(),
            final(self).pending() == unframed(old(self).pending() + text::utf8_lossy(data@)),
            (mic::event_models(r@), final(self).known()) == events_of(
                old(self).name(),
                old(self).known(),
                frames(old(self).pending() + text::utf8_lossy(data@)),
            ),
            text::read_faithfully(data@),
    {
        self.parser.push(data);
        let ghost stream = self.pending();
        let ghost whole = events_of(old(self).name(), old(self).known(), frames(stream));
        let mut events: Vec<MicEvent> = Vec::new();
        assert(mic::event_models(events@) + whole.0 =~= whole.0);
        loop
            invariant
                self.name() == old(self).name(),
                stream == old(self).pending() + text::utf8_lossy(data@),
                text::read_faithfully(data@),
                whole == events_of(old(self).name(), old(self).known(), frames(stream)),
                unframed(self.pending()) == unframed(stream),
                ({
                    let (more, after) = events_of(
                        self.name(),
                        self.known(),
                        frames(self.pending()),
                    );
                    (mic::event_models(events@) + more, after) == whole
                }),
            decreases self.pending().len(),
        {
            let ghost before = self.pending();
            let ghost done = mic::event_models(events@);
            match self.parser.next_message() {
                Some(tokens) => {
                    let ghost words = text::texts(tokens@);
                    let ghost later = frames(self.pending());
                    assert(frames(before) == seq![words] + later);
                    assert((seq![words] + later)[0] == words);
                    assert((seq![words] + later).skip(1) =~= later);
                    if let Some(update) = parse_message(tokens.as_slice()) {
                        let event = self.apply(update);
                        events.push(event);
                        proof {
                            let (more, after) = events_of(self.name(), self.known(), later);
                            assert(mic::event_models(events@) =~= done.push(event@));
                            assert(done + (seq![event@] + more) =~= done.push(event@) + more);
                        }
                    }
                },
                None => {
                    assert(done + Seq::<MicEventModel>::empty() =~= done);
                    return events;
                },
            }
        }
    }
}

/// A reading of an update stays until another update of the same channel replaces it.
pub proof fn an_update_leaves_other_channels_alone(
    id: Seq<char>,
    channels: Map<u16, MicState>,
    message: Seq<Seq<char>>,
    channel: u16,
)
    requires
        parsed(message) is Some ==> parsed(message)->Some_0.of() != channel,
    ensures
        mic::known(events_of(id, channels, seq![message]).1, channel) == mic::known(
            channels,
            channel,
        ),
{
    assert(seq![message].skip(1) =~= Seq::<Seq<Seq<char>>>::empty());
    reveal_with_fuel(events_of, 2);
}

/// No reply is ever about channel 0.
pub proof fn a_reply_names_a_channel(message: Seq<Seq<char>>)
    ensures
        parsed(message) is Some ==> parsed(message)->Some_0.of() != 0,
{
}

/// Whether a character stands nowhere in a text.
pub open spec fn is_free_of(s: Seq<char>, c: char) -> bool {
    forall|i: int| 0 <= i < s.len() ==> #[trigger] s[i] != c
}

/// A message is what stands between '<' and the next '>', as its words; what stands before it is
/// dropped, and the rest is read on. Without a whole message everything stays.
pub proof fn a_stream_falls_into_its_messages(
    before: Seq<char>,
    body: Seq<char>,
    rest: Seq<char>,
)
    requires
        is_free_of(before, '<'),
        is_free_of(body, '>'),
    ensures
        frames(before + seq!['<'] + body + seq!['>'] + rest) == seq![text::words(body)] + frames(
            rest,
        ),
        unframed(before + seq!['<'] + body + seq!['>'] + rest) == unframed(rest),
        frames(before).len() == 0,
        unframed(before) == before,
        frames(before + seq!['<'] + body).len() == 0,
        unframed(before + seq!['<'] + body) == before + seq!['<'] + body,
{
    let whole = before + seq!['<'] + body + seq!['>'] + rest;
    let open = before + seq!['<'] + body;
    let i = before.len() as int;
    text::first_index_is_first(before, '<');
    assert forall|j: int| 0 <= j < i implies #[trigger] whole[j] != '<' by {
        assert(whole[j] == before[j]);
    }
    assert forall|j: int| 0 <= j < i implies #[trigger] open[j] != '<' by {
        assert(open[j] == before[j]);
    }
    lemma_first_index_is(whole, '<', i);
    lemma_first_index_is(open, '<', i);
    let tail = whole.skip(i);
    let k = body.len() + 1;
    assert(tail =~= seq!['<'] + body + seq!['>'] + rest);
    assert forall|j: int| 0 <= j < k implies #[trigger] tail[j] != '>' by {
        if j > 0 {
            assert(tail[j] == body[j - 1]);
        }
    }
    lemma_first_index_is(tail, '>', k as int);
    assert(whole.subrange(i + 1, i + k) =~= body);
    assert(whole.skip(i + k + 1) =~= rest);
    let short = open.skip(i);
    assert(short =~= seq!['<'] + body);
    text::first_index_is_first(short, '>');
    assert forall|j: int| 0 <= j < short.len() implies #[trigger] short[j] != '>' by {
        if j > 0 {
            assert(short[j] == body[j - 1]);
        }
    }
}

/// What is sent is read, by the rules for what is received, as the words it was made of.
pub proof fn a_framed_message_is_its_words(message: Seq<char>, rest: Seq<char>)
    requires
        is_free_of(message, '>'),
    ensures
        frames(framed(message) + rest) == seq![text::words(message)] + frames(rest),
        unframed(framed(message) + rest) == unframed(rest),
{
    reveal_strlit("< ");
    reveal_strlit(" >");
    let none = Seq::<char>::empty();
    let body = seq![' '] + message + seq![' '];
    assert forall|i: int| 0 <= i < body.len() implies #[trigger] body[i] != '>' by {
        if 0 < i < body.len() - 1 {
            assert(body[i] == message[i - 1]);
        }
    }
    a_stream_falls_into_its_messages(none, body, rest);
    assert(framed(message) + rest =~= none + seq!['<'] + body + seq!['>'] + rest);
    text::white_space_parts_words(none, ' ', message);
    text::white_space_parts_words(seq![' '] + message, ' ', none);
    assert(none + seq![' '] + message =~= seq![' '] + message);
    assert(seq![' '] + message + seq![' '] + none =~= body);
    assert(text::words(none) + text::words(message) =~= text::words(message));
    assert(text::words(message) + text::words(none) =~= text::words(message));
}

proof fn lemma_one_event(
    id: Seq<char>,
    channels: Map<u16, MicState>,
    message: Seq<Seq<char>>,
)
    requires
        parsed(message) is Some,
    ensures
        ({
            let update = parsed(message)->Some_0;
            let state = update.on(mic::known(channels, update.of()));
            events_of(id, channels, seq![message]) == (
                seq![
                    MicEventModel {
                        address: MicAddressModel { device_id: id, channel: update.of() },
                        state,
                    },
                ],
                channels.insert(update.of(), state),
            )
        }),
{
    assert(seq![message].skip(1) =~= Seq::<Seq<Seq<char>>>::empty());
    reveal_with_fuel(events_of, 2);
    let update = parsed(message)->Some_0;
    let state = update.on(mic::known(channels, update.of()));
    let event = MicEventModel {
        address: MicAddressModel { device_id: id, channel: update.of() },
        state,
    };
    assert(seq![event] + Seq::<MicEventModel>::empty() =~= seq![event]);
}

/// Whether a list of events is the one event of a channel's new state, and nothing of any other channel
/// changed.
pub open spec fn tells_of(
    id: Seq<char>,
    before: Map<u16, MicState>,
    outcome: (Seq<MicEventModel>, Map<u16, MicState>),
    channel: u16,
) -> bool {
    let (events, after) = outcome;
    &&& after.contains_key(channel)
    &&& after == before.insert(channel, after[channel])
    &&& events.len() == 1
    &&& events[0].address.device_id == id
    &&& events[0].address.channel == channel
    &&& events[0].state == after[channel]
}

/// A report of a channel makes its value known, and leaves everything else known of the channel as it
/// was: the mute, on for "ON" alone; the charge, none above 100; the run time, none from 65535 on; the
/// frequency.
pub proof fn a_report_is_then_known(
    id: Seq<char>,
    channels: Map<u16, MicState>,
    channel: u16,
    value: Seq<char>,
    n: nat,
)
    requires
        channel != 0,
    ensures
        ({
            let message = seq!["REP"@, text::decimal(channel as nat), "AUDIO_MUTE"@, value];
            let outcome = events_of(id, channels, seq![message]);
            &&& tells_of(id, channels, outcome, channel)
            &&& outcome.1[channel] == (MicState {
                muted: value == "ON"@,
                ..mic::known(channels, channel)
            })
        }),
        n <= 0xffff ==> ({
            let message = seq![
                "REP"@,
                text::decimal(channel as nat),
                "BATT_CHARGE"@,
                text::decimal(n),
            ];
            let outcome = events_of(id, channels, seq![message]);
            &&& tells_of(id, channels, outcome, channel)
            &&& outcome.1[channel] == (MicState {
                battery_percent: if n <= 100 {
                    Some(n as u8)
                } else {
                    None
                },
                ..mic::known(channels, channel)
            })
        }),
        n <= 0xffff_ffff ==> ({
            let message = seq![
                "REP"@,
                text::decimal(channel as nat),
                "BATT_RUN_TIME"@,
                text::decimal(n),
            ];
            let outcome = events_of(id, channels, seq![message]);
            &&& tells_of(id, channels, outcome, channel)
            &&& outcome.1[channel] == (MicState {
                battery_minutes_remaining: if n < 65535 {
                    Some(n as u16)
                } else {
                    None
                },
                ..mic::known(channels, channel)
            })
        }),
        n <= 0xffff_ffff ==> ({
            let message = seq![
                "REP"@,
                text::decimal(channel as nat),
                "FREQUENCY"@,
                text::decimal(n),
            ];
            let outcome = events_of(id, channels, seq![message]);
            &&& tells_of(id, channels, outcome, channel)
            &&& outcome.1[channel] == (MicState {
                frequency_khz: Some(Reading::Unsigned(n as u64)),
                ..mic::known(channels, channel)
            })
        }),
{
    let c = text::decimal(channel as nat);
    text::decimal_reads_back(channel as nat, 0xffff);
    reveal_strlit("AUDIO_MUTE");
    reveal_strlit("BATT_CHARGE");
    reveal_strlit("BATT_RUN_TIME");
    reveal_strlit("FREQUENCY");
    assert("AUDIO_MUTE"@.len() == 10 && "BATT_CHARGE"@.len() == 11 && "BATT_RUN_TIME"@.len() == 13
        && "FREQUENCY"@.len() == 9);
    lemma_one_event(id, channels, seq!["REP"@, c, "AUDIO_MUTE"@, value]);
    if n <= 0xffff {
        text::decimal_reads_back(n, 0xffff);
        lemma_one_event(id, channels, seq!["REP"@, c, "BATT_CHARGE"@, text::decimal(n)]);
    }
    if n <= 0xffff_ffff {
        text::decimal_reads_back(n, 0xffff_ffff);
        lemma_one_event(id, channels, seq!["REP"@, c, "BATT_RUN_TIME"@, text::decimal(n)]);
        lemma_one_event(id, channels, seq!["REP"@, c, "FREQUENCY"@, text::decimal(n)]);
    }
}

/// A sample makes the antenna, the level and the audio level known together: the level is 128 less than
/// the number that came, the audio level the number itself, the antenna the letter that is no X.
pub proof fn a_sample_is_then_known(
    id: Seq<char>,
    channels: Map<u16, MicState>,
    channel: u16,
    antenna: Seq<char>,
    rf: nat,
    audio: nat,
)
    requires
        channel != 0,
        rf <= 32767,
        audio <= 255,
    ensures
        ({
            let message = seq![
                "SAMPLE"@,
                text::decimal(channel as nat),
                "ALL"@,
                antenna,
                text::decimal(rf),
                text::decimal(audio),
            ];
            let outcome = events_of(id, channels, seq![message]);
            &&& tells_of(id, channels, outcome, channel)
            &&& outcome.1[channel] == (MicState {
                antenna: if antenna == "AX"@ {
                    Some(AntennaDiversity::A)
                } else if antenna == "XB"@ {
                    Some(AntennaDiversity::B)
                } else if antenna == "XX"@ {
                    Some(AntennaDiversity::Inactive)
                } else {
                    None
                },
                rf_level_dbm: Some(Reading::Signed((rf - 128) as i64)),
                audio_level: Some(audio as u8),
                ..mic::known(channels, channel)
            })
        }),
{
    let c = text::decimal(channel as nat);
    text::decimal_reads_back(channel as nat, 0xffff);
    text::decimal_reads_back(audio, 0xff);
    text::signs_are_read(rf, 0, seq![]);
    let message = seq![
        "SAMPLE"@,
        c,
        "ALL"@,
        antenna,
        text::decimal(rf),
        text::decimal(audio),
    ];
    lemma_one_event(id, channels, message);
}

/// A message of another form, about channel 0, about another parameter, or with a value that is no
/// number where one is due, brings nothing.
pub proof fn other_messages_are_passed_over(
    id: Seq<char>,
    channels: Map<u16, MicState>,
    message: Seq<Seq<char>>,
)
    requires
        message.len() != 4 || message[0] != "REP"@ || text::parsed_unsigned(message[1], 0xffff)
            is None || text::parsed_unsigned(message[1], 0xffff) == Some(0nat) || message[2]
            != "AUDIO_MUTE"@ && text::parsed_unsigned(message[3], 0xffff_ffff) is None
            || message[2] != "AUDIO_MUTE"@ && message[2] != "BATT_CHARGE"@ && message[2]
            != "BATT_RUN_TIME"@ && message[2] != "FREQUENCY"@,
        message.len() != 6 || message[0] != "SAMPLE"@ || message[2] != "ALL"@
            || text::parsed_unsigned(message[1], 0xffff) is None || text::parsed_unsigned(
            message[1],
            0xffff,
        ) == Some(0nat) || text::parsed_i16(message[4]) is None || text::parsed_unsigned(
            message[5],
            0xff,
        ) is None,
    ensures
        events_of(id, channels, seq![message]) == (Seq::<MicEventModel>::empty(), channels),
{
    assert(seq![message].skip(1) =~= Seq::<Seq<Seq<char>>>::empty());
    reveal_with_fuel(events_of, 2);
}

/// What the messages of two stretches bring is what those of the first bring, and then what those of
/// the second do.
pub proof fn messages_take_effect_one_after_the_other(
    id: Seq<char>,
    channels: Map<u16, MicState>,
    first: Seq<Seq<Seq<char>>>,
    second: Seq<Seq<Seq<char>>>,
)
    ensures
        ({
            let (events, after) = events_of(id, channels, first);
            let (more, later) = events_of(id, after, second);
            events_of(id, channels, first + second) == (events + more, later)
        }),
    decreases first.len(),
{
    if first.len() == 0 {
        assert(first + second =~= second);
        assert(Seq::<MicEventModel>::empty() + events_of(id, channels, second).0 =~= events_of(
            id,
            channels,
            second,
        ).0);
    } else {
        assert((first + second)[0] == first[0]);
        assert((first + second).skip(1) =~= first.skip(1) + second);
        match parsed(first[0]) {
            None => {
                messages_take_effect_one_after_the_other(id, channels, first.skip(1), second);
            },
            Some(update) => {
                let state = update.on(mic::known(channels, update.of()));
                let event = MicEventModel {
                    address: MicAddressModel { device_id: id, channel: update.of() },
                    state,
                };
                let next = channels.insert(update.of(), state);
                messages_take_effect_one_after_the_other(id, next, first.skip(1), second);
                let (events, after) = events_of(id, next, first.skip(1));
                let more = events_of(id, after, second).0;
                assert((seq![event] + events) + more =~= seq![event] + (events + more));
            },
        }
    }
}

} // verus!
