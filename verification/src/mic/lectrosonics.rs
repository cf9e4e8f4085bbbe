//! Lectrosonics networked receivers: lines of ASCII over TCP, each a channel and pairs of a key and
//! a value. The wire format is provisional; no reading is given a unit that nobody documented.
use vstd::prelude::*;

use crate::bridge::adapter::{AdapterError, AdapterErrorModel, DeviceInfo};
use crate::mic;
use crate::mic::shure::parse_channel;
use crate::mic::{
    shure, Channels, MicAddress, MicAddressModel, MicEvent, MicEventModel, MicState, Reading,
};
use crate::text;
use crate::text::{
    chars_of, from_utf8_lossy, parse_u16, parse_u32, push_decimal, split_words, text_eq,
};

verus! {

/// Provisional, as the rest of the format is.
pub const DEFAULT_LECTROSONICS_PORT: u16 = 4992;

// ---------------------------------------------------------------------------
// Framing
// ---------------------------------------------------------------------------

/// Whether a character ends a line.
pub open spec fn is_break(c: char) -> bool {
    c == '\r' || c == '\n'
}

/// The position of the first character that ends a line.
pub open spec fn first_break(buf: Seq<char>) -> Option<int>
    decreases buf.len(),
{
    if buf.len() == 0 {
        None
    } else if is_break(buf[0]) {
        Some(0)
    } else {
        match first_break(buf.skip(1)) {
            Some(k) => Some(k + 1),
            None => None,
        }
    }
}

/// `buf` without the line ends that it begins with.
pub open spec fn without_breaks(buf: Seq<char>) -> Seq<char>
    decreases buf.len(),
{
    if buf.len() > 0 && is_break(buf[0]) {
        without_breaks(buf.skip(1))
    } else {
        buf
    }
}

/// The words of the first line of a stream that has any, and what follows that line; `None` while
/// no such line is whole. Second, what is then left of the stream.
pub open spec fn next_line(buf: Seq<char>) -> (Option<Seq<Seq<char>>>, Seq<char>)
    decreases buf.len(),
{
    match first_break(buf) {
        None => (None, buf),
        Some(k) => if 0 <= k < buf.len() && without_breaks(buf.skip(k + 1)).len() < buf.len() {
            let rest = without_breaks(buf.skip(k + 1));
            let words = text::words(buf.take(k + 1));
            if words.len() == 0 {
                next_line(rest)
            } else {
                (Some(words), rest)
            }
        } else {
            (None, buf)
        },
    }
}

/// The whole lines of a stream, each as its words.
pub open spec fn lines(buf: Seq<char>) -> Seq<Seq<Seq<char>>>
    decreases buf.len(),
{
    match next_line(buf) {
        (Some(words), rest) => if rest.len() < buf.len() {
            seq![words] + lines(rest)
        } else {
            seq![]
        },
        (None, _) => seq![],
    }
}

/// What is left of a stream after its whole lines.
pub open spec fn unfinished(buf: Seq<char>) -> Seq<char>
    decreases buf.len(),
{
    match next_line(buf) {
        (Some(words), rest) => if rest.len() < buf.len() {
            unfinished(rest)
        } else {
            buf
        },
        (None, rest) => rest,
    }
}

proof fn lemma_first_break(buf: Seq<char>)
    ensures
        match first_break(buf) {
            Some(k) => 0 <= k < buf.len() && is_break(buf[k]) && forall|j: int|
                0 <= j < k ==> !is_break(#[trigger] buf[j]),
            None => forall|j: int| 0 <= j < buf.len() ==> !is_break(#[trigger] buf[j]),
        },
    decreases buf.len(),
{
    if buf.len() > 0 && !is_break(buf[0]) {
        let t = buf.skip(1);
        lemma_first_break(t);
        assert forall|j: int| 1 <= j < buf.len() implies #[trigger] buf[j] == t[j - 1] by {}
    }
}

proof fn lemma_first_break_is(buf: Seq<char>, k: int)
    requires
        0 <= k < buf.len(),
        is_break(buf[k]),
        forall|j: int| 0 <= j < k ==> !is_break(#[trigger] buf[j]),
    ensures
        first_break(buf) == Some(k),
{
    lemma_first_break(buf);
    match first_break(buf) {
        Some(i) => {
            if i < k {
                assert(!is_break(buf[i]));
            } else if k < i {
                assert(!is_break(buf[k]));
            }
        },
        None => {
            assert(!is_break(buf[k]));
        },
    }
}

proof fn lemma_without_breaks(buf: Seq<char>)
    ensures
        without_breaks(buf).len() <= buf.len(),
    decreases buf.len(),
{
    if buf.len() > 0 && is_break(buf[0]) {
        lemma_without_breaks(buf.skip(1));
    }
}

proof fn lemma_next_line(buf: Seq<char>)
    ensures
        next_line(buf).1.len() <= buf.len(),
        next_line(buf).0 is Some ==> next_line(buf).1.len() < buf.len(),
        next_line(buf).0 is None ==> first_break(next_line(buf).1) is None,
    decreases buf.len(),
{
    lemma_first_break(buf);
    if let Some(k) = first_break(buf) {
        lemma_without_breaks(buf.skip(k + 1));
        let rest = without_breaks(buf.skip(k + 1));
        if text::words(buf.take(k + 1)).len() == 0 {
            lemma_next_line(rest);
        }
    }
}

proof fn lemma_a_break_is_no_word(c: char)
    requires
        is_break(c),
    ensures
        text::words(seq![c]).len() == 0,
{
    assert(seq![c].drop_last() =~= Seq::<char>::empty());
    reveal_with_fuel(text::words, 2);
}

/// Line ends at the start of a stream bring nothing.
proof fn lemma_leading_breaks(buf: Seq<char>)
    ensures
        lines(without_breaks(buf)) == lines(buf),
        unfinished(without_breaks(buf)) == unfinished(buf),
{
    if buf.len() > 0 && is_break(buf[0]) {
        lemma_first_break_is(buf, 0);
        lemma_a_break_is_no_word(buf[0]);
        assert(buf.take(1) =~= seq![buf[0]]);
        lemma_without_breaks(buf.skip(1));
        assert(next_line(buf) == next_line(without_breaks(buf)));
        lemma_next_line(buf);
        lemma_next_line(without_breaks(buf));
    }
}

/// Stripping line ends commutes with adding to a stream, as far as lines are concerned.
proof fn lemma_without_breaks_of_more(buf: Seq<char>, more: Seq<char>)
    ensures
        without_breaks(buf + more) == without_breaks(without_breaks(buf) + more),
    decreases buf.len(),
{
    if buf.len() > 0 && is_break(buf[0]) {
        lemma_without_breaks_of_more(buf.skip(1), more);
        assert((buf + more).skip(1) =~= buf.skip(1) + more);
    }
}

/// A stream may be cut anywhere, also between the two characters of one line end. The lines that
/// came whole with the first part, and those that are found once the second part was added to the
/// remainder, are the lines of the stream.
pub proof fn a_stream_may_be_cut_anywhere(first: Seq<char>, second: Seq<char>)
    ensures
        lines(first + second) == lines(first) + lines(unfinished(first) + second),
        unfinished(first + second) == unfinished(unfinished(first) + second),
    decreases first.len(),
{
    let all = first + second;
    lemma_first_break(first);
    match first_break(first) {
        None => {
            assert(lines(first) + lines(all) =~= lines(all));
        },
        Some(k) => {
            assert forall|j: int| 0 <= j < k implies !is_break(#[trigger] all[j]) by {
                assert(!is_break(first[j]));
            }
            lemma_first_break_is(all, k);
            assert(all.take(k + 1) =~= first.take(k + 1));
            assert(all.skip(k + 1) =~= first.skip(k + 1) + second);
            let rest = without_breaks(first.skip(k + 1));
            lemma_without_breaks(first.skip(k + 1));
            lemma_without_breaks(all.skip(k + 1));
            lemma_without_breaks_of_more(first.skip(k + 1), second);
            let rest_all = without_breaks(all.skip(k + 1));
            assert(rest_all == without_breaks(rest + second));
            lemma_leading_breaks(rest + second);
            a_stream_may_be_cut_anywhere(rest, second);
            let words = text::words(first.take(k + 1));
            lemma_next_line(first);
            lemma_next_line(all);
            lemma_next_line(rest);
            lemma_next_line(rest_all);
            if words.len() == 0 {
                assert(next_line(first) == next_line(rest));
                assert(next_line(all) == next_line(rest_all));
                assert(lines(first) == lines(rest));
                assert(unfinished(first) == unfinished(rest));
                assert(lines(all) == lines(rest_all));
                assert(unfinished(all) == unfinished(rest_all));
            } else {
                let late = lines(unfinished(rest) + second);
                assert((seq![words] + lines(rest)) + late =~= seq![words] + (lines(rest) + late));
            }
        },
    }
}

/// Splits a stream of octets into lines.
#[derive(Debug, Clone)]
pub struct LectroStreamParser {
    buf: Vec<char>,
}

impl View for LectroStreamParser {
    type V = Seq<char>;

    closed spec fn view(&self) -> Seq<char> {
        self.buf@
    }
}

fn find_break(s: &[char]) -> (r: Option<usize>)
    ensures
        match r {
            Some(k) => first_break(s@) == Some(k as int) && k < s@.len(),
            None => first_break(s@) is None,
        },
{
    let mut i: usize = 0;
    while i < s.len()
        invariant
            i <= s.len(),
            forall|j: int| 0 <= j < i ==> !is_break(#[trigger] s@[j]),
        decreases s.len() - i,
    {
        if s[i] == '\r' || s[i] == '\n' {
            proof {
                lemma_first_break_is(s@, i as int);
            }
            return Some(i);
        }
        i = i + 1;
    }
    proof {
        lemma_first_break(s@);
        if let Some(k) = first_break(s@) {
            assert(!is_break(s@[k]));
        }
    }
    None
}

impl LectroStreamParser {
    pub fn new() -> (r: Self)
        ensures
            r@ == Seq::<char>::empty(),
    {
        LectroStreamParser { buf: Vec::new() }
    }

    /// Takes in what was read.
    pub fn push(&mut self, data: &[u8])
        ensures
            final(self)@ == old(self)@ + text::utf8_lossy(data@),
            text::read_faithfully(data@),
    {
        let read = from_utf8_lossy(data);
        let mut more = chars_of(read.as_str());
        self.buf.append(&mut more);
    }

    /// Takes out the first whole line that is not blank, as its words.
    pub fn next_message(&mut self) -> (r: Option<Vec<String>>)
        ensures
            match r {
                Some(tokens) => next_line(old(self)@).0 == Some(text::texts(tokens@))
                    && final(self)@.len() < old(self)@.len(),
                None => next_line(old(self)@).0 is None,
            },
            final(self)@ == next_line(old(self)@).1,
    {
        loop
            invariant
                next_line(self@) == next_line(old(self)@),
                self@.len() <= old(self)@.len(),
            decreases self@.len(),
        {
            let len: usize = self.buf.len();
            let k: usize = match find_break(self.buf.as_slice()) {
                Some(k) => k,
                None => {
                    return None;
                },
            };
            let line = vstd::slice::slice_subrange(self.buf.as_slice(), 0, k + 1);
            assert(line@ =~= self@.take(k + 1));
            let tokens = split_words(line);
            let ghost tail = self@.skip(k + 1);
            let mut end: usize = k + 1;
            while end < len && (self.buf[end] == '\r' || self.buf[end] == '\n')
                invariant
                    k + 1 <= end <= len,
                    len == self@.len(),
                    tail == self@.skip(k + 1),
                    without_breaks(self@.skip(end as int)) == without_breaks(tail),
                decreases len - end,
            {
                assert(self@.skip(end as int).skip(1) =~= self@.skip(end + 1));
                end = end + 1;
            }
            let rest = vstd::slice::slice_to_vec(
                vstd::slice::slice_subrange(self.buf.as_slice(), end, len),
            );
            assert(rest@ =~= self@.skip(end as int));
            assert(rest@ == without_breaks(tail));
            self.buf = rest;
            if tokens.len() > 0 {
                assert(text::texts(tokens@).len() > 0);
                return Some(tokens);
            }
            assert(text::texts(tokens@).len() == 0);
        }
    }
}

// ---------------------------------------------------------------------------
// Messages
// ---------------------------------------------------------------------------

/// What a line says of a channel. `None` is "not in this line".
#[derive(Debug, Clone, Copy, PartialEq, Eq, Structural)]
pub struct LectroUpdate {
    pub channel: u16,
    pub frequency_khz: Option<u32>,
    pub rf_quality_percent: Option<u8>,
    pub battery_percent: Option<u8>,
    pub muted: Option<bool>,
}

/// A percentage; a number above 100 is none.
pub open spec fn percent(n: nat) -> Option<u8> {
    if n <= 100 {
        Some(n as u8)
    } else {
        None
    }
}

/// An update with one more pair of key and value; `None` where the value of a key that wants a
/// number is none. Keys that are not known are passed over.
pub open spec fn with_pair(update: LectroUpdate, key: Seq<char>, value: Seq<char>) -> Option<
    LectroUpdate,
> {
    if key == "FREQ"@ {
        match text::parsed_unsigned(value, 0xffff_ffff) {
            Some(n) => Some(LectroUpdate { frequency_khz: Some(n as u32), ..update }),
            None => None,
        }
    } else if key == "RF"@ {
        match text::parsed_unsigned(value, 0xffff) {
            Some(n) => Some(LectroUpdate { rf_quality_percent: percent(n), ..update }),
            None => None,
        }
    } else if key == "BATT"@ {
        match text::parsed_unsigned(value, 0xffff) {
            Some(n) => Some(LectroUpdate { battery_percent: percent(n), ..update }),
            None => None,
        }
    } else if key == "MUTE"@ {
        Some(LectroUpdate { muted: Some(value == "ON"@), ..update })
    } else {
        Some(update)
    }
}

/// An update with the pairs from word `i` of a line on. A key without a value is passed over.
pub open spec fn with_pairs(update: LectroUpdate, t: Seq<Seq<char>>, i: int) -> Option<LectroUpdate>
    decreases t.len() - i,
{
    if i + 1 < t.len() {
        match with_pair(update, t[i], t[i + 1]) {
            Some(u) => with_pairs(u, t, i + 2),
            None => None,
        }
    } else {
        Some(update)
    }
}

/// What a line says; `None` where it is no telemetry, or malformed.
pub open spec fn parsed(t: Seq<Seq<char>>) -> Option<LectroUpdate> {
    if t.len() < 2 || (t[0] != "RX"@ && t[0] != "REP"@) {
        None
    } else {
        match shure::named_channel(t[1]) {
            Some(channel) => with_pairs(
                LectroUpdate {
                    channel,
                    frequency_khz: None,
                    rf_quality_percent: None,
                    battery_percent: None,
                    muted: None,
                },
                t,
                2,
            ),
            None => None,
        }
    }
}

fn to_percent(n: u16) -> (r: Option<u8>)
    ensures
        r == percent(n as nat),
{
    if n <= 100 {
        Some(n as u8)
    } else {
        None
    }
}

fn add_pair(update: LectroUpdate, key: &str, value: &str) -> (r: Option<LectroUpdate>)
    ensures
        r == with_pair(update, key@, value@),
{
    let mut update = update;
    if text_eq(key, "FREQ") {
        match parse_u32(value) {
            Some(n) => {
                update.frequency_khz = Some(n);
            },
            None => {
                return None;
            },
        }
    } else if text_eq(key, "RF") {
        match parse_u16(value) {
            Some(n) => {
                update.rf_quality_percent = to_percent(n);
            },
            None => {
                return None;
            },
        }
    } else if text_eq(key, "BATT") {
        match parse_u16(value) {
            Some(n) => {
                update.battery_percent = to_percent(n);
            },
            None => {
                return None;
            },
        }
    } else if text_eq(key, "MUTE") {
        update.muted = Some(text_eq(value, "ON"));
    }
    Some(update)
}

/// Reads a line.
pub fn parse_message(tokens: &[String]) -> (r: Option<LectroUpdate>)
    ensures
        r == parsed(text::texts(tokens@)),
{
    let ghost t = text::texts(tokens@);
    let len: usize = tokens.len();
    if len < 2 || (!text_eq(tokens[0].as_str(), "RX") && !text_eq(tokens[0].as_str(), "REP")) {
        return None;
    }
    let channel: u16 = match parse_channel(tokens[1].as_str()) {
        Some(channel) => channel,
        None => {
            return None;
        },
    };
    let mut update = LectroUpdate {
        channel,
        frequency_khz: None,
        rf_quality_percent: None,
        battery_percent: None,
        muted: None,
    };
    let mut i: usize = 2;
    while i < len && len - i >= 2
        invariant
            2 <= i <= len,
            len == tokens@.len(),
            t == text::texts(tokens@),
            with_pairs(update, t, i as int) == parsed(t),
        decreases len - i,
    {
        match add_pair(update, tokens[i].as_str(), tokens[i + 1].as_str()) {
            Some(u) => {
                update = u;
            },
            None => {
                return None;
            },
        }
        i = i + 2;
    }
    Some(update)
}

// ---------------------------------------------------------------------------
// The adapter
// ---------------------------------------------------------------------------

impl LectroUpdate {
    /// A channel's state with the update. What the line did not say stays.
    pub open spec fn on(self, state: MicState) -> MicState {
        MicState {
            frequency_khz: match self.frequency_khz {
                Some(khz) => Some(Reading::Unsigned(khz as u64)),
                None => state.frequency_khz,
            },
            rf_quality_percent: match self.rf_quality_percent {
                Some(q) => Some(q),
                None => state.rf_quality_percent,
            },
            battery_percent: match self.battery_percent {
                Some(b) => Some(b),
                None => state.battery_percent,
            },
            muted: match self.muted {
                Some(m) => m,
                None => state.muted,
            },
            ..state
        }
    }
}

/// The events that lines bring, and what is then known of the channels. A line that is not
/// understood brings none.
pub open spec fn events_of(
    id: Seq<char>,
    channels: Map<u16, MicState>,
    messages: Seq<Seq<Seq<char>>>,
) -> (Seq<MicEventModel>, Map<u16, MicState>)
    decreases messages.len(),
{
    if messages.len() == 0 {
        (seq![], channels)
    } else {
        match parsed(messages[0]) {
            None => events_of(id, channels, messages.skip(1)),
            Some(update) => {
                let state = update.on(mic::known(channels, update.channel));
                let (more, after) = events_of(
                    id,
                    channels.insert(update.channel, state),
                    messages.skip(1),
                );
                let event = MicEventModel {
                    address: MicAddressModel { device_id: id, channel: update.channel },
                    state,
                };
                (seq![event] + more, after)
            },
        }
    }
}

/// A receiver's adapter.
#[derive(Debug, Clone)]
pub struct LectrosonicsAdapter {
    id: String,
    parser: LectroStreamParser,
    channels: Channels,
}

/// Why the receiver cannot be identified.
pub open spec fn no_identity() -> Seq<char> {
    "identify: no documented Lectrosonics device-identity query is known here (this adapter's wire format is an unverified placeholder - see module doc comment)"@
}

impl LectrosonicsAdapter {
    pub closed spec fn name(&self) -> Seq<char> {
        self.id@
    }

    /// What was read and is not yet a whole line.
    pub closed spec fn pending(&self) -> Seq<char> {
        self.parser@
    }

    /// What is known of the channels.
    pub closed spec fn known(&self) -> Map<u16, MicState> {
        self.channels@
    }

    pub fn new(id: &str) -> (r: Self)
        ensures
            r.name() == id@,
            r.pending() == Seq::<char>::empty(),
            r.known() == Map::<u16, MicState>::empty(),
    {
        LectrosonicsAdapter {
            id: id.to_owned(),
            parser: LectroStreamParser::new(),
            channels: Channels::new(),
        }
    }

    pub fn id(&self) -> (r: &str)
        ensures
            r@ == self.name(),
    {
        self.id.as_str()
    }

    /// What to send first: it asks for everything.
    pub fn dump_request() -> (r: String)
        ensures
            r@ == "QUERY ALL\r"@,
    {
        "QUERY ALL\r".to_owned()
    }

    /// What to send to learn a channel's state.
    pub fn state_request(channel: u16) -> (r: String)
        ensures
            r@ == "GET "@ + text::decimal(channel as nat) + "\r"@,
    {
        let mut message: String = "GET ".to_owned();
        push_decimal(&mut message, channel as u64);
        message.append("\r");
        message
    }

    /// What to send to mute a channel, or to unmute it.
    pub fn set_mute(channel: u16, muted: bool) -> (r: String)
        ensures
            r@ == "SET "@ + text::decimal(channel as nat) + " MUTE "@ + (if muted {
                "ON"@
            } else {
                "OFF"@
            }) + "\r"@,
    {
        let mut message: String = "SET ".to_owned();
        push_decimal(&mut message, channel as u64);
        message.append(" MUTE ");
        if muted {
            message.append("ON");
        } else {
            message.append("OFF");
        }
        message.append("\r");
        message
    }

    /// Refuses: no such query is known.
    pub fn identify() -> (r: Result<DeviceInfo, AdapterError>)
        ensures
            r is Err,
            r->Err_0@ == AdapterErrorModel::Protocol(no_identity()),
    {
        Err(
            AdapterError::protocol(
                "identify: no documented Lectrosonics device-identity query is known here (this adapter's wire format is an unverified placeholder - see module doc comment)",
            ),
        )
    }

    /// Whether a query of a channel is over, `polls` looks after its request was sent.
    pub fn get_state(&self, channel: u16, polls: u32) -> (r: Option<Result<MicState, AdapterError>>)
        ensures
            match r {
                Some(Ok(state)) => self.known().contains_key(channel) && state
                    == self.known()[channel],
                Some(Err(e)) => !self.known().contains_key(channel) && polls >= mic::MAX_POLLS && e@
                    == AdapterErrorModel::Protocol(mic::no_reply_text(channel)),
                None => !self.known().contains_key(channel) && polls < mic::MAX_POLLS,
            },
    {
        mic::query_outcome(&self.channels, channel, polls)
    }

    fn apply(&mut self, update: LectroUpdate) -> (r: MicEvent)
        ensures
            final(self).name() == old(self).name(),
            final(self).pending() == old(self).pending(),
            r@ == (MicEventModel {
                address: MicAddressModel { device_id: old(self).name(), channel: update.channel },
                state: update.on(mic::known(old(self).known(), update.channel)),
            }),
            final(self).known() == old(self).known().insert(update.channel, r.state),
    {
        let mut state = self.channels.get_or_empty(update.channel);
        if let Some(khz) = update.frequency_khz {
            state.frequency_khz = Some(Reading::Unsigned(khz as u64));
        }
        if let Some(q) = update.rf_quality_percent {
            state.rf_quality_percent = Some(q);
        }
        if let Some(b) = update.battery_percent {
            state.battery_percent = Some(b);
        }
        if let Some(m) = update.muted {
            state.muted = m;
        }
        self.channels.set(update.channel, state);
        MicEvent { address: MicAddress::new(self.id.as_str(), update.channel), state }
    }

    /// Takes in what was read. Gives the events that the lines in it bring.
    pub fn receive(&mut self, data: &[u8]) -> (r: Vec<MicEvent>)
        ensures
            final(self).name() == old(self).name(),
            final(self).pending() == unfinished(old(self).pending() + text::utf8_lossy(data@)),
            (mic::event_models(r@), final(self).known()) == events_of(
                old(self).name(),
                old(self).known(),
                lines(old(self).pending() + text::utf8_lossy(data@)),
            ),
            text::read_faithfully(data@),
    {
        self.parser.push(data);
        let ghost stream = self.pending();
        let ghost whole = events_of(old(self).name(), old(self).known(), lines(stream));
        let mut events: Vec<MicEvent> = Vec::new();
        assert(mic::event_models(events@) + whole.0 =~= whole.0);
        loop
            invariant
                self.name() == old(self).name(),
                stream == old(self).pending() + text::utf8_lossy(data@),
                text::read_faithfully(data@),
                whole == events_of(old(self).name(), old(self).known(), lines(stream)),
                unfinished(self.pending()) == unfinished(stream),
                ({
                    let (more, after) = events_of(self.name(), self.known(), lines(self.pending()));
                    (mic::event_models(events@) + more, after) == whole
                }),
            decreases self.pending().len(),
        {
            let ghost before = self.pending();
            let ghost done = mic::event_models(events@);
            match self.parser.next_message() {
                Some(tokens) => {
                    let ghost words = text::texts(tokens@);
                    let ghost later = lines(self.pending());
                    assert(lines(before) == seq![words] + later);
                    assert((seq![words] + later)[0] == words);
                    assert((seq![words] + later).skip(1) =~= later);
                    if let Some(update) = parse_message(tokens.as_slice()) {
                        let event = self.apply(update);
                        events.push(event);
                        proof {
                            let (more, after) = events_of(self.name(), self.known(), later);
                            assert(mic::event_models(events@) =~= done.push(event@));
                            assert(done + (seq![event@] + more) =~= done.push(event@) + more);
                        }
                    }
                },
                None => {
                    assert(done + Seq::<MicEventModel>::empty() =~= done);
                    return events;
                },
            }
        }
    }
}

/// A line never brings a level in dBm, an audio level or an antenna.
pub proof fn nothing_is_invented(update: LectroUpdate, state: MicState)
    ensures
        update.on(state).rf_level_dbm == state.rf_level_dbm,
        update.on(state).audio_level == state.audio_level,
        update.on(state).audio_level_dbfs == state.audio_level_dbfs,
        update.on(state).antenna == state.antenna,
        update.on(state).battery_minutes_remaining == state.battery_minutes_remaining,
{
}

/// Whether no character of a text ends a line.
pub open spec fn is_one_line(s: Seq<char>) -> bool {
    forall|i: int| 0 <= i < s.len() ==> #[trigger] s[i] != '\r' && s[i] != '\n'
}

/// A line ends with a carriage return or a line feed, and is its words; one without any is passed over.
/// What does not end stays.
pub proof fn a_stream_falls_into_its_lines(line: Seq<char>, end: char, rest: Seq<char>)
    requires
        is_one_line(line),
        end == '\r' || end == '\n',
    ensures
        text::words(line).len() > 0 ==> lines(line + seq![end] + rest) == seq![text::words(line)]
            + lines(rest),
        text::words(line).len() == 0 ==> lines(line + seq![end] + rest) == lines(rest),
        unfinished(line + seq![end] + rest) == unfinished(rest),
        lines(line).len() == 0,
        unfinished(line) == line,
{
    let whole = line + seq![end] + rest;
    let k = line.len() as int;
    assert forall|j: int| 0 <= j < k implies !is_break(#[trigger] whole[j]) by {
        assert(whole[j] == line[j]);
    }
    lemma_first_break_is(whole, k);
    lemma_first_break(line);
    assert(whole.skip(k + 1) =~= rest);
    assert(whole.take(k + 1) =~= line + seq![end]);
    lemma_without_breaks(rest);
    let none = Seq::<char>::empty();
    text::white_space_parts_words(line, end, none);
    assert(line + seq![end] + none =~= line + seq![end]);
    assert(text::words(line) + text::words(none) =~= text::words(line));
    lemma_leading_breaks(rest);
    lemma_next_line(whole);
    lemma_next_line(without_breaks(rest));
    assert(first_break(line) is None);
    if text::words(line).len() == 0 {
        assert(next_line(whole) == next_line(without_breaks(rest)));
        assert(lines(whole) =~= lines(without_breaks(rest)));
    } else {
        assert(next_line(whole) == (Some(text::words(line)), without_breaks(rest)));
    }
}

/// A line says what its pairs say, one after the other, behind the word for telemetry and the channel.
/// A last word without another is passed over.
pub proof fn a_line_is_its_pairs(
    front: Seq<Seq<char>>,
    key: Seq<char>,
    value: Seq<char>,
    last: Seq<char>,
)
    requires
        front.len() >= 2,
        front.len() % 2 == 0,
        parsed(front) is Some,
    ensures
        parsed(front.push(key).push(value)) == with_pair(parsed(front)->Some_0, key, value),
        parsed(front.push(last)) == parsed(front),
{
    let more = front.push(key).push(value);
    let odd = front.push(last);
    assert(more[0] == front[0] && more[1] == front[1]);
    assert(odd[0] == front[0] && odd[1] == front[1]);
    let channel = shure::named_channel(front[1])->Some_0;
    let start = LectroUpdate {
        channel,
        frequency_khz: None,
        rf_quality_percent: None,
        battery_percent: None,
        muted: None,
    };
    lemma_pairs(start, front, key, value, 2);
    lemma_odd(start, front, last, 2);
}

proof fn lemma_pairs(
    u: LectroUpdate,
    front: Seq<Seq<char>>,
    key: Seq<char>,
    value: Seq<char>,
    i: int,
)
    requires
        0 <= i <= front.len(),
        (front.len() - i) % 2 == 0,
        with_pairs(u, front, i) is Some,
    ensures
        with_pairs(u, front.push(key).push(value), i) == with_pair(
            with_pairs(u, front, i)->Some_0,
            key,
            value,
        ),
    decreases front.len() - i,
{
    let more = front.push(key).push(value);
    if i < front.len() {
        assert(i + 1 < front.len());
        assert(more[i] == front[i] && more[i + 1] == front[i + 1]);
        lemma_pairs(with_pair(u, front[i], front[i + 1])->Some_0, front, key, value, i + 2);
    } else {
        assert(more[i] == key && more[i + 1] == value);
        reveal_with_fuel(with_pairs, 2);
    }
}

proof fn lemma_odd(u: LectroUpdate, front: Seq<Seq<char>>, last: Seq<char>, i: int)
    requires
        0 <= i <= front.len(),
        (front.len() - i) % 2 == 0,
        with_pairs(u, front, i) is Some,
    ensures
        with_pairs(u, front.push(last), i) == with_pairs(u, front, i),
    decreases front.len() - i,
{
    let more = front.push(last);
    if i < front.len() {
        assert(i + 1 < front.len());
        assert(more[i] == front[i] && more[i + 1] == front[i + 1]);
        lemma_odd(with_pair(u, front[i], front[i + 1])->Some_0, front, last, i + 2);
    }
}

/// What each pair says: the frequency, the quality and the charge as numbers, the last two none above
/// 100; the mute as on for "ON" alone. A key that is not known says nothing, and a number that is
/// none spoils the line.
pub proof fn a_pair_says_its_value(u: LectroUpdate, n: nat, key: Seq<char>, value: Seq<char>)
    ensures
        n <= 0xffff_ffff ==> with_pair(u, "FREQ"@, text::decimal(n)) == Some(
            LectroUpdate { frequency_khz: Some(n as u32), ..u },
        ),
        n <= 0xffff ==> with_pair(u, "RF"@, text::decimal(n)) == Some(
            LectroUpdate {
                rf_quality_percent: if n <= 100 {
                    Some(n as u8)
                } else {
                    None
                },
                ..u
            },
        ),
        n <= 0xffff ==> with_pair(u, "BATT"@, text::decimal(n)) == Some(
            LectroUpdate {
                battery_percent: if n <= 100 {
                    Some(n as u8)
                } else {
                    None
                },
                ..u
            },
        ),
        with_pair(u, "MUTE"@, value) == Some(LectroUpdate { muted: Some(value == "ON"@), ..u }),
        key != "FREQ"@ && key != "RF"@ && key != "BATT"@ && key != "MUTE"@ ==> with_pair(
            u,
            key,
            value,
        ) == Some(u),
        text::parsed_unsigned(value, 0xffff_ffff) is None ==> with_pair(u, "FREQ"@, value) is None
            && with_pair(u, "RF"@, value) is None && with_pair(u, "BATT"@, value) is None,
{
    reveal_strlit("FREQ");
    reveal_strlit("RF");
    reveal_strlit("BATT");
    reveal_strlit("MUTE");
    assert("FREQ"@[0] == 'F' && "BATT"@[0] == 'B' && "MUTE"@[0] == 'M' && "RF"@[0] == 'R');
    if n <= 0xffff_ffff {
        text::decimal_reads_back(n, 0xffff_ffff);
    }
    if n <= 0xffff {
        text::decimal_reads_back(n, 0xffff);
    }
}

/// A line is telemetry if it begins with "RX" or "REP" and a channel that is not 0; before its first
/// pair it says nothing.
pub proof fn a_line_begins_with_its_channel(channel: u16, t: Seq<Seq<char>>)
    ensures
        channel != 0 ==> parsed(seq!["RX"@, text::decimal(channel as nat)]) == Some(
            LectroUpdate {
                channel,
                frequency_khz: None,
                rf_quality_percent: None,
                battery_percent: None,
                muted: None,
            },
        ),
        channel != 0 ==> parsed(seq!["REP"@, text::decimal(channel as nat)]) == parsed(
            seq!["RX"@, text::decimal(channel as nat)],
        ),
        t.len() < 2 || t[0] != "RX"@ && t[0] != "REP"@ || text::parsed_unsigned(t[1], 0xffff)
            is None || text::parsed_unsigned(t[1], 0xffff) == Some(0nat) ==> parsed(t) is None,
{
    text::decimal_reads_back(channel as nat, 0xffff);
}

/// What a line said is then known of its channel, and what it did not say stays; the line is told of in
/// one event, and no other channel changes.
pub proof fn what_a_line_says_is_then_known(
    id: Seq<char>,
    channels: Map<u16, MicState>,
    line: Seq<Seq<char>>,
)
    requires
        parsed(line) is Some,
    ensures
        ({
            let u = parsed(line)->Some_0;
            let before = mic::known(channels, u.channel);
            let (events, after) = events_of(id, channels, seq![line]);
            let now = after[u.channel];
            &&& after == channels.insert(u.channel, now)
            &&& events.len() == 1 && events[0].address.device_id == id
            &&& events[0].address.channel == u.channel && events[0].state == now
            &&& u.frequency_khz is Some ==> now.frequency_khz == Some(
                Reading::Unsigned(u.frequency_khz->Some_0 as u64),
            )
            &&& u.frequency_khz is None ==> now.frequency_khz == before.frequency_khz
            &&& u.rf_quality_percent is Some ==> now.rf_quality_percent == u.rf_quality_percent
            &&& u.rf_quality_percent is None ==> now.rf_quality_percent
                == before.rf_quality_percent
            &&& u.battery_percent is Some ==> now.battery_percent == u.battery_percent
            &&& u.battery_percent is None ==> now.battery_percent == before.battery_percent
            &&& u.muted is Some ==> now.muted == u.muted->Some_0
            &&& u.muted is None ==> now.muted == before.muted
            &&& now.battery_bars == before.battery_bars
        }),
{
    assert(seq![line].skip(1) =~= Seq::<Seq<Seq<char>>>::empty());
    reveal_with_fuel(events_of, 2);
    let u = parsed(line)->Some_0;
    let state = u.on(mic::known(channels, u.channel));
    let event = MicEventModel {
        address: MicAddressModel { device_id: id, channel: u.channel },
        state,
    };
    assert(seq![event] + Seq::<MicEventModel>::empty() =~= seq![event]);
    assert(events_of(id, channels, seq![line]) == (seq![event], channels.insert(u.channel, state)));
}

/// What the lines of two stretches bring is what those of the first bring, and then what those of the
/// second do; a line that says nothing brings nothing.
pub proof fn lines_take_effect_one_after_the_other(
    id: Seq<char>,
    channels: Map<u16, MicState>,
    first: Seq<Seq<Seq<char>>>,
    second: Seq<Seq<Seq<char>>>,
    line: Seq<Seq<char>>,
)
    ensures
        ({
            let (events, after) = events_of(id, channels, first);
            let (more, later) = events_of(id, after, second);
            events_of(id, channels, first + second) == (events + more, later)
        }),
        parsed(line) is None ==> events_of(id, channels, seq![line]) == (
            Seq::<MicEventModel>::empty(),
            channels,
        ),
    decreases first.len(),
{
    assert(seq![line].skip(1) =~= Seq::<Seq<Seq<char>>>::empty());
    reveal_with_fuel(events_of, 2);
    if first.len() == 0 {
        assert(first + second =~= second);
        assert(Seq::<MicEventModel>::empty() + events_of(id, channels, second).0 =~= events_of(
            id,
            channels,
            second,
        ).0);
    } else {
        assert((first + second)[0] == first[0]);
        assert((first + second).skip(1) =~= first.skip(1) + second);
        match parsed(first[0]) {
            None => {
                lines_take_effect_one_after_the_other(id, channels, first.skip(1), second, line);
            },
            Some(update) => {
                let state = update.on(mic::known(channels, update.channel));
                let event = MicEventModel {
                    address: MicAddressModel { device_id: id, channel: update.channel },
                    state,
                };
                let next = channels.insert(update.channel, state);
                lines_take_effect_one_after_the_other(id, next, first.skip(1), second, line);
                let (events, after) = events_of(id, next, first.skip(1));
                let more = events_of(id, after, second).0;
                assert((seq![event] + events) + more =~= seq![event] + (events + more));
            },
        }
    }
}

} // verus!
