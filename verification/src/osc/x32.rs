//! The Behringer X32 and its siblings: OSC over UDP. A head amp's gain and phantom power are
//! addresses; an address without an argument asks for the value, and the answer has the same
//! address. Changes are pushed to whoever keeps sending `/xremote`.
use std::collections::HashMap;

use vstd::prelude::*;

use crate::address::IpAddress;
use crate::bridge::adapter::{AdapterError, AdapterErrorModel, DeviceInfo, DeviceInfoModel};
use crate::bridge::types::{ChangedFields, PreampAddress};
use crate::float32::Float32;
use crate::osc;
use crate::osc::{encode, read_packet, Arg, ArgModel, Packet, PacketModel};
use crate::text;
use crate::text::{
    chars_eq, chars_of, find_char, match_at, parse_unsigned, push_decimal, text_eq,
};

verus! {

broadcast use vstd::std_specs::hash::group_hash_axioms;

/// A value of a head amp.
#[derive(Debug, Clone, Copy, PartialEq, Eq, Structural)]
pub enum HeadampField {
    Gain,
    Phantom,
}

/// Whether a channel is a head amp.
pub open spec fn is_headamp(channel: u16) -> bool {
    1 <= channel <= 24
}

/// A number below 100 as two digits.
pub open spec fn two_digits(n: int) -> Seq<char> {
    seq![text::digit_char((n / 10) as nat), text::digit_char((n % 10) as nat)]
}

/// The address of a head amp's value.
pub open spec fn path(channel: u16, suffix: Seq<char>) -> Seq<char> {
    "/headamp/"@ + two_digits(channel as int) + "/"@ + suffix
}

/// What an address names: the channel and the value.
pub open spec fn named(addr: Seq<char>) -> Option<(u16, HeadampField)> {
    if !text::has_prefix(addr, "/headamp/"@) {
        None
    } else {
        let rest = addr.skip("/headamp/"@.len() as int);
        match text::first_index(rest, '/') {
            None => None,
            Some(k) => match text::parsed_unsigned(rest.take(k), 0xffff) {
                None => None,
                Some(n) => if rest.skip(k + 1) == "gain"@ {
                    Some((n as u16, HeadampField::Gain))
                } else if rest.skip(k + 1) == "phantom"@ {
                    Some((n as u16, HeadampField::Phantom))
                } else {
                    None
                },
            },
        }
    }
}

/// Reads what an address names.
pub fn parse_headamp_addr(addr: &str) -> (r: Option<(u16, HeadampField)>)
    ensures
        r == named(addr@),
{
    let addr = chars_of(addr);
    let prefix = chars_of("/headamp/");
    if !match_at(addr.as_slice(), prefix.as_slice(), 0) {
        return None;
    }
    let rest = vstd::slice::slice_subrange(addr.as_slice(), prefix.len(), addr.len());
    assert(rest@ =~= addr@.skip(prefix@.len() as int));
    let len: usize = rest.len();
    let k: usize = match find_char(rest, '/') {
        Some(k) => k,
        None => {
            return None;
        },
    };
    let number = vstd::slice::slice_subrange(rest, 0, k);
    let field = vstd::slice::slice_subrange(rest, k + 1, len);
    assert(number@ =~= rest@.take(k as int));
    assert(field@ =~= rest@.skip(k + 1));
    match parse_unsigned(number, 0xffff) {
        Some(n) => {
            if chars_eq(field, chars_of("gain").as_slice()) {
                Some((n as u16, HeadampField::Gain))
            } else if chars_eq(field, chars_of("phantom").as_slice()) {
                Some((n as u16, HeadampField::Phantom))
            } else {
                None
            }
        },
        None => None,
    }
}

/// The address that is made for a value names that value.
pub proof fn an_address_names_what_it_was_made_for(channel: u16, field: HeadampField)
    requires
        is_headamp(channel),
    ensures
        named(
            path(
                channel,
                if field == HeadampField::Gain {
                    "gain"@
                } else {
                    "phantom"@
                },
            ),
        ) == Some((channel, field)),
{
    reveal_strlit("/headamp/");
    reveal_strlit("/");
    reveal_strlit("gain");
    reveal_strlit("phantom");
    let suffix = if field == HeadampField::Gain {
        "gain"@
    } else {
        "phantom"@
    };
    let addr = path(channel, suffix);
    let digits = two_digits(channel as int);
    assert(addr.subrange(0, 9) =~= "/headamp/"@);
    let rest = addr.skip(9);
    assert(rest =~= digits + "/"@ + suffix);
    text::first_index_is_first(rest, '/');
    assert(rest[2] == '/');
    assert(rest[0] == digits[0] && rest[1] == digits[1]);
    match text::first_index(rest, '/') {
        Some(k) => {
            if k > 2 {
                assert(rest[2] != '/');
            }
            assert(k == 2);
        },
        None => {
            assert(rest[2] != '/');
        },
    }
    assert(rest.take(2) =~= digits);
    assert(rest.skip(3) =~= suffix);
    assert("gain"@.len() != "phantom"@.len());
    reveal_with_fuel(text::digits_value, 3);
    assert(digits.drop_last() =~= seq![digits[0]]);
    assert(seq![digits[0]].drop_last() =~= Seq::<char>::empty());
    assert(text::digits_value(digits) == channel as nat);
    assert(text::is_number(digits));
    assert(text::parsed_unsigned(digits, 0xffff) == Some(channel as nat));
}

// ---------------------------------------------------------------------------
// Updates
// ---------------------------------------------------------------------------

/// A gain as the console gave it.
#[derive(Debug, Clone, Copy, PartialEq)]
pub enum Level {
    Float(Float32),
    Int(i32),
}

/// What is known of a head amp. The gain is `None` until one was heard.
#[derive(Debug, Clone, Copy, PartialEq)]
pub struct Headamp {
    pub gain: Option<Level>,
    pub phantom: bool,
}

/// One value that the console reported of a head amp.
#[derive(Debug, Clone, Copy, PartialEq)]
pub enum HeadampUpdate {
    Gain(Level),
    Phantom(bool),
}

impl HeadampUpdate {
    /// What is known of a head amp with the update.
    pub open spec fn on(self, state: Headamp) -> Headamp {
        match self {
            HeadampUpdate::Gain(level) => Headamp { gain: Some(level), ..state },
            HeadampUpdate::Phantom(on) => Headamp { phantom: on, ..state },
        }
    }

    /// The field that the update is of.
    pub open spec fn field(self) -> ChangedFields {
        ChangedFields { gain: self is Gain, phantom: self is Phantom, pad: false }
    }
}

/// What a message reports: its first argument is the value of what its address names. Phantom
/// power is on where the number is not zero.
pub open spec fn update_in(addr: Seq<char>, args: Seq<ArgModel>) -> Option<(u16, HeadampUpdate)> {
    match named(addr) {
        None => None,
        Some((channel, field)) => if args.len() == 0 {
            None
        } else {
            match args[0] {
                ArgModel::Float(x) => Some(
                    (
                        channel,
                        match field {
                            HeadampField::Gain => HeadampUpdate::Gain(Level::Float(x)),
                            HeadampField::Phantom => HeadampUpdate::Phantom(!x.zero()),
                        },
                    ),
                ),
                ArgModel::Int(n) => Some(
                    (
                        channel,
                        match field {
                            HeadampField::Gain => HeadampUpdate::Gain(Level::Int(n)),
                            HeadampField::Phantom => HeadampUpdate::Phantom(n != 0),
                        },
                    ),
                ),
                _ => None,
            }
        },
    }
}

/// Reads what a message reports.
pub fn parse_message(addr: &str, args: &[Arg]) -> (r: Option<(u16, HeadampUpdate)>)
    ensures
        r == update_in(addr@, osc::arg_models(args@)),
{
    let (channel, field) = match parse_headamp_addr(addr) {
        Some(found) => found,
        None => {
            return None;
        },
    };
    if args.len() == 0 {
        return None;
    }
    let update = match &args[0] {
        Arg::Float(x) => match field {
            HeadampField::Gain => HeadampUpdate::Gain(Level::Float(*x)),
            HeadampField::Phantom => HeadampUpdate::Phantom(x.bits % 0x8000_0000 != 0),
        },
        Arg::Int(n) => match field {
            HeadampField::Gain => HeadampUpdate::Gain(Level::Int(*n)),
            HeadampField::Phantom => HeadampUpdate::Phantom(*n != 0),
        },
        _ => {
            return None;
        },
    };
    Some((channel, update))
}

/// What a packet reports. The packets of a bundle are taken in order.
pub open spec fn updates_in(p: PacketModel) -> Seq<(u16, HeadampUpdate)>
    decreases p,
{
    match p {
        PacketModel::Message { addr, args } => match update_in(addr, args) {
            Some(u) => seq![u],
            None => seq![],
        },
        PacketModel::Bundle(packets) => all_updates_in(packets),
    }
}

/// What the packets of a bundle report.
pub open spec fn all_updates_in(packets: Seq<PacketModel>) -> Seq<(u16, HeadampUpdate)>
    decreases packets,
{
    if packets.len() == 0 {
        seq![]
    } else {
        all_updates_in(packets.drop_last()) + updates_in(packets.last())
    }
}

fn push_updates(out: &mut Vec<(u16, HeadampUpdate)>, p: &Packet)
    ensures
        final(out)@ == old(out)@ + updates_in(p@),
    decreases p,
{
    match p {
        Packet::Message { addr, args } => {
            if let Some(u) = parse_message(addr.as_str(), args.as_slice()) {
                out.push(u);
            }
            assert(out@ =~= old(out)@ + updates_in(p@));
        },
        Packet::Bundle(packets) => {
            let ghost all = osc::packet_models(packets@);
            let ghost start = out@;
            proof {
                osc::packets_have_their_models(packets@);
            }
            let mut i: usize = 0;
            assert(all.take(0) =~= seq![]);
            assert(start + all_updates_in(all.take(0)) =~= start);
            while i < packets.len()
                invariant
                    i <= packets.len(),
                    all.len() == packets@.len(),
                    forall|j: int| 0 <= j < packets@.len() ==> #[trigger] all[j] == packets@[j]@,
                    p == Packet::Bundle(*packets),
                    out@ == start + all_updates_in(all.take(i as int)),
                decreases packets.len() - i,
            {
                let ghost before = out@;
                assert(all.take(i + 1).drop_last() =~= all.take(i as int));
                assert(all.take(i + 1).last() == all[i as int]);
                assert(decreases_to!(p => p->Bundle_0));
                assert(decreases_to!(packets => packets@));
                assert(decreases_to!(packets@ => packets@[i as int]));
                push_updates(out, &packets[i]);
                assert(before + updates_in(all[i as int]) =~= start + (all_updates_in(
                    all.take(i as int),
                ) + updates_in(all[i as int])));
                i = i + 1;
            }
            assert(all.take(i as int) =~= all);
        },
    }
}

/// What a message says of the console's model: the answer to `/info` has it for the third of its
/// arguments, after the version and the name of the server.
pub open spec fn model_in(addr: Seq<char>, args: Seq<ArgModel>) -> Option<Seq<char>> {
    if addr == "/info"@ && args.len() > 2 {
        match args[2] {
            ArgModel::Text(model) => Some(model),
            _ => None,
        }
    } else {
        None
    }
}

/// Reads what a message says of the console's model.
pub fn parse_info(addr: &str, args: &[Arg]) -> (r: Option<String>)
    ensures
        text::opt_text(r) == model_in(addr@, osc::arg_models(args@)),
{
    if !text_eq(addr, "/info") || args.len() <= 2 {
        return None;
    }
    match &args[2] {
        Arg::Text(model) => Some(model.clone()),
        _ => None,
    }
}

/// What is known of the console's model once a packet was heard, `before` having been known: what
/// the last message in it says that says anything.
pub open spec fn model_after(before: Option<Seq<char>>, p: PacketModel) -> Option<Seq<char>>
    decreases p,
{
    match p {
        PacketModel::Message { addr, args } => match model_in(addr, args) {
            Some(model) => Some(model),
            None => before,
        },
        PacketModel::Bundle(packets) => model_after_all(before, packets),
    }
}

/// What is known of the console's model once the packets of a bundle were heard.
pub open spec fn model_after_all(before: Option<Seq<char>>, packets: Seq<PacketModel>) -> Option<
    Seq<char>,
>
    decreases packets,
{
    if packets.len() == 0 {
        before
    } else {
        model_after(model_after_all(before, packets.drop_last()), packets.last())
    }
}

fn note_model(known: &mut Option<String>, p: &Packet)
    ensures
        text::opt_text(*final(known)) == model_after(text::opt_text(*old(known)), p@),
    decreases p,
{
    match p {
        Packet::Message { addr, args } => {
            if let Some(model) = parse_info(addr.as_str(), args.as_slice()) {
                *known = Some(model);
            }
        },
        Packet::Bundle(packets) => {
            let ghost all = osc::packet_models(packets@);
            let ghost before = text::opt_text(*known);
            proof {
                osc::packets_have_their_models(packets@);
            }
            let mut i: usize = 0;
            assert(all.take(0) =~= seq![]);
            while i < packets.len()
                invariant
                    i <= packets.len(),
                    all.len() == packets@.len(),
                    forall|j: int| 0 <= j < packets@.len() ==> #[trigger] all[j] == packets@[j]@,
                    p == Packet::Bundle(*packets),
                    text::opt_text(*known) == model_after_all(before, all.take(i as int)),
                decreases packets.len() - i,
            {
                assert(all.take(i + 1).drop_last() =~= all.take(i as int));
                assert(all.take(i + 1).last() == all[i as int]);
                assert(decreases_to!(p => p->Bundle_0));
                assert(decreases_to!(packets => packets@));
                assert(decreases_to!(packets@ => packets@[i as int]));
                note_model(known, &packets[i]);
                i = i + 1;
            }
            assert(all.take(i as int) =~= all);
        },
    }
}

// ---------------------------------------------------------------------------
// The adapter
// ---------------------------------------------------------------------------

/// An update of one head amp, with all that is then known of it.
#[derive(Debug, Clone, PartialEq)]
pub struct HeadampEvent {
    pub address: PreampAddress,
    pub state: Headamp,
    /// The field that was reported. The rest of `state` is what was known before.
    pub changed: ChangedFields,
}

/// A [`HeadampEvent`], its text as a sequence.
#[verifier::ext_equal]
pub struct EventModel {
    pub device_id: Seq<char>,
    pub channel: u16,
    pub state: Headamp,
    pub changed: ChangedFields,
}

impl View for HeadampEvent {
    type V = EventModel;

    open spec fn view(&self) -> EventModel {
        EventModel {
            device_id: self.address.device_id@,
            channel: self.address.channel,
            state: self.state,
            changed: self.changed,
        }
    }
}

/// The models of a list of events.
pub open spec fn event_models(v: Seq<HeadampEvent>) -> Seq<EventModel> {
    v.map_values(|e: HeadampEvent| e@)
}

/// What is known of a channel.
pub open spec fn known(channels: Map<u16, Headamp>, channel: u16) -> Headamp {
    if channels.contains_key(channel) {
        channels[channel]
    } else {
        Headamp { gain: None, phantom: false }
    }
}

/// The events that updates bring, and what is then known of the channels.
pub open spec fn events_of(
    id: Seq<char>,
    channels: Map<u16, Headamp>,
    updates: Seq<(u16, HeadampUpdate)>,
) -> (Seq<EventModel>, Map<u16, Headamp>)
    decreases updates.len(),
{
    if updates.len() == 0 {
        (seq![], channels)
    } else {
        let (events, before) = events_of(id, channels, updates.drop_last());
        let (channel, update) = updates.last();
        let state = update.on(known(before, channel));
        (
            events.push(EventModel { device_id: id, channel, state, changed: update.field() }),
            before.insert(channel, state),
        )
    }
}

/// How often a channel's state is looked for, once it was asked for, before the console counts as
/// silent.
pub const MAX_POLLS: u32 = 20;

/// The failure of a query that no reply came for.
pub open spec fn no_reply_text(channel: u16) -> Seq<char> {
    "no reply for channel "@ + text::decimal(channel as nat) + " headamp state"@
}

/// A console's adapter.
#[derive(Debug, Clone)]
pub struct X32Adapter {
    id: String,
    remote: IpAddress,
    states: HashMap<u16, Headamp>,
    model: Option<String>,
}

impl X32Adapter {
    pub closed spec fn name(&self) -> Seq<char> {
        self.id@
    }

    /// What is known of the channels.
    pub closed spec fn known(&self) -> Map<u16, Headamp> {
        self.states@
    }

    /// Where the console is.
    pub closed spec fn address(&self) -> IpAddress {
        self.remote
    }

    /// The console's model, where it told.
    pub closed spec fn model(&self) -> Option<Seq<char>> {
        text::opt_text(self.model)
    }

    pub fn new(id: &str, remote: IpAddress) -> (r: Self)
        ensures
            r.name() == id@,
            r.address() == remote,
            r.known() == Map::<u16, Headamp>::empty(),
            r.model() is None,
    {
        X32Adapter { id: id.to_owned(), remote, states: HashMap::new(), model: None }
    }

    pub fn id(&self) -> (r: &str)
        ensures
            r@ == self.name(),
    {
        self.id.as_str()
    }

    /// The address of a head amp's value.
    pub fn headamp_path(channel: u16, suffix: &str) -> (r: Result<String, AdapterError>)
        ensures
            match r {
                Ok(addr) => is_headamp(channel) && addr@ == path(channel, suffix@),
                Err(e) => !is_headamp(channel) && e@ == AdapterErrorModel::UnsupportedChannel(
                    channel,
                ),
            },
    {
        if channel < 1 || channel > 24 {
            return Err(AdapterError::UnsupportedChannel(channel));
        }
        let mut out: String = "/headamp/".to_owned();
        out.push((48 + (channel / 10) as u8) as char);
        out.push((48 + (channel % 10) as u8) as char);
        out.append("/");
        out.append(suffix);
        assert(out@ =~= path(channel, suffix@));
        Ok(out)
    }

    /// What to send to learn the console's identity.
    pub fn info_request() -> (r: Vec<u8>)
        ensures
            r@ == osc::message_octets("/info"@, None),
    {
        Self::message("/info", None)
    }

    /// Whether a query of the identity is over, `polls` looks after its request was sent.
    pub fn identify(&self, polls: u32) -> (r: Option<Result<DeviceInfo, AdapterError>>)
        ensures
            match r {
                Some(Ok(info)) => self.model() is Some && info@ == (DeviceInfoModel {
                    vendor: "Behringer/Midas"@,
                    model: self.model()->Some_0,
                    address: self.address(),
                }),
                Some(Err(e)) => self.model() is None && polls >= MAX_POLLS && e@
                    == AdapterErrorModel::Protocol("identify: no reply to /info"@),
                None => self.model() is None && polls < MAX_POLLS,
            },
    {
        match &self.model {
            Some(model) => Some(
                Ok(
                    DeviceInfo {
                        vendor: "Behringer/Midas".to_owned(),
                        model: model.clone(),
                        address: self.remote,
                    },
                ),
            ),
            None => {
                if polls < MAX_POLLS {
                    None
                } else {
                    Some(Err(AdapterError::protocol("identify: no reply to /info")))
                }
            },
        }
    }

    fn message(addr: &str, arg: Option<i32>) -> (r: Vec<u8>)
        ensures
            r@ == osc::message_octets(addr@, arg),
            osc::is_address(addr@) ==> osc::packet_read(r@) == Some(osc::message(addr@, arg)),
    {
        match encode(addr, arg) {
            Some(octets) => octets,
            None => Vec::new(),
        }
    }

    /// What to send to switch a channel's phantom power. A console that sends it back thereby
    /// reports what was set.
    pub fn set_phantom(channel: u16, on: bool) -> (r: Result<Vec<u8>, AdapterError>)
        ensures
            r is Ok ==> match osc::packet_read(r->Ok_0@) {
                Some(packet) => updates_in(packet) == seq![(channel, HeadampUpdate::Phantom(on))],
                None => false,
            },
            match r {
                Ok(octets) => is_headamp(channel) && octets@ == osc::message_octets(
                    path(channel, "phantom"@),
                    Some(
                        if on {
                            1i32
                        } else {
                            0i32
                        },
                    ),
                ),
                Err(e) => !is_headamp(channel) && e@ == AdapterErrorModel::UnsupportedChannel(
                    channel,
                ),
            },
    {
        match Self::headamp_path(channel, "phantom") {
            Ok(addr) => {
                let n: i32 = if on {
                    1
                } else {
                    0
                };
                proof {
                    reveal_strlit("/headamp/");
                    reveal_strlit("/");
                    reveal_strlit("phantom");
                    an_address_names_what_it_was_made_for(channel, HeadampField::Phantom);
                    assert(updates_in(osc::message(addr@, Some(n))) =~= seq![
                        (channel, HeadampUpdate::Phantom(on)),
                    ]);
                }
                Ok(Self::message(addr.as_str(), Some(n)))
            },
            Err(e) => Err(e),
        }
    }

    /// What to send to learn a channel's state: two messages, for gain and phantom power.
    pub fn state_requests(channel: u16) -> (r: Result<Vec<Vec<u8>>, AdapterError>)
        ensures
            match r {
                Ok(msgs) => is_headamp(channel) && msgs@.len() == 2 && msgs@[0]@
                    == osc::message_octets(path(channel, "gain"@), None) && msgs@[1]@
                    == osc::message_octets(path(channel, "phantom"@), None),
                Err(e) => !is_headamp(channel) && e@ == AdapterErrorModel::UnsupportedChannel(
                    channel,
                ),
            },
    {
        let gain = match Self::headamp_path(channel, "gain") {
            Ok(addr) => addr,
            Err(e) => {
                return Err(e);
            },
        };
        let phantom = match Self::headamp_path(channel, "phantom") {
            Ok(addr) => addr,
            Err(e) => {
                return Err(e);
            },
        };
        let mut msgs: Vec<Vec<u8>> = Vec::new();
        msgs.push(Self::message(gain.as_str(), None));
        msgs.push(Self::message(phantom.as_str(), None));
        Ok(msgs)
    }

    /// What to send every few seconds, so that changes keep being pushed.
    pub fn heartbeat() -> (r: Vec<u8>)
        ensures
            r@ == osc::message_octets("/xremote"@, None),
    {
        Self::message("/xremote", None)
    }

    /// Whether a query of a channel is over, `polls` looks after its requests were sent.
    pub fn get_state(&self, channel: u16, polls: u32) -> (r: Option<Result<Headamp, AdapterError>>)
        ensures
            match r {
                Some(Ok(state)) => self.known().contains_key(channel) && state
                    == self.known()[channel],
                Some(Err(e)) => !self.known().contains_key(channel) && polls >= MAX_POLLS && e@
                    == AdapterErrorModel::Protocol(no_reply_text(channel)),
                None => !self.known().contains_key(channel) && polls < MAX_POLLS,
            },
    {
        match self.states.get(&channel) {
            Some(state) => Some(Ok(*state)),
            None => {
                if polls < MAX_POLLS {
                    return None;
                }
                let mut why: String = "no reply for channel ".to_owned();
                push_decimal(&mut why, channel as u64);
                why.append(" headamp state");
                assert(why@ =~= no_reply_text(channel));
                Some(Err(AdapterError::Protocol(why)))
            },
        }
    }

    fn apply(&mut self, channel: u16, update: HeadampUpdate) -> (r: HeadampEvent)
        ensures
            final(self).name() == old(self).name(),
            final(self).address() == old(self).address(),
            final(self).model() == old(self).model(),
            r@ == (EventModel {
                device_id: old(self).name(),
                channel,
                state: update.on(known(old(self).known(), channel)),
                changed: update.field(),
            }),
            final(self).known() == old(self).known().insert(channel, r.state),
    {
        let mut state = match self.states.get(&channel) {
            Some(state) => *state,
            None => Headamp { gain: None, phantom: false },
        };
        let changed = match update {
            HeadampUpdate::Gain(level) => {
                state.gain = Some(level);
                ChangedFields::gain()
            },
            HeadampUpdate::Phantom(on) => {
                state.phantom = on;
                ChangedFields::phantom()
            },
        };
        self.states.insert(channel, state);
        HeadampEvent { address: PreampAddress::new(self.id.as_str(), channel), state, changed }
    }

    /// Takes in a packet. Gives the events that the messages in it bring.
    pub fn handle_packet(&mut self, packet: &Packet) -> (r: Vec<HeadampEvent>)
        ensures
            final(self).name() == old(self).name(),
            final(self).address() == old(self).address(),
            final(self).model() == model_after(old(self).model(), packet@),
            (event_models(r@), final(self).known()) == events_of(
                old(self).name(),
                old(self).known(),
                updates_in(packet@),
            ),
    {
        note_model(&mut self.model, packet);
        let ghost model = self.model();
        let mut updates: Vec<(u16, HeadampUpdate)> = Vec::new();
        push_updates(&mut updates, packet);
        assert(updates@ =~= updates_in(packet@));
        let mut events: Vec<HeadampEvent> = Vec::new();
        let mut i: usize = 0;
        assert(updates@.take(0) =~= seq![]);
        assert(event_models(events@) =~= seq![]);
        while i < updates.len()
            invariant
                i <= updates.len(),
                self.name() == old(self).name(),
                self.address() == old(self).address(),
                self.model() == model,
                (event_models(events@), self.known()) == events_of(
                    old(self).name(),
                    old(self).known(),
                    updates@.take(i as int),
                ),
            decreases updates.len() - i,
        {
            let ghost done = event_models(events@);
            assert(updates@.take(i + 1).drop_last() =~= updates@.take(i as int));
            let (channel, update) = updates[i];
            let event = self.apply(channel, update);
            events.push(event);
            assert(event_models(events@) =~= done.push(event@));
            i = i + 1;
        }
        assert(updates@.take(i as int) =~= updates@);
        events
    }

    /// Takes in a datagram. One that is no packet brings nothing.
    pub fn receive(&mut self, datagram: &[u8]) -> (r: Vec<HeadampEvent>)
        requires
            datagram@.len() <= osc::MAX_DATAGRAM,
        ensures
            match osc::packet_read(datagram@) {
                Some(packet) => final(self).name() == old(self).name() && final(self).address()
                    == old(self).address() && final(self).model() == model_after(
                    old(self).model(),
                    packet,
                ) && (event_models(r@), final(self).known()) == events_of(
                    old(self).name(),
                    old(self).known(),
                    updates_in(packet),
                ),
                None => *final(self) == *old(self) && r@.len() == 0,
            },
    {
        match read_packet(datagram) {
            Some(packet) => self.handle_packet(&packet),
            None => Vec::new(),
        }
    }
}

/// An update never touches a field that was not reported.
pub proof fn an_update_touches_its_field_alone(update: HeadampUpdate, state: Headamp)
    ensures
        !update.field().gain ==> update.on(state).gain == state.gain,
        !update.field().phantom ==> update.on(state).phantom == state.phantom,
{
}

// ---------------------------------------------------------------------------
// Laws
// ---------------------------------------------------------------------------

/// The address of a head amp's value has the channel as two digits between slashes.
pub proof fn an_address_spells_its_channel(channel: u16, suffix: Seq<char>)
    requires
        1 <= channel <= 24,
    ensures
        path(channel, suffix).len() == 12 + suffix.len(),
        path(channel, suffix).take(9) == "/headamp/"@,
        path(channel, suffix)[9] as int == '0' as int + channel / 10,
        path(channel, suffix)[10] as int == '0' as int + channel % 10,
        path(channel, suffix)[11] == '/',
        path(channel, suffix).skip(12) == suffix,
{
    reveal_strlit("/headamp/");
    reveal_strlit("/");
    assert(path(channel, suffix).take(9) =~= "/headamp/"@);
    assert(path(channel, suffix).skip(12) =~= suffix);
}

/// Whatever way the channel's number is written, with more digits or fewer, the address names it; what
/// does not begin so, or is of another value, names nothing.
pub proof fn an_address_names_its_channel(n: u16, addr: Seq<char>, other: Seq<char>)
    ensures
        named("/headamp/"@ + text::decimal(n as nat) + "/gain"@) == Some((n, HeadampField::Gain)),
        named("/headamp/"@ + text::decimal(n as nat) + "/phantom"@) == Some(
            (n, HeadampField::Phantom),
        ),
        !text::has_prefix(addr, "/headamp/"@) ==> named(addr) is None,
        other != "gain"@ && other != "phantom"@ ==> named(
            "/headamp/"@ + text::decimal(n as nat) + "/"@ + other,
        ) is None,
{
    reveal_strlit("/headamp/");
    reveal_strlit("/");
    reveal_strlit("gain");
    reveal_strlit("phantom");
    reveal_strlit("/gain");
    reveal_strlit("/phantom");
    assert("/gain"@ =~= "/"@ + "gain"@);
    assert("/phantom"@ =~= "/"@ + "phantom"@);
    let d = text::decimal(n as nat);
    assert("/headamp/"@ + d + "/gain"@ =~= "/headamp/"@ + d + "/"@ + "gain"@);
    assert("/headamp/"@ + d + "/phantom"@ =~= "/headamp/"@ + d + "/"@ + "phantom"@);
    lemma_named(n, "gain"@);
    lemma_named(n, "phantom"@);
    lemma_named(n, other);
    assert("gain"@.len() != "phantom"@.len());
}

proof fn lemma_named(n: u16, suffix: Seq<char>)
    ensures
        named("/headamp/"@ + text::decimal(n as nat) + "/"@ + suffix) == (if suffix == "gain"@ {
            Some((n, HeadampField::Gain))
        } else if suffix == "phantom"@ {
            Some((n, HeadampField::Phantom))
        } else {
            None
        }),
{
    reveal_strlit("/headamp/");
    reveal_strlit("/");
    let d = text::decimal(n as nat);
    let addr = "/headamp/"@ + d + "/"@ + suffix;
    text::decimal_spells_the_number(n as nat);
    text::decimal_reads_back(n as nat, 0xffff);
    assert(addr.subrange(0, 9) =~= "/headamp/"@);
    let rest = addr.skip(9);
    assert(rest =~= d + "/"@ + suffix);
    text::first_index_is_first(rest, '/');
    assert(rest[d.len() as int] == '/');
    assert forall|i: int| 0 <= i < d.len() implies rest[i] != '/' by {
        assert(text::is_digit(d[i]));
        assert(rest[i] == d[i]);
    }
    match text::first_index(rest, '/') {
        Some(k) => {
            if k > d.len() {
                assert(rest[d.len() as int] != '/');
            }
            assert(k == d.len());
        },
        None => {
            assert(rest[d.len() as int] != '/');
        },
    }
    assert(rest.take(d.len() as int) =~= d);
    assert(rest.skip(d.len() as int + 1) =~= suffix);
}

/// Whether only the gain, or only phantom power, of one channel may differ between two states of
/// knowledge, and nothing of any other.
pub open spec fn same_but_for(
    before: Map<u16, Headamp>,
    after: Map<u16, Headamp>,
    channel: u16,
    gain: bool,
) -> bool {
    &&& after.contains_key(channel)
    &&& forall|c: u16|
        c != channel ==> (#[trigger] after.contains_key(c)) == before.contains_key(c)
    &&& forall|c: u16|
        c != channel && #[trigger] before.contains_key(c) ==> after[c] == before[c]
    &&& !gain && before.contains_key(channel) ==> after[channel].gain == before[channel].gain
    &&& gain && before.contains_key(channel) ==> after[channel].phantom == before[channel].phantom
    &&& !before.contains_key(channel) ==> {
        &&& !gain ==> after[channel].gain is None
        &&& gain ==> !after[channel].phantom
    }
}

/// A message about a head amp makes what it says known, and reports it: the gain as the number that
/// came first, phantom power as on unless that number is zero, of either sign. Further arguments
/// change nothing.
pub proof fn a_received_value_is_then_known(
    id: Seq<char>,
    channels: Map<u16, Headamp>,
    channel: u16,
    n: i32,
    x: Float32,
    more: Seq<ArgModel>,
)
    requires
        1 <= channel <= 24,
    ensures
        ({
            let args = seq![ArgModel::Int(n)] + more;
            let p = PacketModel::Message { addr: path(channel, "phantom"@), args };
            let (events, after) = events_of(id, channels, updates_in(p));
            &&& same_but_for(channels, after, channel, false)
            &&& after[channel].phantom == (n != 0)
            &&& events.len() == 1 && events[0].device_id == id && events[0].channel == channel
            &&& events[0].state == after[channel]
            &&& events[0].changed.phantom && !events[0].changed.gain && !events[0].changed.pad
        }),
        ({
            let args = seq![ArgModel::Float(x)] + more;
            let p = PacketModel::Message { addr: path(channel, "phantom"@), args };
            let (events, after) = events_of(id, channels, updates_in(p));
            &&& same_but_for(channels, after, channel, false)
            &&& after[channel].phantom == (x.bits != 0 && x.bits != 0x8000_0000)
        }),
        ({
            let args = seq![ArgModel::Int(n)] + more;
            let p = PacketModel::Message { addr: path(channel, "gain"@), args };
            let (events, after) = events_of(id, channels, updates_in(p));
            &&& same_but_for(channels, after, channel, true)
            &&& after[channel].gain == Some(Level::Int(n))
            &&& events.len() == 1 && events[0].device_id == id && events[0].channel == channel
            &&& events[0].state == after[channel]
            &&& events[0].changed.gain && !events[0].changed.phantom && !events[0].changed.pad
        }),
        ({
            let args = seq![ArgModel::Float(x)] + more;
            let p = PacketModel::Message { addr: path(channel, "gain"@), args };
            let (events, after) = events_of(id, channels, updates_in(p));
            &&& same_but_for(channels, after, channel, true)
            &&& after[channel].gain == Some(Level::Float(x))
        }),
        updates_in(PacketModel::Message { addr: path(channel, "gain"@), args: seq![] }).len() == 0,
        updates_in(PacketModel::Message { addr: path(channel, "phantom"@), args: seq![] }).len()
            == 0,
{
    an_address_names_what_it_was_made_for(channel, HeadampField::Gain);
    an_address_names_what_it_was_made_for(channel, HeadampField::Phantom);
    let whole = seq![ArgModel::Int(n)] + more;
    let number = seq![ArgModel::Float(x)] + more;
    assert(whole[0] == ArgModel::Int(n));
    assert(number[0] == ArgModel::Float(x));
    lemma_one_update(id, channels, channel, HeadampUpdate::Phantom(n != 0));
    lemma_one_update(
        id,
        channels,
        channel,
        HeadampUpdate::Phantom(x.bits != 0 && x.bits != 0x8000_0000),
    );
    assert(x.zero() == (x.bits == 0 || x.bits == 0x8000_0000));
    lemma_one_update(id, channels, channel, HeadampUpdate::Gain(Level::Int(n)));
    lemma_one_update(id, channels, channel, HeadampUpdate::Gain(Level::Float(x)));
}

proof fn lemma_one_update(
    id: Seq<char>,
    channels: Map<u16, Headamp>,
    channel: u16,
    update: HeadampUpdate,
)
    ensures
        ({
            let state = update.on(known(channels, channel));
            events_of(id, channels, seq![(channel, update)]) == (
                seq![EventModel { device_id: id, channel, state, changed: update.field() }],
                channels.insert(channel, state),
            )
        }),
{
    let one = seq![(channel, update)];
    assert(one.drop_last() =~= Seq::<(u16, HeadampUpdate)>::empty());
    reveal_with_fuel(events_of, 2);
    let state = update.on(known(channels, channel));
    assert(events_of(id, channels, one).0 =~= seq![
        EventModel { device_id: id, channel, state, changed: update.field() },
    ]);
}

/// A bundle reports what its packets report, in order, and tells the model that the last of them tells
/// that tells any.
pub proof fn a_bundle_is_its_packets(
    first: Seq<PacketModel>,
    second: Seq<PacketModel>,
    p: PacketModel,
    before: Option<Seq<char>>,
)
    ensures
        updates_in(PacketModel::Bundle(first + second)) == updates_in(PacketModel::Bundle(first))
            + updates_in(PacketModel::Bundle(second)),
        updates_in(PacketModel::Bundle(seq![p])) == updates_in(p),
        updates_in(PacketModel::Bundle(seq![])).len() == 0,
        model_after(before, PacketModel::Bundle(first + second)) == model_after(
            model_after(before, PacketModel::Bundle(first)),
            PacketModel::Bundle(second),
        ),
        model_after(before, PacketModel::Bundle(seq![p])) == model_after(before, p),
        model_after(before, PacketModel::Bundle(seq![])) == before,
    decreases second.len(),
{
    assert(seq![p].drop_last() =~= Seq::<PacketModel>::empty());
    reveal_with_fuel(all_updates_in, 3);
    reveal_with_fuel(model_after_all, 3);
    reveal_with_fuel(updates_in, 3);
    reveal_with_fuel(model_after, 3);
    assert(all_updates_in(seq![p]) =~= updates_in(p));
    if second.len() == 0 {
        assert(first + second =~= first);
        assert(all_updates_in(first) + all_updates_in(second) =~= all_updates_in(first));
    } else {
        let less = second.drop_last();
        assert((first + second).drop_last() =~= first + less);
        a_bundle_is_its_packets(first, less, p, before);
        assert(all_updates_in(first + second) =~= all_updates_in(first) + all_updates_in(second));
    }
}

/// The model is the third argument of an answer to `/info`, if that is a text; no other message tells
/// it.
pub proof fn the_model_is_told_by_info(
    before: Option<Seq<char>>,
    a: ArgModel,
    b: ArgModel,
    model: Seq<char>,
    more: Seq<ArgModel>,
    addr: Seq<char>,
    args: Seq<ArgModel>,
)
    ensures
        model_after(
            before,
            PacketModel::Message {
                addr: "/info"@,
                args: seq![a, b, ArgModel::Text(model)] + more,
            },
        ) == Some(model),
        addr != "/info"@ || args.len() < 3 || !(args[2] is Text) ==> model_after(
            before,
            PacketModel::Message { addr, args },
        ) == before,
{
    let told = seq![a, b, ArgModel::Text(model)] + more;
    assert(told[2] == ArgModel::Text(model));
}

/// What the updates of two stretches bring is what those of the first bring, and then what those of the
/// second do.
pub proof fn updates_take_effect_one_after_the_other(
    id: Seq<char>,
    channels: Map<u16, Headamp>,
    first: Seq<(u16, HeadampUpdate)>,
    second: Seq<(u16, HeadampUpdate)>,
)
    ensures
        ({
            let (events, after) = events_of(id, channels, first);
            let (more, later) = events_of(id, after, second);
            events_of(id, channels, first + second) == (events + more, later)
        }),
    decreases second.len(),
{
    let (events, after) = events_of(id, channels, first);
    if second.len() == 0 {
        assert(first + second =~= first);
        assert(events + events_of(id, after, second).0 =~= events);
    } else {
        let less = second.drop_last();
        assert((first + second).drop_last() =~= first + less);
        assert((first + second).last() == second.last());
        updates_take_effect_one_after_the_other(id, channels, first, less);
        assert(events_of(id, channels, first + second).0 =~= events + events_of(
            id,
            after,
            second,
        ).0);
    }
}

/// The failure of a query names its channel.
pub proof fn a_silent_channel_is_named(channel: u16)
    ensures
        no_reply_text(channel) == "no reply for channel "@ + text::decimal(channel as nat)
            + " headamp state"@,
{
}

} // verus!
