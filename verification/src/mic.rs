//! Wireless microphones: what their receivers report, vendor by vendor.
use std::collections::HashMap;

use vstd::prelude::*;

use crate::bridge::adapter::{AdapterError, AdapterErrorModel};
use crate::text;
use crate::text::push_decimal;

pub mod acn;
pub mod capture;
pub mod config;
pub mod digest;
pub mod json;
pub mod lectrosonics;
pub mod sennheiser;
pub mod shure;
pub mod shure_acn;
pub mod slp;

verus! {

broadcast use vstd::std_specs::hash::group_hash_axioms;

/// One channel of one receiver.
#[derive(Debug, Clone, PartialEq, Eq, Hash)]
pub struct MicAddress {
    pub device_id: String,
    pub channel: u16,
}

/// A [`MicAddress`], its text as a sequence.
#[verifier::ext_equal]
pub struct MicAddressModel {
    pub device_id: Seq<char>,
    pub channel: u16,
}

impl View for MicAddress {
    type V = MicAddressModel;

    open spec fn view(&self) -> MicAddressModel {
        MicAddressModel { device_id: self.device_id@, channel: self.channel }
    }
}

impl MicAddress {
    pub fn new(device_id: &str, channel: u16) -> (r: Self)
        ensures
            r@ == (MicAddressModel { device_id: device_id@, channel }),
    {
        MicAddress { device_id: device_id.to_owned(), channel }
    }
}

/// Which diversity antenna is active, where the device says so.
#[derive(Debug, Clone, Copy, PartialEq, Eq, Structural)]
pub enum AntennaDiversity {
    A,
    B,
    /// Neither antenna receives a signal.
    Inactive,
}

/// A number as a device gave it. Scaling it to a unit is left to whoever shows it.
#[derive(Debug, Clone, Copy, PartialEq, Eq, Structural)]
pub enum Reading {
    Unsigned(u64),
    Signed(i64),
    /// A double-precision number, as its bit pattern.
    Float(u64),
}

/// What is known of one channel. A field is `None` where the device does not report the value, or
/// has not reported it yet.
#[derive(Debug, Clone, Copy, PartialEq, Eq, Structural)]
pub struct MicState {
    pub battery_percent: Option<u8>,
    /// Segments of the receiver's own battery display. A count, never a percentage in disguise.
    pub battery_bars: Option<u8>,
    pub battery_minutes_remaining: Option<u16>,
    /// The strength of the RF signal in dBm.
    pub rf_level_dbm: Option<Reading>,
    /// The quality of the RF signal in percent, for vendors that tell quality and level apart.
    pub rf_quality_percent: Option<u8>,
    /// The audio level on the receiver's own meter, in no unit.
    pub audio_level: Option<u8>,
    /// The audio level in dBFS, for vendors whose level is one.
    pub audio_level_dbfs: Option<Reading>,
    pub muted: bool,
    /// The carrier's frequency in kHz.
    pub frequency_khz: Option<Reading>,
    pub antenna: Option<AntennaDiversity>,
}

/// A channel of which nothing is known yet.
pub open spec fn unknown_state() -> MicState {
    MicState {
        battery_percent: None,
        battery_bars: None,
        battery_minutes_remaining: None,
        rf_level_dbm: None,
        rf_quality_percent: None,
        audio_level: None,
        audio_level_dbfs: None,
        muted: false,
        frequency_khz: None,
        antenna: None,
    }
}

/// A channel of which nothing is known yet.
pub fn empty_state() -> (r: MicState)
    ensures
        r == unknown_state(),
{
    MicState {
        battery_percent: None,
        battery_bars: None,
        battery_minutes_remaining: None,
        rf_level_dbm: None,
        rf_quality_percent: None,
        audio_level: None,
        audio_level_dbfs: None,
        muted: false,
        frequency_khz: None,
        antenna: None,
    }
}

/// An update of one channel, with all that is then known of it.
#[derive(Debug, Clone, PartialEq, Eq)]
pub struct MicEvent {
    pub address: MicAddress,
    pub state: MicState,
}

/// A [`MicEvent`], its text as a sequence.
#[verifier::ext_equal]
pub struct MicEventModel {
    pub address: MicAddressModel,
    pub state: MicState,
}

impl View for MicEvent {
    type V = MicEventModel;

    open spec fn view(&self) -> MicEventModel {
        MicEventModel { address: self.address@, state: self.state }
    }
}

/// The models of a list of events.
pub open spec fn event_models(v: Seq<MicEvent>) -> Seq<MicEventModel> {
    v.map_values(|e: MicEvent| e@)
}

/// What is known of each channel of a receiver.
#[derive(Debug, Clone)]
pub struct Channels {
    states: HashMap<u16, MicState>,
}

impl View for Channels {
    type V = Map<u16, MicState>;

    closed spec fn view(&self) -> Map<u16, MicState> {
        self.states@
    }
}

/// What is known of a channel.
pub open spec fn known(channels: Map<u16, MicState>, channel: u16) -> MicState {
    if channels.contains_key(channel) {
        channels[channel]
    } else {
        unknown_state()
    }
}

impl Channels {
    pub fn new() -> (r: Self)
        ensures
            r@ == Map::<u16, MicState>::empty(),
    {
        Channels { states: HashMap::new() }
    }

    /// What is known of a channel; `None` where nothing is.
    pub fn get(&self, channel: u16) -> (r: Option<MicState>)
        ensures
            match r {
                Some(s) => self@.contains_key(channel) && s == self@[channel],
                None => !self@.contains_key(channel),
            },
    {
        match self.states.get(&channel) {
            Some(s) => Some(*s),
            None => None,
        }
    }

    /// What is known of a channel, or the state of one of which nothing is.
    pub fn get_or_empty(&self, channel: u16) -> (r: MicState)
        ensures
            r == known(self@, channel),
    {
        match self.get(channel) {
            Some(s) => s,
            None => empty_state(),
        }
    }

    /// Records what is known of a channel.
    pub fn set(&mut self, channel: u16, state: MicState)
        ensures
            final(self)@ == old(self)@.insert(channel, state),
    {
        self.states.insert(channel, state);
    }
}

/// How often a channel's state is looked for, once it was asked for, before the receiver counts as
/// silent.
pub const MAX_POLLS: u32 = 20;

/// The failure of a query that no reply came for.
pub open spec fn no_reply_text(channel: u16) -> Seq<char> {
    "no reply for channel "@ + text::decimal(channel as nat) + " mic state"@
}

/// Whether a query of a channel is over, `polls` looks after the request was sent: with the state
/// as soon as there is one, with a failure after the last look. `None` while it is not.
pub fn query_outcome(channels: &Channels, channel: u16, polls: u32) -> (r: Option<
    Result<MicState, AdapterError>,
>)
    ensures
        match r {
            Some(Ok(state)) => channels@.contains_key(channel) && state == channels@[channel],
            Some(Err(e)) => !channels@.contains_key(channel) && polls >= MAX_POLLS && e@
                == AdapterErrorModel::Protocol(no_reply_text(channel)),
            None => !channels@.contains_key(channel) && polls < MAX_POLLS,
        },
{
    match channels.get(channel) {
        Some(state) => Some(Ok(state)),
        None => {
            if polls < MAX_POLLS {
                return None;
            }
            let mut why: String = "no reply for channel ".to_owned();
            push_decimal(&mut why, channel as u64);
            why.append(" mic state");
            assert(why@ =~= no_reply_text(channel));
            Some(Err(AdapterError::Protocol(why)))
        },
    }
}

/// The text of a value with its unit, `n/a` where there is none.
pub open spec fn with_unit(value: Option<Seq<char>>, unit: Seq<char>) -> Seq<char> {
    match value {
        Some(v) => v + unit,
        None => "n/a"@,
    }
}

/// The name under which an antenna is shown.
pub open spec fn antenna_name(antenna: Option<AntennaDiversity>) -> Seq<char> {
    match antenna {
        Some(AntennaDiversity::A) => "A"@,
        Some(AntennaDiversity::B) => "B"@,
        Some(AntennaDiversity::Inactive) => "none"@,
        None => "n/a"@,
    }
}

/// An event as a line of text. `rf`, `af` and `freq` are the texts of the state's level in dBm, its
/// audio level in dBFS and its frequency in MHz, where it has them.
pub open spec fn event_line(
    event: MicEventModel,
    rf: Seq<char>,
    af: Seq<char>,
    freq: Seq<char>,
) -> Seq<char> {
    let s = event.state;
    event.address.device_id + " ch"@ + text::decimal(event.address.channel as nat) + ": battery="@
        + with_unit(
        match s.battery_percent {
            Some(n) => Some(text::decimal(n as nat)),
            None => None,
        },
        "%"@,
    ) + " runtime="@ + with_unit(
        match s.battery_minutes_remaining {
            Some(n) => Some(text::decimal(n as nat)),
            None => None,
        },
        "min"@,
    ) + " rf="@ + with_unit(
        if s.rf_level_dbm is Some {
            Some(rf)
        } else {
            None
        },
        "dBm"@,
    ) + " quality="@ + with_unit(
        match s.rf_quality_percent {
            Some(n) => Some(text::decimal(n as nat)),
            None => None,
        },
        "%"@,
    ) + " af="@ + with_unit(
        if s.audio_level_dbfs is Some {
            Some(af)
        } else {
            None
        },
        "dBFS"@,
    ) + " antenna="@ + antenna_name(s.antenna) + " freq="@ + with_unit(
        if s.frequency_khz is Some {
            Some(freq)
        } else {
            None
        },
        "MHz"@,
    ) + " mute="@ + (if s.muted {
        "true"@
    } else {
        "false"@
    })
}

fn push_opt(out: &mut String, value: Option<u64>, unit: &str)
    ensures
        final(out)@ == old(out)@ + with_unit(
            match value {
                Some(n) => Some(text::decimal(n as nat)),
                None => None,
            },
            unit@,
        ),
{
    let ghost before = out@;
    match value {
        Some(n) => {
            push_decimal(out, n);
            out.append(unit);
            assert(out@ =~= before + (text::decimal(n as nat) + unit@));
        },
        None => {
            out.append("n/a");
        },
    }
}

fn push_opt_text(out: &mut String, present: bool, value: &str, unit: &str)
    ensures
        final(out)@ == old(out)@ + with_unit(
            if present {
                Some(value@)
            } else {
                None
            },
            unit@,
        ),
{
    let ghost before = out@;
    if present {
        out.append(value);
        out.append(unit);
        assert(out@ =~= before + (value@ + unit@));
    } else {
        out.append("n/a");
    }
}

/// Formats an event as a line of text. `rf`, `af` and `freq` are the texts of the state's level in
/// dBm, its audio level in dBFS and its frequency in MHz; each is looked at only where the state
/// has the reading.
pub fn format_event(event: &MicEvent, rf: &str, af: &str, freq: &str) -> (r: String)
    ensures
        r@ == event_line(event@, rf@, af@, freq@),
{
    let s = &event.state;
    let mut out: String = event.address.device_id.clone();
    out.append(" ch");
    push_decimal(&mut out, event.address.channel as u64);
    out.append(": battery=");
    let battery: Option<u64> = match s.battery_percent {
        Some(n) => Some(n as u64),
        None => None,
    };
    push_opt(&mut out, battery, "%");
    out.append(" runtime=");
    let minutes: Option<u64> = match s.battery_minutes_remaining {
        Some(n) => Some(n as u64),
        None => None,
    };
    push_opt(&mut out, minutes, "min");
    out.append(" rf=");
    push_opt_text(&mut out, s.rf_level_dbm.is_some(), rf, "dBm");
    out.append(" quality=");
    let quality: Option<u64> = match s.rf_quality_percent {
        Some(n) => Some(n as u64),
        None => None,
    };
    push_opt(&mut out, quality, "%");
    out.append(" af=");
    push_opt_text(&mut out, s.audio_level_dbfs.is_some(), af, "dBFS");
    out.append(" antenna=");
    match s.antenna {
        Some(AntennaDiversity::A) => out.append("A"),
        Some(AntennaDiversity::B) => out.append("B"),
        Some(AntennaDiversity::Inactive) => out.append("none"),
        None => out.append("n/a"),
    }
    out.append(" freq=");
    push_opt_text(&mut out, s.frequency_khz.is_some(), freq, "MHz");
    out.append(" mute=");
    if s.muted {
        out.append("true");
    } else {
        out.append("false");
    }
    out
}

/// Of a channel that was not heard of nothing is known, and it is taken not to be muted.
pub proof fn nothing_is_known_of_a_channel_not_heard_of(channels: Map<u16, MicState>, channel: u16)
    ensures
        !channels.contains_key(channel) ==> {
            let s = known(channels, channel);
            &&& s.battery_percent is None && s.battery_bars is None
            &&& s.battery_minutes_remaining is None
            &&& s.rf_level_dbm is None && s.rf_quality_percent is None
            &&& s.audio_level is None && s.audio_level_dbfs is None
            &&& s.frequency_khz is None && s.antenna is None
            &&& !s.muted
        },
        channels.contains_key(channel) ==> known(channels, channel) == channels[channel],
{
}

/// A line of text tells of its channel, and of each reading under its name: the reading with its unit,
/// or `n/a` where there is none.
pub proof fn a_line_tells_of_every_reading(
    event: MicEventModel,
    percent: u8,
    minutes: u16,
    quality: u8,
    rf: Seq<char>,
    af: Seq<char>,
    freq: Seq<char>,
    level: Reading,
    audio: Reading,
    khz: Reading,
)
    ensures
        ({
            let head = event.address.device_id + " ch"@ + text::decimal(event.address.channel as nat);
            let all = MicState {
                battery_percent: Some(percent),
                battery_minutes_remaining: Some(minutes),
                rf_level_dbm: Some(level),
                rf_quality_percent: Some(quality),
                audio_level_dbfs: Some(audio),
                frequency_khz: Some(khz),
                antenna: Some(AntennaDiversity::A),
                muted: true,
                ..event.state
            };
            let none = MicState {
                battery_percent: None,
                battery_minutes_remaining: None,
                rf_level_dbm: None,
                rf_quality_percent: None,
                audio_level_dbfs: None,
                frequency_khz: None,
                antenna: None,
                muted: false,
                ..event.state
            };
            &&& event_line(MicEventModel { state: all, ..event }, rf, af, freq) == head
                + ": battery="@ + text::decimal(percent as nat) + "%"@ + " runtime="@
                + text::decimal(minutes as nat) + "min"@ + " rf="@ + rf + "dBm"@ + " quality="@
                + text::decimal(quality as nat) + "%"@ + " af="@ + af + "dBFS"@ + " antenna="@
                + "A"@ + " freq="@ + freq + "MHz"@ + " mute="@ + "true"@
            &&& event_line(MicEventModel { state: none, ..event }, rf, af, freq) == head
                + ": battery="@ + "n/a"@ + " runtime="@ + "n/a"@ + " rf="@ + "n/a"@ + " quality="@
                + "n/a"@ + " af="@ + "n/a"@ + " antenna="@ + "n/a"@ + " freq="@ + "n/a"@
                + " mute="@ + "false"@
        }),
        antenna_name(Some(AntennaDiversity::A)) == "A"@,
        antenna_name(Some(AntennaDiversity::B)) == "B"@,
        antenna_name(Some(AntennaDiversity::Inactive)) == "none"@,
        antenna_name(None) == "n/a"@,
        no_reply_text(event.address.channel) == "no reply for channel "@ + text::decimal(
            event.address.channel as nat,
        ) + " mic state"@,
{
    let head = event.address.device_id + " ch"@ + text::decimal(event.address.channel as nat);
    let all = MicState {
        battery_percent: Some(percent),
        battery_minutes_remaining: Some(minutes),
        rf_level_dbm: Some(level),
        rf_quality_percent: Some(quality),
        audio_level_dbfs: Some(audio),
        frequency_khz: Some(khz),
        antenna: Some(AntennaDiversity::A),
        muted: true,
        ..event.state
    };
    assert(event_line(MicEventModel { state: all, ..event }, rf, af, freq) =~= head + ": battery="@
        + text::decimal(percent as nat) + "%"@ + " runtime="@ + text::decimal(minutes as nat)
        + "min"@ + " rf="@ + rf + "dBm"@ + " quality="@ + text::decimal(quality as nat) + "%"@
        + " af="@ + af + "dBFS"@ + " antenna="@ + "A"@ + " freq="@ + freq + "MHz"@ + " mute="@
        + "true"@);
}

} // verus!
