//! The Aphex 1788A remote preamp: its parametric MIDI commands. There is no transport.
use vstd::prelude::*;

use crate::text;
use crate::text::{push_decimal, push_hex};

pub mod codec;

pub use codec::{Command, Control, DeviceAddress, Message};

verus! {

/// Why a command, an address or a message was refused.
#[derive(Debug, Clone, PartialEq, Eq)]
pub enum Error {
    NotADataByte { field: &'static str, value: u8 },
    ValueOutOfRange { control: Control, value: u8, min: u8, max: u8 },
    NotASwitch(Control),
    NoCommands,
    TooManyCommands(usize),
    Truncated,
    NotSysEx(u8),
    Unterminated,
    ForeignManufacturer([u8; 3]),
    RaggedBody(usize),
    UnknownOpcode(u8),
}

/// An [`Error`], its parts as sequences.
#[verifier::ext_equal]
pub enum ErrorModel {
    NotADataByte { field: Seq<char>, value: u8 },
    ValueOutOfRange { control: Control, value: u8, min: u8, max: u8 },
    NotASwitch(Control),
    NoCommands,
    TooManyCommands(int),
    Truncated,
    NotSysEx(u8),
    Unterminated,
    ForeignManufacturer(Seq<u8>),
    RaggedBody(int),
    UnknownOpcode(u8),
}

impl View for Error {
    type V = ErrorModel;

    open spec fn view(&self) -> ErrorModel {
        match self {
            Error::NotADataByte { field, value } => ErrorModel::NotADataByte {
                field: field@,
                value: *value,
            },
            Error::ValueOutOfRange { control, value, min, max } => ErrorModel::ValueOutOfRange {
                control: *control,
                value: *value,
                min: *min,
                max: *max,
            },
            Error::NotASwitch(control) => ErrorModel::NotASwitch(*control),
            Error::NoCommands => ErrorModel::NoCommands,
            Error::TooManyCommands(n) => ErrorModel::TooManyCommands(*n as int),
            Error::Truncated => ErrorModel::Truncated,
            Error::NotSysEx(b) => ErrorModel::NotSysEx(*b),
            Error::Unterminated => ErrorModel::Unterminated,
            Error::ForeignManufacturer(id) => ErrorModel::ForeignManufacturer(id@),
            Error::RaggedBody(n) => ErrorModel::RaggedBody(*n as int),
            Error::UnknownOpcode(b) => ErrorModel::UnknownOpcode(*b),
        }
    }
}

/// The name of a control.
pub open spec fn control_name(control: Control) -> Seq<char> {
    match control {
        Control::InputGain => "InputGain"@,
        Control::MainMaxOut => "MainMaxOut"@,
        Control::AuxMaxOut => "AuxMaxOut"@,
        Control::PhantomPower => "PhantomPower"@,
        Control::LowCutFilter => "LowCutFilter"@,
        Control::Limiter => "Limiter"@,
        Control::PolarityReverse => "PolarityReverse"@,
        Control::Mute => "Mute"@,
        Control::Pad => "Pad"@,
        Control::TestToneMinus20dB => "TestToneMinus20dB"@,
        Control::TestTone0dB => "TestTone0dB"@,
        Control::TestTone => "TestTone"@,
        Control::RequestParameterDump => "RequestParameterDump"@,
        Control::RequestExtendedDump => "RequestExtendedDump"@,
    }
}

/// An octet in hexadecimal, with a prefix that says so.
pub open spec fn octet_text(b: u8) -> Seq<char> {
    "0x"@ + text::hex(b as nat, 2)
}

impl ErrorModel {
    /// The error as a sentence.
    pub open spec fn text(self) -> Seq<char> {
        match self {
            ErrorModel::NotADataByte { field, value } => field + " is "@ + octet_text(value)
                + ", which is not a MIDI data byte (must be <= 0x7f)"@,
            ErrorModel::ValueOutOfRange { control, value, min, max } => control_name(control)
                + " takes "@ + octet_text(min) + "..="@ + octet_text(max) + ", got "@ + octet_text(
                value,
            ),
            ErrorModel::NotASwitch(control) => control_name(control)
                + " is not an on/off control"@,
            ErrorModel::NoCommands => "a message needs at least one command"@,
            ErrorModel::TooManyCommands(n) => text::decimal(n as nat)
                + " commands, but a message carries at most 64"@,
            ErrorModel::Truncated => "too short to be a parametric control string"@,
            ErrorModel::NotSysEx(b) => "does not start with F0 (got "@ + octet_text(b) + ")"@,
            ErrorModel::Unterminated => "no F7 terminator"@,
            ErrorModel::ForeignManufacturer(id) => "manufacturer id ["@ + text::hex(
                id[0] as nat,
                2,
            ) + ", "@ + text::hex(id[1] as nat, 2) + ", "@ + text::hex(id[2] as nat, 2)
                + "] is not Aphex"@,
            ErrorModel::RaggedBody(n) => text::decimal(n as nat)
                + " body bytes is not a whole number of 3-byte commands"@,
            ErrorModel::UnknownOpcode(b) => "opcode "@ + octet_text(b)
                + " is not on the published command table"@,
        }
    }
}

fn push_control(out: &mut String, control: Control)
    ensures
        final(out)@ == old(out)@ + control_name(control),
{
    match control {
        Control::InputGain => out.append("InputGain"),
        Control::MainMaxOut => out.append("MainMaxOut"),
        Control::AuxMaxOut => out.append("AuxMaxOut"),
        Control::PhantomPower => out.append("PhantomPower"),
        Control::LowCutFilter => out.append("LowCutFilter"),
        Control::Limiter => out.append("Limiter"),
        Control::PolarityReverse => out.append("PolarityReverse"),
        Control::Mute => out.append("Mute"),
        Control::Pad => out.append("Pad"),
        Control::TestToneMinus20dB => out.append("TestToneMinus20dB"),
        Control::TestTone0dB => out.append("TestTone0dB"),
        Control::TestTone => out.append("TestTone"),
        Control::RequestParameterDump => out.append("RequestParameterDump"),
        Control::RequestExtendedDump => out.append("RequestExtendedDump"),
    }
}

fn push_octet(out: &mut String, b: u8)
    ensures
        final(out)@ == old(out)@ + octet_text(b),
{
    let ghost before = out@;
    out.append("0x");
    push_hex(out, b as u32, 2);
    assert(out@ =~= before + octet_text(b));
}

impl Error {
    /// The error as a sentence.
    pub fn message(&self) -> (r: String)
        ensures
            r@ == self@.text(),
    {
        let mut out: String = String::new();
        match self {
            Error::NotADataByte { field, value } => {
                out.append(field);
                out.append(" is ");
                push_octet(&mut out, *value);
                out.append(", which is not a MIDI data byte (must be <= 0x7f)");
            },
            Error::ValueOutOfRange { control, value, min, max } => {
                push_control(&mut out, *control);
                out.append(" takes ");
                push_octet(&mut out, *min);
                out.append("..=");
                push_octet(&mut out, *max);
                out.append(", got ");
                push_octet(&mut out, *value);
            },
            Error::NotASwitch(control) => {
                push_control(&mut out, *control);
                out.append(" is not an on/off control");
            },
            Error::NoCommands => {
                out.append("a message needs at least one command");
            },
            Error::TooManyCommands(n) => {
                push_decimal(&mut out, *n as u64);
                out.append(" commands, but a message carries at most 64");
            },
            Error::Truncated => {
                out.append("too short to be a parametric control string");
            },
            Error::NotSysEx(b) => {
                out.append("does not start with F0 (got ");
                push_octet(&mut out, *b);
                out.append(")");
            },
            Error::Unterminated => {
                out.append("no F7 terminator");
            },
            Error::ForeignManufacturer(id) => {
                out.append("manufacturer id [");
                push_hex(&mut out, id[0] as u32, 2);
                out.append(", ");
                push_hex(&mut out, id[1] as u32, 2);
                out.append(", ");
                push_hex(&mut out, id[2] as u32, 2);
                out.append("] is not Aphex");
            },
            Error::RaggedBody(n) => {
                push_decimal(&mut out, *n as u64);
                out.append(" body bytes is not a whole number of 3-byte commands");
            },
            Error::UnknownOpcode(b) => {
                out.append("opcode ");
                push_octet(&mut out, *b);
                out.append(" is not on the published command table");
            },
        }
        assert(out@ =~= self@.text());
        out
    }
}

/// An octet stands as a prefix and two hexadecimal digits that spell it.
pub proof fn an_octet_is_spelled_out(b: u8)
    ensures
        octet_text(b).len() == 4,
        octet_text(b)[0] == '0' && octet_text(b)[1] == 'x',
        text::hex_value(octet_text(b).skip(2)) == b,
{
    reveal_strlit("0x");
    text::hex_spells_the_number(b as nat, 2);
    assert(octet_text(b).skip(2) =~= text::hex(b as nat, 2));
}

/// Each refusal says what was wrong, with the values that it carries: what was given, and what would
/// have been taken.
pub proof fn each_refusal_says_what_was_wrong(
    field: Seq<char>,
    control: Control,
    value: u8,
    min: u8,
    max: u8,
    n: nat,
)
    ensures
        (ErrorModel::NotADataByte { field, value }).text() == field + " is "@ + octet_text(value)
            + ", which is not a MIDI data byte (must be <= 0x7f)"@,
        (ErrorModel::ValueOutOfRange { control, value, min, max }).text() == control_name(control)
            + " takes "@ + octet_text(min) + "..="@ + octet_text(max) + ", got "@ + octet_text(
            value,
        ),
        ErrorModel::NotASwitch(control).text() == control_name(control)
            + " is not an on/off control"@,
        ErrorModel::NoCommands.text() == "a message needs at least one command"@,
        ErrorModel::TooManyCommands(n as int).text() == text::decimal(n)
            + " commands, but a message carries at most 64"@,
        ErrorModel::Truncated.text() == "too short to be a parametric control string"@,
        ErrorModel::NotSysEx(value).text() == "does not start with F0 (got "@ + octet_text(value)
            + ")"@,
        ErrorModel::Unterminated.text() == "no F7 terminator"@,
        ErrorModel::RaggedBody(n as int).text() == text::decimal(n)
            + " body bytes is not a whole number of 3-byte commands"@,
        ErrorModel::UnknownOpcode(value).text() == "opcode "@ + octet_text(value)
            + " is not on the published command table"@,
        ErrorModel::ForeignManufacturer(seq![value, min, max]).text() == "manufacturer id ["@
            + text::hex(value as nat, 2) + ", "@ + text::hex(min as nat, 2) + ", "@ + text::hex(
            max as nat,
            2,
        ) + "] is not Aphex"@,
{
}

/// No two controls have one name.
pub proof fn controls_have_their_own_names(a: Control, b: Control)
    ensures
        control_name(a) == control_name(b) ==> a == b,
        control_name(Control::InputGain) == "InputGain"@,
        control_name(Control::MainMaxOut) == "MainMaxOut"@,
        control_name(Control::AuxMaxOut) == "AuxMaxOut"@,
        control_name(Control::PhantomPower) == "PhantomPower"@,
        control_name(Control::LowCutFilter) == "LowCutFilter"@,
        control_name(Control::Limiter) == "Limiter"@,
        control_name(Control::PolarityReverse) == "PolarityReverse"@,
        control_name(Control::Mute) == "Mute"@,
        control_name(Control::Pad) == "Pad"@,
        control_name(Control::TestToneMinus20dB) == "TestToneMinus20dB"@,
        control_name(Control::TestTone0dB) == "TestTone0dB"@,
        control_name(Control::TestTone) == "TestTone"@,
        control_name(Control::RequestParameterDump) == "RequestParameterDump"@,
        control_name(Control::RequestExtendedDump) == "RequestExtendedDump"@,
{
    reveal_strlit("InputGain");
    reveal_strlit("MainMaxOut");
    reveal_strlit("AuxMaxOut");
    reveal_strlit("PhantomPower");
    reveal_strlit("LowCutFilter");
    reveal_strlit("Limiter");
    reveal_strlit("PolarityReverse");
    reveal_strlit("Mute");
    reveal_strlit("Pad");
    reveal_strlit("TestToneMinus20dB");
    reveal_strlit("TestTone0dB");
    reveal_strlit("TestTone");
    reveal_strlit("RequestParameterDump");
    reveal_strlit("RequestExtendedDump");
    let x = control_name(a);
    let y = control_name(b);
    if x == y {
        assert(x.len() == y.len() && x[0] == y[0] && x[1] == y[1]);
    }
}

} // verus!
