//! The parametric control string: `F0`, the manufacturer, the address, one to 64 commands of three
//! octets, `F7`.
use vstd::prelude::*;

use crate::aphex::{Error, ErrorModel};
use crate::bytes::push_all;

verus! {

pub const SYSEX_START: u8 = 0xF0;

pub const SYSEX_END: u8 = 0xF7;

pub const APHEX_MANUFACTURER_ID: [u8; 3] = [0x00, 0x00, 0x38];

/// The largest octet that may stand between the two ends of a message. Anything above would be
/// read as the start of another.
pub const MAX_DATA_BYTE: u8 = 0x7F;

/// How many commands a message may carry.
pub const MAX_COMMANDS: usize = 64;

/// How many octets stand before the commands.
pub const HEADER_LEN: usize = 7;

/// What a command is of. Opcodes that are not on the published table are not here.
#[derive(Debug, Clone, Copy, PartialEq, Eq, Structural)]
pub enum Control {
    InputGain,
    MainMaxOut,
    AuxMaxOut,
    PhantomPower,
    LowCutFilter,
    Limiter,
    PolarityReverse,
    Mute,
    Pad,
    TestToneMinus20dB,
    TestTone0dB,
    /// One control with three states, in place of two switches.
    TestTone,
    RequestParameterDump,
    RequestExtendedDump,
}

/// The opcode of a control.
pub open spec fn opcode_of(control: Control) -> u8 {
    match control {
        Control::InputGain => 0x00,
        Control::MainMaxOut => 0x01,
        Control::AuxMaxOut => 0x02,
        Control::PhantomPower => 0x03,
        Control::LowCutFilter => 0x04,
        Control::Limiter => 0x05,
        Control::PolarityReverse => 0x06,
        Control::Mute => 0x07,
        Control::Pad => 0x08,
        Control::TestToneMinus20dB => 0x0a,
        Control::TestTone0dB => 0x0b,
        Control::TestTone => 0x17,
        Control::RequestParameterDump => 0x20,
        Control::RequestExtendedDump => 0x56,
    }
}

/// The control that an opcode is of.
pub open spec fn control_of(opcode: u8) -> Option<Control> {
    if opcode == 0x00 {
        Some(Control::InputGain)
    } else if opcode == 0x01 {
        Some(Control::MainMaxOut)
    } else if opcode == 0x02 {
        Some(Control::AuxMaxOut)
    } else if opcode == 0x03 {
        Some(Control::PhantomPower)
    } else if opcode == 0x04 {
        Some(Control::LowCutFilter)
    } else if opcode == 0x05 {
        Some(Control::Limiter)
    } else if opcode == 0x06 {
        Some(Control::PolarityReverse)
    } else if opcode == 0x07 {
        Some(Control::Mute)
    } else if opcode == 0x08 {
        Some(Control::Pad)
    } else if opcode == 0x0a {
        Some(Control::TestToneMinus20dB)
    } else if opcode == 0x0b {
        Some(Control::TestTone0dB)
    } else if opcode == 0x17 {
        Some(Control::TestTone)
    } else if opcode == 0x20 {
        Some(Control::RequestParameterDump)
    } else if opcode == 0x56 {
        Some(Control::RequestExtendedDump)
    } else {
        None
    }
}

/// Whether a control is on or off.
pub open spec fn switches(control: Control) -> bool {
    match control {
        Control::PhantomPower => true,
        Control::LowCutFilter => true,
        Control::Limiter => true,
        Control::PolarityReverse => true,
        Control::Mute => true,
        Control::Pad => true,
        Control::TestToneMinus20dB => true,
        Control::TestTone0dB => true,
        _ => false,
    }
}

/// The least and the greatest value of a control. The input gain is a number of dB.
pub open spec fn range_of(control: Control) -> (u8, u8) {
    match control {
        Control::InputGain => (26, 65),
        Control::MainMaxOut => (0, 27),
        Control::AuxMaxOut => (0, 27),
        Control::TestTone => (0, 2),
        Control::RequestParameterDump => (1, 1),
        Control::RequestExtendedDump => (0, MAX_DATA_BYTE),
        _ => (0, 1),
    }
}

impl Control {
    pub fn opcode(self) -> (r: u8)
        ensures
            r == opcode_of(self),
    {
        match self {
            Control::InputGain => 0x00,
            Control::MainMaxOut => 0x01,
            Control::AuxMaxOut => 0x02,
            Control::PhantomPower => 0x03,
            Control::LowCutFilter => 0x04,
            Control::Limiter => 0x05,
            Control::PolarityReverse => 0x06,
            Control::Mute => 0x07,
            Control::Pad => 0x08,
            Control::TestToneMinus20dB => 0x0A,
            Control::TestTone0dB => 0x0B,
            Control::TestTone => 0x17,
            Control::RequestParameterDump => 0x20,
            Control::RequestExtendedDump => 0x56,
        }
    }

    pub fn from_opcode(opcode: u8) -> (r: Option<Self>)
        ensures
            r == control_of(opcode),
    {
        match opcode {
            0x00 => Some(Control::InputGain),
            0x01 => Some(Control::MainMaxOut),
            0x02 => Some(Control::AuxMaxOut),
            0x03 => Some(Control::PhantomPower),
            0x04 => Some(Control::LowCutFilter),
            0x05 => Some(Control::Limiter),
            0x06 => Some(Control::PolarityReverse),
            0x07 => Some(Control::Mute),
            0x08 => Some(Control::Pad),
            0x0A => Some(Control::TestToneMinus20dB),
            0x0B => Some(Control::TestTone0dB),
            0x17 => Some(Control::TestTone),
            0x20 => Some(Control::RequestParameterDump),
            0x56 => Some(Control::RequestExtendedDump),
            _ => None,
        }
    }

    /// The least and the greatest value.
    pub fn value_range(self) -> (r: (u8, u8))
        ensures
            r == range_of(self),
    {
        match self {
            Control::InputGain => (0x1A, 0x41),
            Control::MainMaxOut => (0x00, 0x1B),
            Control::AuxMaxOut => (0x00, 0x1B),
            Control::TestTone => (0x00, 0x02),
            Control::RequestParameterDump => (0x01, 0x01),
            Control::RequestExtendedDump => (0x00, MAX_DATA_BYTE),
            _ => (0x00, 0x01),
        }
    }

    /// Whether this is on or off.
    pub fn is_switch(self) -> (r: bool)
        ensures
            r == switches(self),
    {
        match self {
            Control::PhantomPower => true,
            Control::LowCutFilter => true,
            Control::Limiter => true,
            Control::PolarityReverse => true,
            Control::Mute => true,
            Control::Pad => true,
            Control::TestToneMinus20dB => true,
            Control::TestTone0dB => true,
            _ => false,
        }
    }
}

/// Opcodes and controls stand for each other, one for one, and every value of a control is a data
/// octet.
pub proof fn opcodes_round_trip(control: Control, opcode: u8)
    ensures
        control_of(opcode_of(control)) == Some(control),
        control_of(opcode) is Some ==> opcode_of(control_of(opcode)->Some_0) == opcode,
        opcode_of(control) <= MAX_DATA_BYTE,
        range_of(control).0 <= range_of(control).1 <= MAX_DATA_BYTE,
{
}

/// A switch takes off and on, and nothing else does that is not one.
pub proof fn a_switch_is_off_or_on(control: Control)
    ensures
        switches(control) <==> range_of(control) == (0u8, 1u8),
{
}

// ---------------------------------------------------------------------------
// Addresses and commands
// ---------------------------------------------------------------------------

/// Which unit on the link a message is for. Nothing here interprets the three octets.
#[derive(Debug, Clone, Copy, PartialEq, Eq, Structural)]
pub struct DeviceAddress {
    pub midi_channel: u8,
    pub midi_device: u8,
    pub net_number: u8,
}

/// Whether an address can stand in a message.
pub open spec fn address_ok(a: DeviceAddress) -> bool {
    a.midi_channel <= MAX_DATA_BYTE && a.midi_device <= MAX_DATA_BYTE && a.net_number
        <= MAX_DATA_BYTE
}

/// An address, or the first of its octets that is no data octet.
pub open spec fn address_of(a: DeviceAddress) -> Result<DeviceAddress, ErrorModel> {
    if a.midi_channel > MAX_DATA_BYTE {
        Err(ErrorModel::NotADataByte { field: "midi_channel"@, value: a.midi_channel })
    } else if a.midi_device > MAX_DATA_BYTE {
        Err(ErrorModel::NotADataByte { field: "midi_device"@, value: a.midi_device })
    } else if a.net_number > MAX_DATA_BYTE {
        Err(ErrorModel::NotADataByte { field: "net_number"@, value: a.net_number })
    } else {
        Ok(a)
    }
}

impl DeviceAddress {
    pub fn new(midi_channel: u8, midi_device: u8, net_number: u8) -> (r: Result<Self, Error>)
        ensures
            match r {
                Ok(a) => address_of(DeviceAddress { midi_channel, midi_device, net_number }) == Ok::<
                    DeviceAddress,
                    ErrorModel,
                >(a),
                Err(e) => address_of(DeviceAddress { midi_channel, midi_device, net_number })
                    == Err::<DeviceAddress, ErrorModel>(e@),
            },
    {
        if midi_channel > MAX_DATA_BYTE {
            return Err(Error::NotADataByte { field: "midi_channel", value: midi_channel });
        }
        if midi_device > MAX_DATA_BYTE {
            return Err(Error::NotADataByte { field: "midi_device", value: midi_device });
        }
        if net_number > MAX_DATA_BYTE {
            return Err(Error::NotADataByte { field: "net_number", value: net_number });
        }
        Ok(DeviceAddress { midi_channel, midi_device, net_number })
    }
}

/// One command. The microphone's channel is the octet as it stands; whether it counts from 0 or
/// from 1 is not known.
#[derive(Debug, Clone, Copy, PartialEq, Eq, Structural)]
pub struct Command {
    pub control: Control,
    pub mic_channel: u8,
    pub value: u8,
}

/// Whether a command can stand in a message.
pub open spec fn command_ok(c: Command) -> bool {
    c.mic_channel <= MAX_DATA_BYTE && range_of(c.control).0 <= c.value <= range_of(c.control).1
}

/// A command, or why it is none.
pub open spec fn command_of(c: Command) -> Result<Command, ErrorModel> {
    let (min, max) = range_of(c.control);
    if c.mic_channel > MAX_DATA_BYTE {
        Err(ErrorModel::NotADataByte { field: "mic_channel"@, value: c.mic_channel })
    } else if c.value < min || c.value > max {
        Err(ErrorModel::ValueOutOfRange { control: c.control, value: c.value, min, max })
    } else {
        Ok(c)
    }
}

/// The octets of a command.
pub open spec fn command_octets(c: Command) -> Seq<u8> {
    seq![opcode_of(c.control), c.mic_channel, c.value]
}

impl Command {
    /// Makes a command. What the published table does not allow is refused.
    pub fn new(control: Control, mic_channel: u8, value: u8) -> (r: Result<Self, Error>)
        ensures
            match r {
                Ok(c) => command_of(Command { control, mic_channel, value }) == Ok::<
                    Command,
                    ErrorModel,
                >(c),
                Err(e) => command_of(Command { control, mic_channel, value }) == Err::<
                    Command,
                    ErrorModel,
                >(e@),
            },
    {
        if mic_channel > MAX_DATA_BYTE {
            return Err(Error::NotADataByte { field: "mic_channel", value: mic_channel });
        }
        let (min, max) = control.value_range();
        if value < min || value > max {
            return Err(Error::ValueOutOfRange { control, value, min, max });
        }
        Ok(Command { control, mic_channel, value })
    }

    /// Sets the input gain, in whole dB.
    pub fn input_gain_db(mic_channel: u8, gain_db: u8) -> (r: Result<Self, Error>)
        ensures
            match r {
                Ok(c) => command_of(
                    Command { control: Control::InputGain, mic_channel, value: gain_db },
                ) == Ok::<Command, ErrorModel>(c),
                Err(e) => command_of(
                    Command { control: Control::InputGain, mic_channel, value: gain_db },
                ) == Err::<Command, ErrorModel>(e@),
            },
    {
        Self::new(Control::InputGain, mic_channel, gain_db)
    }

    /// Switches a control that is on or off.
    pub fn switch(control: Control, mic_channel: u8, on: bool) -> (r: Result<Self, Error>)
        ensures
            match r {
                Ok(c) => switches(control) && mic_channel <= MAX_DATA_BYTE && c == (Command {
                    control,
                    mic_channel,
                    value: if on {
                        1
                    } else {
                        0
                    },
                }),
                Err(e) => if !switches(control) {
                    e@ == ErrorModel::NotASwitch(control)
                } else {
                    mic_channel > MAX_DATA_BYTE && e@ == (ErrorModel::NotADataByte {
                        field: "mic_channel"@,
                        value: mic_channel,
                    })
                },
            },
    {
        if !control.is_switch() {
            return Err(Error::NotASwitch(control));
        }
        let value: u8 = if on {
            1
        } else {
            0
        };
        Self::new(control, mic_channel, value)
    }

    fn to_bytes(self) -> (r: [u8; 3])
        ensures
            r@ == command_octets(self),
    {
        let r: [u8; 3] = [self.control.opcode(), self.mic_channel, self.value];
        assert(r@ =~= command_octets(self));
        r
    }
}

// ---------------------------------------------------------------------------
// Messages
// ---------------------------------------------------------------------------

/// A whole control string.
#[derive(Debug, Clone, PartialEq, Eq)]
pub struct Message {
    pub address: DeviceAddress,
    pub commands: Vec<Command>,
}

/// A [`Message`], its commands as a sequence.
#[verifier::ext_equal]
pub struct MessageModel {
    pub address: DeviceAddress,
    pub commands: Seq<Command>,
}

impl View for Message {
    type V = MessageModel;

    open spec fn view(&self) -> MessageModel {
        MessageModel { address: self.address, commands: self.commands@ }
    }
}

/// A message with these commands, or why there is none.
pub open spec fn message_of(m: MessageModel) -> Result<MessageModel, ErrorModel> {
    if m.commands.len() == 0 {
        Err(ErrorModel::NoCommands)
    } else if m.commands.len() > MAX_COMMANDS {
        Err(ErrorModel::TooManyCommands(m.commands.len() as int))
    } else {
        Ok(m)
    }
}

/// The octets of a list of commands.
pub open spec fn commands_octets(cs: Seq<Command>) -> Seq<u8>
    decreases cs.len(),
{
    if cs.len() == 0 {
        seq![]
    } else {
        commands_octets(cs.drop_last()) + command_octets(cs.last())
    }
}

/// The manufacturer's id.
pub open spec fn manufacturer() -> Seq<u8> {
    seq![0x00u8, 0x00, 0x38]
}

/// A message on the wire.
pub open spec fn encoded(m: MessageModel) -> Seq<u8> {
    seq![SYSEX_START] + manufacturer() + seq![
        m.address.midi_channel,
        m.address.midi_device,
        m.address.net_number,
    ] + commands_octets(m.commands) + seq![SYSEX_END]
}

/// The commands that octets spell, three for each, or why the first that is none is none.
pub open spec fn commands_in(body: Seq<u8>) -> Result<Seq<Command>, ErrorModel>
    decreases body.len(),
{
    if body.len() < 3 {
        Ok(seq![])
    } else {
        match control_of(body[0]) {
            None => Err(ErrorModel::UnknownOpcode(body[0])),
            Some(control) => match command_of(
                Command { control, mic_channel: body[1], value: body[2] },
            ) {
                Err(e) => Err(e),
                Ok(c) => match commands_in(body.skip(3)) {
                    Err(e) => Err(e),
                    Ok(more) => Ok(seq![c] + more),
                },
            },
        }
    }
}

/// The message that octets spell, or why they are none.
pub open spec fn decoded(s: Seq<u8>) -> Result<MessageModel, ErrorModel> {
    if s.len() < 11 {
        Err(ErrorModel::Truncated)
    } else if s[0] != SYSEX_START {
        Err(ErrorModel::NotSysEx(s[0]))
    } else if s.last() != SYSEX_END {
        Err(ErrorModel::Unterminated)
    } else if s.subrange(1, 4) != manufacturer() {
        Err(ErrorModel::ForeignManufacturer(s.subrange(1, 4)))
    } else if (s.len() - 8) % 3 != 0 {
        Err(ErrorModel::RaggedBody(s.len() - 8))
    } else {
        match address_of(
            DeviceAddress { midi_channel: s[4], midi_device: s[5], net_number: s[6] },
        ) {
            Err(e) => Err(e),
            Ok(address) => match commands_in(s.subrange(7, s.len() - 1)) {
                Err(e) => Err(e),
                Ok(commands) => message_of(MessageModel { address, commands }),
            },
        }
    }
}

fn decode_commands(body: &[u8]) -> (r: Result<Vec<Command>, Error>)
    ensures
        match r {
            Ok(v) => commands_in(body@) == Ok::<Seq<Command>, ErrorModel>(v@),
            Err(e) => commands_in(body@) == Err::<Seq<Command>, ErrorModel>(e@),
        },
{
    let mut out: Vec<Command> = Vec::new();
    let len: usize = body.len();
    let mut i: usize = 0;
    assert(body@.skip(0) =~= body@);
    proof {
        if let Ok(all) = commands_in(body@) {
            assert(out@ + all =~= all);
        }
    }
    while len - i >= 3
        invariant
            i <= len,
            len == body@.len(),
            match commands_in(body@.skip(i as int)) {
                Err(e) => commands_in(body@) == Err::<Seq<Command>, ErrorModel>(e),
                Ok(more) => commands_in(body@) == Ok::<Seq<Command>, ErrorModel>(out@ + more),
            },
        decreases len - i,
    {
        let ghost rest = body@.skip(i as int);
        assert(rest[0] == body@[i as int] && rest[1] == body@[i + 1] && rest[2] == body@[i + 2]);
        assert(rest.skip(3) =~= body@.skip(i + 3));
        let control = match Control::from_opcode(body[i]) {
            Some(control) => control,
            None => {
                return Err(Error::UnknownOpcode(body[i]));
            },
        };
        let command = match Command::new(control, body[i + 1], body[i + 2]) {
            Ok(command) => command,
            Err(e) => {
                return Err(e);
            },
        };
        let ghost done = out@;
        out.push(command);
        proof {
            if let Ok(more) = commands_in(rest.skip(3)) {
                assert(done + (seq![command] + more) =~= done.push(command) + more);
            }
        }
        i = i + 3;
    }
    assert(out@ + Seq::<Command>::empty() =~= out@);
    Ok(out)
}

impl Message {
    /// Makes a message. It carries one command at least, and 64 at most.
    pub fn new(address: DeviceAddress, commands: Vec<Command>) -> (r: Result<Self, Error>)
        ensures
            match r {
                Ok(m) => message_of(MessageModel { address, commands: commands@ }) == Ok::<
                    MessageModel,
                    ErrorModel,
                >(m@),
                Err(e) => message_of(MessageModel { address, commands: commands@ }) == Err::<
                    MessageModel,
                    ErrorModel,
                >(e@),
            },
    {
        if commands.len() == 0 {
            return Err(Error::NoCommands);
        }
        if commands.len() > MAX_COMMANDS {
            return Err(Error::TooManyCommands(commands.len()));
        }
        Ok(Message { address, commands })
    }

    /// Puts the message on the wire.
    pub fn encode(&self) -> (r: Vec<u8>)
        ensures
            r@ == encoded(self@),
    {
        let mut out: Vec<u8> = Vec::new();
        out.push(SYSEX_START);
        out.push(0x00);
        out.push(0x00);
        out.push(0x38);
        out.push(self.address.midi_channel);
        out.push(self.address.midi_device);
        out.push(self.address.net_number);
        let ghost head = out@;
        let ghost cs = self.commands@;
        assert(head =~= seq![SYSEX_START] + manufacturer() + seq![
            self.address.midi_channel,
            self.address.midi_device,
            self.address.net_number,
        ]);
        let mut i: usize = 0;
        assert(cs.take(0) =~= seq![]);
        assert(head + commands_octets(cs.take(0)) =~= head);
        while i < self.commands.len()
            invariant
                i <= self.commands.len(),
                cs == self.commands@,
                out@ == head + commands_octets(cs.take(i as int)),
            decreases self.commands.len() - i,
        {
            let octets = self.commands[i].to_bytes();
            assert(cs.take(i + 1).drop_last() =~= cs.take(i as int));
            assert(head + (commands_octets(cs.take(i as int)) + octets@) =~= out@ + octets@);
            push_all(&mut out, octets.as_slice());
            i = i + 1;
        }
        assert(cs.take(i as int) =~= cs);
        out.push(SYSEX_END);
        assert(out@ =~= encoded(self@));
        out
    }

    /// Reads a message off the wire. A body that is not a whole number of commands is refused: an
    /// octet was lost or added, and all that follows it would be shifted.
    pub fn decode(bytes: &[u8]) -> (r: Result<Self, Error>)
        ensures
            match r {
                Ok(m) => decoded(bytes@) == Ok::<MessageModel, ErrorModel>(m@),
                Err(e) => decoded(bytes@) == Err::<MessageModel, ErrorModel>(e@),
            },
    {
        let len: usize = bytes.len();
        if len < HEADER_LEN + 3 + 1 {
            return Err(Error::Truncated);
        }
        if bytes[0] != SYSEX_START {
            return Err(Error::NotSysEx(bytes[0]));
        }
        if bytes[len - 1] != SYSEX_END {
            return Err(Error::Unterminated);
        }
        let id: [u8; 3] = [bytes[1], bytes[2], bytes[3]];
        assert(id@ =~= bytes@.subrange(1, 4));
        if bytes[1] != 0x00 || bytes[2] != 0x00 || bytes[3] != 0x38 {
            assert(id@[0] != manufacturer()[0] || id@[1] != manufacturer()[1] || id@[2]
                != manufacturer()[2]);
            return Err(Error::ForeignManufacturer(id));
        }
        assert(id@ =~= manufacturer());
        let body = vstd::slice::slice_subrange(bytes, HEADER_LEN, len - 1);
        if body.len() % 3 != 0 {
            return Err(Error::RaggedBody(body.len()));
        }
        let address = match DeviceAddress::new(bytes[4], bytes[5], bytes[6]) {
            Ok(address) => address,
            Err(e) => {
                return Err(e);
            },
        };
        match decode_commands(body) {
            Ok(commands) => Message::new(address, commands),
            Err(e) => Err(e),
        }
    }
}

// ---------------------------------------------------------------------------
// Laws
// ---------------------------------------------------------------------------

/// Whether a message can be put on the wire.
pub open spec fn message_ok(m: MessageModel) -> bool {
    address_ok(m.address) && 1 <= m.commands.len() <= MAX_COMMANDS && forall|i: int|
        0 <= i < m.commands.len() ==> command_ok(#[trigger] m.commands[i])
}

proof fn lemma_commands_octets(cs: Seq<Command>)
    ensures
        commands_octets(cs).len() == 3 * cs.len(),
        cs.len() > 0 ==> commands_octets(cs) == command_octets(cs[0]) + commands_octets(
            cs.skip(1),
        ),
    decreases cs.len(),
{
    if cs.len() > 0 {
        let most = cs.drop_last();
        lemma_commands_octets(most);
        if most.len() > 0 {
            assert(cs.skip(1).drop_last() =~= most.skip(1));
            assert(commands_octets(cs) =~= command_octets(cs[0]) + commands_octets(cs.skip(1)));
        } else {
            assert(cs.skip(1) =~= seq![]);
            assert(most =~= seq![]);
            assert(commands_octets(cs) =~= command_octets(cs[0]) + commands_octets(cs.skip(1)));
        }
    }
}

proof fn lemma_commands_read_back(cs: Seq<Command>)
    requires
        forall|i: int| 0 <= i < cs.len() ==> command_ok(#[trigger] cs[i]),
    ensures
        commands_in(commands_octets(cs)) == Ok::<Seq<Command>, ErrorModel>(cs),
    decreases cs.len(),
{
    lemma_commands_octets(cs);
    let s = commands_octets(cs);
    if cs.len() > 0 {
        let c = cs[0];
        let more = cs.skip(1);
        lemma_commands_octets(more);
        assert(command_ok(c));
        assert forall|i: int| 0 <= i < more.len() implies command_ok(#[trigger] more[i]) by {
            assert(more[i] == cs[i + 1]);
        }
        lemma_commands_read_back(more);
        opcodes_round_trip(c.control, 0);
        assert(s[0] == opcode_of(c.control) && s[1] == c.mic_channel && s[2] == c.value);
        assert(s.skip(3) =~= commands_octets(more));
        assert(seq![c] + more =~= cs);
    } else {
        assert(cs =~= seq![]);
    }
}

/// A message is read back as it was put on the wire.
pub proof fn a_message_round_trips(m: MessageModel)
    requires
        message_ok(m),
    ensures
        decoded(encoded(m)) == Ok::<MessageModel, ErrorModel>(m),
{
    let s = encoded(m);
    let body = commands_octets(m.commands);
    lemma_commands_octets(m.commands);
    lemma_commands_read_back(m.commands);
    assert(s.subrange(1, 4) =~= manufacturer());
    assert(s.subrange(7, s.len() - 1) =~= body);
    assert(s[4] == m.address.midi_channel && s[5] == m.address.midi_device && s[6]
        == m.address.net_number);
}

proof fn lemma_commands_spell(body: Seq<u8>)
    requires
        body.len() % 3 == 0,
        commands_in(body) is Ok,
    ensures
        commands_octets(commands_in(body)->Ok_0) == body,
        commands_in(body)->Ok_0.len() == body.len() / 3,
        forall|i: int|
            0 <= i < commands_in(body)->Ok_0.len() ==> command_ok(
                #[trigger] commands_in(body)->Ok_0[i],
            ),
    decreases body.len(),
{
    let cs = commands_in(body)->Ok_0;
    lemma_commands_octets(cs);
    if body.len() >= 3 {
        let rest = body.skip(3);
        lemma_commands_spell(rest);
        let more = commands_in(rest)->Ok_0;
        opcodes_round_trip(cs[0].control, body[0]);
        assert(cs.skip(1) =~= more);
        assert(commands_octets(cs) =~= body);
    } else {
        assert(commands_octets(cs) =~= body);
    }
}

/// What is read off the wire is a message that can be put on it, and it spells the octets that it
/// was read from.
pub proof fn a_message_that_was_read_spells_its_octets(s: Seq<u8>)
    requires
        decoded(s) is Ok,
    ensures
        message_ok(decoded(s)->Ok_0),
        encoded(decoded(s)->Ok_0) == s,
{
    let m = decoded(s)->Ok_0;
    let body = s.subrange(7, s.len() - 1);
    lemma_commands_spell(body);
    assert(s.subrange(1, 4)[0] == s[1] && s.subrange(1, 4)[1] == s[2] && s.subrange(1, 4)[2]
        == s[3]);
    assert(encoded(m) =~= s);
}

/// Nothing between the two ends of a message can be taken for the start of another.
pub proof fn between_the_ends_are_data_octets(m: MessageModel, i: int)
    requires
        message_ok(m),
        1 <= i < encoded(m).len() - 1,
    ensures
        encoded(m)[i] <= MAX_DATA_BYTE,
        encoded(m)[0] == SYSEX_START,
        encoded(m).last() == SYSEX_END,
{
    let s = encoded(m);
    lemma_commands_octets(m.commands);
    if i >= 7 {
        lemma_data_octets(m.commands, i - 7);
        assert(s[i] == commands_octets(m.commands)[i - 7]);
    }
}

proof fn lemma_data_octets(cs: Seq<Command>, i: int)
    requires
        forall|j: int| 0 <= j < cs.len() ==> command_ok(#[trigger] cs[j]),
        0 <= i < commands_octets(cs).len(),
    ensures
        commands_octets(cs)[i] <= MAX_DATA_BYTE,
    decreases cs.len(),
{
    lemma_commands_octets(cs);
    if cs.len() > 0 {
        let most = cs.drop_last();
        lemma_commands_octets(most);
        if i < commands_octets(most).len() {
            assert forall|j: int| 0 <= j < most.len() implies command_ok(#[trigger] most[j]) by {
                assert(most[j] == cs[j]);
            }
            lemma_data_octets(most, i);
        } else {
            let c = cs.last();
            assert(command_ok(cs[cs.len() - 1]));
            opcodes_round_trip(c.control, 0);
            assert(commands_octets(cs)[i] == command_octets(c)[i - commands_octets(most).len()]);
        }
    }
}

/// A message on the wire, octet by octet: its start, the manufacturer, the address, three octets for
/// each command in turn, and its end.
pub proof fn a_message_is_these_octets(m: MessageModel, i: int)
    requires
        0 <= i < m.commands.len(),
    ensures
        ({
            let s = encoded(m);
            &&& s.len() == 8 + 3 * m.commands.len()
            &&& s[0] == 0xf0 && s[1] == 0 && s[2] == 0 && s[3] == 0x38
            &&& s[4] == m.address.midi_channel
            &&& s[5] == m.address.midi_device
            &&& s[6] == m.address.net_number
            &&& s[7 + 3 * i] == opcode_of(m.commands[i].control)
            &&& s[8 + 3 * i] == m.commands[i].mic_channel
            &&& s[9 + 3 * i] == m.commands[i].value
            &&& s.last() == 0xf7
        }),
{
    lemma_commands_octets(m.commands);
    lemma_command_at(m.commands, i);
    let body = commands_octets(m.commands);
    let s = encoded(m);
    assert(s[7 + 3 * i] == body[3 * i]);
    assert(s[8 + 3 * i] == body[3 * i + 1]);
    assert(s[9 + 3 * i] == body[3 * i + 2]);
}

proof fn lemma_command_at(cs: Seq<Command>, i: int)
    requires
        0 <= i < cs.len(),
    ensures
        commands_octets(cs).len() == 3 * cs.len(),
        commands_octets(cs)[3 * i] == opcode_of(cs[i].control),
        commands_octets(cs)[3 * i + 1] == cs[i].mic_channel,
        commands_octets(cs)[3 * i + 2] == cs[i].value,
    decreases cs.len(),
{
    lemma_commands_octets(cs);
    lemma_commands_octets(cs.drop_last());
    if i < cs.len() - 1 {
        lemma_command_at(cs.drop_last(), i);
    }
}

/// The published table: what each opcode is of, and from which value to which it goes.
pub proof fn the_published_table(control: Control)
    ensures
        opcode_of(Control::InputGain) == 0x00 && range_of(Control::InputGain) == (26u8, 65u8),
        opcode_of(Control::MainMaxOut) == 0x01 && range_of(Control::MainMaxOut) == (0u8, 27u8),
        opcode_of(Control::AuxMaxOut) == 0x02 && range_of(Control::AuxMaxOut) == (0u8, 27u8),
        opcode_of(Control::PhantomPower) == 0x03 && switches(Control::PhantomPower),
        opcode_of(Control::LowCutFilter) == 0x04 && switches(Control::LowCutFilter),
        opcode_of(Control::Limiter) == 0x05 && switches(Control::Limiter),
        opcode_of(Control::PolarityReverse) == 0x06 && switches(Control::PolarityReverse),
        opcode_of(Control::Mute) == 0x07 && switches(Control::Mute),
        opcode_of(Control::Pad) == 0x08 && switches(Control::Pad),
        opcode_of(Control::TestToneMinus20dB) == 0x0a && switches(Control::TestToneMinus20dB),
        opcode_of(Control::TestTone0dB) == 0x0b && switches(Control::TestTone0dB),
        opcode_of(Control::TestTone) == 0x17 && range_of(Control::TestTone) == (0u8, 2u8),
        opcode_of(Control::RequestParameterDump) == 0x20 && range_of(Control::RequestParameterDump)
            == (1u8, 1u8),
        opcode_of(Control::RequestExtendedDump) == 0x56 && range_of(Control::RequestExtendedDump)
            == (0u8, 0x7fu8),
        switches(control) ==> range_of(control) == (0u8, 1u8),
        MAX_DATA_BYTE == 0x7f,
        MAX_COMMANDS == 64,
{
}

/// Each refusal comes for its own fault, the first from the front of this list: too few octets, another
/// start, another end, another manufacturer, a body that is no whole number of commands.
pub proof fn each_fault_is_told(s: Seq<u8>)
    ensures
        s.len() < 11 ==> decoded(s) == Err::<MessageModel, ErrorModel>(ErrorModel::Truncated),
        s.len() >= 11 && s[0] != 0xf0 ==> decoded(s) == Err::<MessageModel, ErrorModel>(
            ErrorModel::NotSysEx(s[0]),
        ),
        s.len() >= 11 && s[0] == 0xf0 && s[s.len() - 1] != 0xf7 ==> decoded(s) == Err::<
            MessageModel,
            ErrorModel,
        >(ErrorModel::Unterminated),
        s.len() >= 11 && s[0] == 0xf0 && s[s.len() - 1] == 0xf7 && (s[1] != 0 || s[2] != 0 || s[3]
            != 0x38) ==> decoded(s) == Err::<MessageModel, ErrorModel>(
            ErrorModel::ForeignManufacturer(seq![s[1], s[2], s[3]]),
        ),
        s.len() >= 11 && s[0] == 0xf0 && s[s.len() - 1] == 0xf7 && s[1] == 0 && s[2] == 0 && s[3]
            == 0x38 && (s.len() - 8) % 3 != 0 ==> decoded(s) == Err::<MessageModel, ErrorModel>(
            ErrorModel::RaggedBody(s.len() - 8),
        ),
        s.len() >= 11 && s[0] == 0xf0 && s[s.len() - 1] == 0xf7 && s[1] == 0 && s[2] == 0 && s[3]
            == 0x38 && (s.len() - 8) % 3 == 0 ==> {
            &&& s[4] > 0x7f ==> decoded(s) == Err::<MessageModel, ErrorModel>(
                ErrorModel::NotADataByte { field: "midi_channel"@, value: s[4] },
            )
            &&& s[4] <= 0x7f && s[5] > 0x7f ==> decoded(s) == Err::<MessageModel, ErrorModel>(
                ErrorModel::NotADataByte { field: "midi_device"@, value: s[5] },
            )
            &&& s[4] <= 0x7f && s[5] <= 0x7f && s[6] > 0x7f ==> decoded(s) == Err::<
                MessageModel,
                ErrorModel,
            >(ErrorModel::NotADataByte { field: "net_number"@, value: s[6] })
        },
{
    if s.len() >= 11 {
        let id = s.subrange(1, 4);
        assert(id[0] == s[1] && id[1] == s[2] && id[2] == s[3]);
        assert(id =~= seq![s[1], s[2], s[3]]);
        if s[1] == 0 && s[2] == 0 && s[3] == 0x38 {
            assert(id =~= manufacturer());
        }
    }
}

/// The first command that the table does not know, or whose value it does not allow, is what a message
/// is refused for; those before it change nothing.
pub proof fn the_first_bad_command_is_told(good: Seq<Command>, bad: Seq<u8>, rest: Seq<u8>)
    requires
        forall|i: int| 0 <= i < good.len() ==> command_ok(#[trigger] good[i]),
        bad.len() == 3,
    ensures
        control_of(bad[0]) is None ==> commands_in(commands_octets(good) + bad + rest) == Err::<
            Seq<Command>,
            ErrorModel,
        >(ErrorModel::UnknownOpcode(bad[0])),
        control_of(bad[0]) is Some && bad[1] > 0x7f ==> commands_in(
            commands_octets(good) + bad + rest,
        ) == Err::<Seq<Command>, ErrorModel>(
            ErrorModel::NotADataByte { field: "mic_channel"@, value: bad[1] },
        ),
        control_of(bad[0]) is Some && bad[1] <= 0x7f && (bad[2] < range_of(
            control_of(bad[0])->Some_0,
        ).0 || bad[2] > range_of(control_of(bad[0])->Some_0).1) ==> commands_in(
            commands_octets(good) + bad + rest,
        ) == Err::<Seq<Command>, ErrorModel>(
            ErrorModel::ValueOutOfRange {
                control: control_of(bad[0])->Some_0,
                value: bad[2],
                min: range_of(control_of(bad[0])->Some_0).0,
                max: range_of(control_of(bad[0])->Some_0).1,
            },
        ),
    decreases good.len(),
{
    let s = commands_octets(good) + bad + rest;
    lemma_commands_octets(good);
    if good.len() == 0 {
        assert(s[0] == bad[0] && s[1] == bad[1] && s[2] == bad[2]);
    } else {
        let c = good[0];
        let more = good.skip(1);
        lemma_commands_octets(more);
        assert(command_ok(c));
        assert forall|i: int| 0 <= i < more.len() implies command_ok(#[trigger] more[i]) by {
            assert(more[i] == good[i + 1]);
        }
        the_first_bad_command_is_told(more, bad, rest);
        opcodes_round_trip(c.control, 0);
        assert(s[0] == opcode_of(c.control) && s[1] == c.mic_channel && s[2] == c.value);
        assert(s.skip(3) =~= commands_octets(more) + bad + rest);
    }
}

} // verus!
