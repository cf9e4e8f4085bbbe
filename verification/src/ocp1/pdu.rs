//! OCP.1 framing.
//!
//! Wire layout of one PDU:
//!
//! ```text
//! 0        SyncVal   u8   = 0x3B
//! 1        Version   u16  = 1
//! 3        PduSize   u32  octets in this PDU excluding SyncVal (so 9 + payload)
//! 7        PduType   u8   see `PduType`
//! 8        MsgCount  u16
//! 10       messages...
//! ```
//!
//! A PDU carries messages of one type. One message per PDU is emitted; many are accepted.
use vstd::prelude::*;

use crate::bytes;
use crate::bytes::{push_all, read_u16, read_u32};
use crate::ocp1::error::Error;
use crate::ocp1::value::{Reader, Writer};

verus! {

pub const SYNC_VAL: u8 = 0x3B;

pub const PROTOCOL_VERSION: u16 = 1;

/// Octets from `SyncVal` through `MsgCount`.
pub const HEADER_LEN: usize = 10;

/// `PduSize` counts everything after `SyncVal`.
const PDU_SIZE_OVERHEAD: usize = 9;

/// The kind of the messages in a PDU; on the wire, its position in this list.
#[derive(Debug, Clone, Copy, PartialEq, Eq, Structural)]
pub enum PduType {
    Command,
    CommandResponseRequired,
    Notification,
    Response,
    KeepAlive,
}

impl PduType {
    /// The type's number on the wire.
    pub open spec fn code(self) -> u8 {
        match self {
            PduType::Command => 0,
            PduType::CommandResponseRequired => 1,
            PduType::Notification => 2,
            PduType::Response => 3,
            PduType::KeepAlive => 4,
        }
    }

    /// The type's number on the wire.
    pub fn to_u8(self) -> (r: u8)
        ensures
            r == self.code(),
    {
        match self {
            PduType::Command => 0,
            PduType::CommandResponseRequired => 1,
            PduType::Notification => 2,
            PduType::Response => 3,
            PduType::KeepAlive => 4,
        }
    }

    /// The type with the number `v`.
    pub fn from_u8(v: u8) -> (r: Result<Self, Error>)
        ensures
            match r {
                Ok(t) => t.code() == v,
                Err(e) => v > 4 && e == Error::UnknownPduType(v),
            },
    {
        match v {
            0 => Ok(PduType::Command),
            1 => Ok(PduType::CommandResponseRequired),
            2 => Ok(PduType::Notification),
            3 => Ok(PduType::Response),
            4 => Ok(PduType::KeepAlive),
            other => Err(Error::UnknownPduType(other)),
        }
    }
}

/// Identifies a method or property by its position in the class hierarchy.
///
/// `def_level` is the inheritance depth at which the member is defined (the root class is 1),
/// and `index` is its 1-based position within that level.
#[derive(Debug, Clone, Copy, PartialEq, Eq, Structural)]
pub struct MemberId {
    pub def_level: u16,
    pub index: u16,
}

impl MemberId {
    pub fn new(def_level: u16, index: u16) -> (r: Self)
        ensures
            r == (MemberId { def_level, index }),
    {
        MemberId { def_level, index }
    }
}

/// A command to be sent to a device.
#[derive(Debug, Clone)]
pub struct Command {
    pub handle: u32,
    pub target: u32,
    pub method: MemberId,
    pub param_count: u8,
    pub params: Vec<u8>,
}

/// A [`Command`], its parameters as a sequence.
#[verifier::ext_equal]
pub struct CommandModel {
    pub handle: u32,
    pub target: u32,
    pub method: MemberId,
    pub param_count: u8,
    pub params: Seq<u8>,
}

impl View for Command {
    type V = CommandModel;

    open spec fn view(&self) -> CommandModel {
        CommandModel {
            handle: self.handle,
            target: self.target,
            method: self.method,
            param_count: self.param_count,
            params: self.params@,
        }
    }
}

/// A device's reply to a command, correlated by `handle`.
#[derive(Debug, Clone)]
pub struct Response {
    pub handle: u32,
    pub status: u8,
    pub param_count: u8,
    pub params: Vec<u8>,
}

/// A [`Response`], its parameters as a sequence.
#[verifier::ext_equal]
pub struct ResponseModel {
    pub handle: u32,
    pub status: u8,
    pub param_count: u8,
    pub params: Seq<u8>,
}

impl View for Response {
    type V = ResponseModel;

    open spec fn view(&self) -> ResponseModel {
        ResponseModel {
            handle: self.handle,
            status: self.status,
            param_count: self.param_count,
            params: self.params@,
        }
    }
}

impl Response {
    /// Status 0 is success; everything else is a failure.
    pub fn ok(&self) -> (r: bool)
        ensures
            r == (self.status == 0),
    {
        self.status == 0
    }

    /// The response itself where it reports success, else the status as an error.
    pub fn into_result(self) -> (r: Result<Self, Error>)
        ensures
            match r {
                Ok(response) => self.status == 0 && response == self,
                Err(e) => self.status != 0 && (e matches Error::Status { code, name } && code
                    == self.status && name@ == status_text(self.status)),
            },
    {
        if self.ok() {
            Ok(self)
        } else {
            Err(Error::Status { code: self.status, name: status_name(self.status) })
        }
    }
}

/// An unsolicited property-changed event from a device that was subscribed to.
#[derive(Debug, Clone)]
pub struct Notification {
    /// The object that changed, not the sink that the notification is addressed to.
    pub emitter: u32,
    pub property: MemberId,
    /// Everything after the property id: the new value, then the change type.
    pub value: Vec<u8>,
}

/// A [`Notification`], its value as a sequence.
#[verifier::ext_equal]
pub struct NotificationModel {
    pub emitter: u32,
    pub property: MemberId,
    pub value: Seq<u8>,
}

impl View for Notification {
    type V = NotificationModel;

    open spec fn view(&self) -> NotificationModel {
        NotificationModel {
            emitter: self.emitter,
            property: self.property,
            value: self.value@,
        }
    }
}

#[derive(Debug, Clone)]
pub enum Message {
    Response(Response),
    Notification(Notification),
    KeepAlive { heartbeat_secs: u16 },
    /// A command arriving from the far end, which a controller does not serve.
    Command(Command),
}

/// A [`Message`], its octets as sequences.
#[verifier::ext_equal]
pub enum MessageModel {
    Response(ResponseModel),
    Notification(NotificationModel),
    KeepAlive { heartbeat_secs: u16 },
    Command(CommandModel),
}

impl View for Message {
    type V = MessageModel;

    open spec fn view(&self) -> MessageModel {
        match self {
            Message::Response(r) => MessageModel::Response(r@),
            Message::Notification(n) => MessageModel::Notification(n@),
            Message::KeepAlive { heartbeat_secs } => MessageModel::KeepAlive {
                heartbeat_secs: *heartbeat_secs,
            },
            Message::Command(c) => MessageModel::Command(c@),
        }
    }
}

/// The AES70 name of a status.
pub open spec fn status_text(code: u8) -> Seq<char> {
    match code {
        0 => "OK"@,
        1 => "ProtocolVersionError"@,
        2 => "DeviceError"@,
        3 => "Locked"@,
        4 => "BadFormat"@,
        5 => "BadONo"@,
        6 => "ParameterError"@,
        7 => "ParameterOutOfRange"@,
        8 => "NotImplemented"@,
        9 => "InvalidRequest"@,
        10 => "ProcessingFailed"@,
        11 => "BadMethod"@,
        12 => "PartiallySucceeded"@,
        13 => "Timeout"@,
        14 => "BufferOverflow"@,
        _ => "Unknown"@,
    }
}

/// The AES70 name of a status.
pub fn status_name(code: u8) -> (r: &'static str)
    ensures
        r@ == status_text(code),
{
    match code {
        0 => "OK",
        1 => "ProtocolVersionError",
        2 => "DeviceError",
        3 => "Locked",
        4 => "BadFormat",
        5 => "BadONo",
        6 => "ParameterError",
        7 => "ParameterOutOfRange",
        8 => "NotImplemented",
        9 => "InvalidRequest",
        10 => "ProcessingFailed",
        11 => "BadMethod",
        12 => "PartiallySucceeded",
        13 => "Timeout",
        14 => "BufferOverflow",
        _ => "Unknown",
    }
}

// ---------------------------------------------------------------------------
// Encoding
// ---------------------------------------------------------------------------

/// The header of a PDU with `payload_len` octets of messages. `PduSize` keeps the low 32 bits.
pub open spec fn header(pdu_type: PduType, payload_len: int, msg_count: int) -> Seq<u8> {
    seq![SYNC_VAL] + bytes::u16_bytes(PROTOCOL_VERSION as int) + bytes::u32_bytes(
        (9 + payload_len) % 0x1_0000_0000,
    ) + seq![pdu_type.code()] + bytes::u16_bytes(msg_count)
}

/// A whole PDU of one message.
pub open spec fn framed(pdu_type: PduType, body: Seq<u8>) -> Seq<u8> {
    header(pdu_type, body.len() as int, 1) + body
}

/// A command on the wire.
pub open spec fn command_body(c: CommandModel) -> Seq<u8> {
    bytes::u32_bytes((17 + c.params.len() as int) % 0x1_0000_0000) + bytes::u32_bytes(c.handle as int)
        + bytes::u32_bytes(c.target as int) + bytes::u16_bytes(c.method.def_level as int)
        + bytes::u16_bytes(c.method.index as int) + seq![c.param_count] + c.params
}

/// A response on the wire.
pub open spec fn response_body(r: ResponseModel) -> Seq<u8> {
    bytes::u32_bytes((10 + r.params.len() as int) % 0x1_0000_0000) + bytes::u32_bytes(r.handle as int)
        + seq![r.status, r.param_count] + r.params
}

fn write_header(out: &mut Vec<u8>, pdu_type: PduType, payload_len: usize, msg_count: u16)
    requires
        payload_len + 9 <= usize::MAX,
    ensures
        final(out)@ == old(out)@ + header(pdu_type, payload_len as int, msg_count as int),
{
    let mut w = Writer::new();
    let size: u32 = ((PDU_SIZE_OVERHEAD + payload_len) as u64 % 0x1_0000_0000) as u32;
    w.u8(SYNC_VAL).u16(PROTOCOL_VERSION).u32(size).u8(pdu_type.to_u8()).u16(msg_count);
    let head = w.finish();
    assert(head@ =~= header(pdu_type, payload_len as int, msg_count as int));
    push_all(out, head.as_slice());
}

/// One message as a complete PDU.
pub fn frame(pdu_type: PduType, body: &[u8]) -> (r: Vec<u8>)
    requires
        body@.len() + 9 <= usize::MAX,
    ensures
        r@ == framed(pdu_type, body@),
{
    let mut out: Vec<u8> = Vec::new();
    write_header(&mut out, pdu_type, body.len(), 1);
    push_all(&mut out, body);
    assert(out@ =~= framed(pdu_type, body@));
    out
}

/// One command as a complete PDU.
pub fn encode_command(cmd: &Command, response_required: bool) -> (r: Vec<u8>)
    requires
        cmd.params@.len() + 26 <= usize::MAX,
    ensures
        r@ == framed(
            if response_required {
                PduType::CommandResponseRequired
            } else {
                PduType::Command
            },
            command_body(cmd@),
        ),
{
    let size: u32 = ((17 + cmd.params.len()) as u64 % 0x1_0000_0000) as u32;
    let mut body = Writer::new();
    body.u32(size).u32(cmd.handle).u32(cmd.target).u16(cmd.method.def_level).u16(
        cmd.method.index,
    ).u8(cmd.param_count).raw(cmd.params.as_slice());
    let body = body.finish();
    assert(body@ =~= command_body(cmd@));
    let pdu_type = if response_required {
        PduType::CommandResponseRequired
    } else {
        PduType::Command
    };
    frame(pdu_type, body.as_slice())
}

/// A heartbeat announcement as a complete PDU.
pub fn encode_keepalive(heartbeat_secs: u16) -> (r: Vec<u8>)
    ensures
        r@ == framed(PduType::KeepAlive, bytes::u16_bytes(heartbeat_secs as int)),
{
    let mut body = Writer::new();
    body.u16(heartbeat_secs);
    let body = body.finish();
    assert(body@ =~= bytes::u16_bytes(heartbeat_secs as int));
    frame(PduType::KeepAlive, body.as_slice())
}

/// One response as a complete PDU: what a device answers.
pub fn encode_response(response: &Response) -> (r: Vec<u8>)
    requires
        response.params@.len() + 19 <= usize::MAX,
    ensures
        r@ == framed(PduType::Response, response_body(response@)),
{
    let size: u32 = ((10 + response.params.len()) as u64 % 0x1_0000_0000) as u32;
    let mut body = Writer::new();
    body.u32(size).u32(response.handle).u8(response.status).u8(response.param_count).raw(
        response.params.as_slice(),
    );
    let body = body.finish();
    assert(body@ =~= response_body(response@));
    frame(PduType::Response, body.as_slice())
}

// ---------------------------------------------------------------------------
// Decoding
// ---------------------------------------------------------------------------

/// How many octets the PDU at the front of `buf` occupies; `None` while more are needed.
pub open spec fn framed_len(buf: Seq<u8>) -> Result<Option<int>, Error> {
    if buf.len() < 10 {
        Ok(None)
    } else if buf[0] != SYNC_VAL {
        Err(Error::BadSync(buf[0]))
    } else if bytes::u16_at(buf, 1) != PROTOCOL_VERSION {
        Err(Error::BadVersion(bytes::u16_at(buf, 1) as u16))
    } else if bytes::u32_at(buf, 3) < 9 {
        Err(Error::BadLength(bytes::u32_at(buf, 3) as usize))
    } else if buf.len() < bytes::u32_at(buf, 3) + 1 {
        Ok(None)
    } else {
        Ok(Some(bytes::u32_at(buf, 3) + 1))
    }
}

/// How many octets the PDU at the front of `buf` occupies, if its header and body are complete.
///
/// `Ok(None)` where more octets are needed.
pub fn pdu_len(buf: &[u8]) -> (r: Result<Option<usize>, Error>)
    ensures
        match r {
            Ok(Some(n)) => framed_len(buf@) == Ok::<Option<int>, Error>(Some(n as int)) && 10 <= n
                <= buf@.len(),
            Ok(None) => framed_len(buf@) == Ok::<Option<int>, Error>(None),
            Err(e) => framed_len(buf@) == Err::<Option<int>, Error>(e),
        },
{
    if buf.len() < HEADER_LEN {
        return Ok(None);
    }
    if buf[0] != SYNC_VAL {
        return Err(Error::BadSync(buf[0]));
    }
    let version: u16 = read_u16(buf, 1);
    if version != PROTOCOL_VERSION {
        return Err(Error::BadVersion(version));
    }
    let pdu_size: usize = read_u32(buf, 3) as usize;
    if pdu_size < PDU_SIZE_OVERHEAD {
        return Err(Error::BadLength(pdu_size));
    }
    if buf.len() <= pdu_size {
        return Ok(None);
    }
    Ok(Some(pdu_size + 1))
}

/// The response at the front of `s`, and what follows it.
pub open spec fn parsed_response(s: Seq<u8>) -> Result<(MessageModel, Seq<u8>), Error> {
    let size = bytes::u32_at(s, 0);
    if s.len() < 10 {
        Err(Error::Truncated)
    } else if size < 10 {
        Err(Error::BadLength(size as usize))
    } else if s.len() < size {
        Err(Error::Truncated)
    } else {
        Ok(
            (
                MessageModel::Response(
                    ResponseModel {
                        handle: bytes::u32_at(s, 4) as u32,
                        status: s[8],
                        param_count: s[9],
                        params: s.subrange(10, size),
                    },
                ),
                s.skip(size),
            ),
        )
    }
}

/// The command at the front of `s`, and what follows it.
pub open spec fn parsed_command(s: Seq<u8>) -> Result<(MessageModel, Seq<u8>), Error> {
    let size = bytes::u32_at(s, 0);
    if s.len() < 17 {
        Err(Error::Truncated)
    } else if size < 17 {
        Err(Error::BadLength(size as usize))
    } else if s.len() < size {
        Err(Error::Truncated)
    } else {
        Ok(
            (
                MessageModel::Command(
                    CommandModel {
                        handle: bytes::u32_at(s, 4) as u32,
                        target: bytes::u32_at(s, 8) as u32,
                        method: MemberId {
                            def_level: bytes::u16_at(s, 12) as u16,
                            index: bytes::u16_at(s, 14) as u16,
                        },
                        param_count: s[16],
                        params: s.subrange(17, size),
                    },
                ),
                s.skip(size),
            ),
        )
    }
}

/// The notification that the octets after its size spell: target (4), method (4) and parameter
/// count (1), then a counted notification id, the emitter (4), the event (4), the property (4)
/// and the value.
pub open spec fn notification_of(body: Seq<u8>) -> Option<NotificationModel> {
    if body.len() < 11 || body.len() < 23 + bytes::u16_at(body, 9) {
        None
    } else {
        let at = 11 + bytes::u16_at(body, 9);
        Some(
            NotificationModel {
                emitter: bytes::u32_at(body, at) as u32,
                property: MemberId {
                    def_level: bytes::u16_at(body, at + 8) as u16,
                    index: bytes::u16_at(body, at + 10) as u16,
                },
                value: body.skip(at + 12),
            },
        )
    }
}

/// The notification at the front of `s`, and what follows it.
pub open spec fn parsed_notification(s: Seq<u8>) -> Result<(MessageModel, Seq<u8>), Error> {
    let size = bytes::u32_at(s, 0);
    if s.len() < 4 {
        Err(Error::Truncated)
    } else if size < 4 {
        Err(Error::BadLength(size as usize))
    } else if s.len() < size {
        Err(Error::Truncated)
    } else {
        match notification_of(s.subrange(4, size)) {
            Some(n) => Ok((MessageModel::Notification(n), s.skip(size))),
            None => Err(Error::Truncated),
        }
    }
}

/// The heartbeat at the front of `s`, and what follows it. A device may give it in seconds (a
/// `u16`) or in milliseconds (a `u32`); the length tells which.
pub open spec fn parsed_keepalive(s: Seq<u8>) -> Result<(MessageModel, Seq<u8>), Error> {
    if s.len() < 2 {
        Err(Error::Truncated)
    } else if s.len() < 4 {
        Ok(
            (
                MessageModel::KeepAlive { heartbeat_secs: bytes::u16_at(s, 0) as u16 },
                s.skip(2),
            ),
        )
    } else {
        let secs = bytes::u32_at(s, 0) / 1000;
        Ok(
            (
                MessageModel::KeepAlive {
                    heartbeat_secs: (if secs < 1 {
                        1
                    } else {
                        secs % 65536
                    }) as u16,
                },
                s.skip(4),
            ),
        )
    }
}

/// The message of the given type at the front of `s`, and what follows it.
pub open spec fn parsed_message(pdu_type: PduType, s: Seq<u8>) -> Result<
    (MessageModel, Seq<u8>),
    Error,
> {
    match pdu_type {
        PduType::KeepAlive => parsed_keepalive(s),
        PduType::Response => parsed_response(s),
        PduType::Notification => parsed_notification(s),
        PduType::Command => parsed_command(s),
        PduType::CommandResponseRequired => parsed_command(s),
    }
}

/// `n` messages read off the front of `s` after those in `done`.
pub open spec fn parsed_messages(
    pdu_type: PduType,
    n: nat,
    s: Seq<u8>,
    done: Seq<MessageModel>,
) -> Result<Seq<MessageModel>, Error>
    decreases n,
{
    if n == 0 {
        Ok(done)
    } else {
        match parsed_message(pdu_type, s) {
            Ok((m, rest)) => parsed_messages(pdu_type, (n - 1) as nat, rest, done.push(m)),
            Err(e) => Err(e),
        }
    }
}

/// The type with the number `code`, for `code <= 4`.
pub open spec fn pdu_type_of(code: u8) -> PduType {
    match code {
        0 => PduType::Command,
        1 => PduType::CommandResponseRequired,
        2 => PduType::Notification,
        3 => PduType::Response,
        _ => PduType::KeepAlive,
    }
}

/// The messages of one complete PDU.
pub open spec fn decoded(pdu: Seq<u8>) -> Result<Seq<MessageModel>, Error> {
    match framed_len(pdu) {
        Err(e) => Err(e),
        Ok(None) => Err(Error::Truncated),
        Ok(Some(total)) => if pdu[7] > 4 {
            Err(Error::UnknownPduType(pdu[7]))
        } else {
            parsed_messages(
                pdu_type_of(pdu[7]),
                bytes::u16_at(pdu, 8) as nat,
                pdu.subrange(10, total),
                seq![],
            )
        },
    }
}

/// The views of a list of messages.
pub open spec fn message_models(v: Seq<Message>) -> Seq<MessageModel> {
    v.map_values(|m: Message| m@)
}

/// Decodes one complete PDU into its messages.
pub fn decode_pdu(pdu: &[u8]) -> (r: Result<Vec<Message>, Error>)
    ensures
        match r {
            Ok(v) => decoded(pdu@) == Ok::<Seq<MessageModel>, Error>(message_models(v@)),
            Err(e) => decoded(pdu@) == Err::<Seq<MessageModel>, Error>(e),
        },
{
    let total: usize = match pdu_len(pdu) {
        Ok(Some(n)) => n,
        Ok(None) => return Err(Error::Truncated),
        Err(e) => return Err(e),
    };
    let pdu_type = match PduType::from_u8(pdu[7]) {
        Ok(t) => t,
        Err(e) => return Err(e),
    };
    assert(pdu_type == pdu_type_of(pdu@[7]));
    let msg_count: u16 = read_u16(pdu, 8);
    let mut r = Reader::new(vstd::slice::slice_subrange(pdu, HEADER_LEN, total));
    let mut out: Vec<Message> = Vec::new();
    let mut left: u16 = msg_count;
    assert(message_models(out@) =~= seq![]);
    while left > 0
        invariant
            decoded(pdu@) == parsed_messages(pdu_type, left as nat, r@, message_models(out@)),
        decreases left,
    {
        let ghost done = message_models(out@);
        match decode_message(pdu_type, &mut r) {
            Ok(m) => {
                out.push(m);
                assert(message_models(out@) =~= done.push(m@));
            },
            Err(e) => return Err(e),
        }
        left = left - 1;
    }
    Ok(out)
}

fn decode_message(pdu_type: PduType, r: &mut Reader<'_>) -> (res: Result<Message, Error>)
    ensures
        match res {
            Ok(m) => parsed_message(pdu_type, old(r)@) == Ok::<(MessageModel, Seq<u8>), Error>(
                (m@, final(r)@),
            ),
            Err(e) => parsed_message(pdu_type, old(r)@) == Err::<(MessageModel, Seq<u8>), Error>(e),
        },
{
    match pdu_type {
        PduType::KeepAlive => decode_keepalive(r),
        PduType::Response => decode_response(r),
        PduType::Notification => decode_notification(r),
        PduType::Command => decode_command(r),
        PduType::CommandResponseRequired => decode_command(r),
    }
}

fn decode_keepalive(r: &mut Reader<'_>) -> (res: Result<Message, Error>)
    ensures
        match res {
            Ok(m) => parsed_keepalive(old(r)@) == Ok::<(MessageModel, Seq<u8>), Error>(
                (m@, final(r)@),
            ),
            Err(e) => parsed_keepalive(old(r)@) == Err::<(MessageModel, Seq<u8>), Error>(e),
        },
{
    let heartbeat_secs: u16 = if r.remaining().len() <= 3 {
        match r.u16() {
            Ok(n) => n,
            Err(e) => return Err(e),
        }
    } else {
        match r.u32() {
            Ok(n) => {
                let secs: u32 = n / 1000;
                if secs < 1 {
                    1
                } else {
                    (secs % 65536) as u16
                }
            },
            Err(e) => return Err(e),
        }
    };
    Ok(Message::KeepAlive { heartbeat_secs })
}

fn decode_response(r: &mut Reader<'_>) -> (res: Result<Message, Error>)
    ensures
        match res {
            Ok(m) => parsed_response(old(r)@) == Ok::<(MessageModel, Seq<u8>), Error>(
                (m@, final(r)@),
            ),
            Err(e) => parsed_response(old(r)@) == Err::<(MessageModel, Seq<u8>), Error>(e),
        },
{
    let ghost s = r@;
    let size: usize = match r.u32() {
        Ok(n) => n as usize,
        Err(e) => return Err(e),
    };
    let handle: u32 = match r.u32() {
        Ok(n) => n,
        Err(e) => return Err(e),
    };
    let status: u8 = match r.u8() {
        Ok(n) => n,
        Err(e) => return Err(e),
    };
    let param_count: u8 = match r.u8() {
        Ok(n) => n,
        Err(e) => return Err(e),
    };
    assert(r@ =~= s.skip(10));
    if size < 10 {
        return Err(Error::BadLength(size));
    }
    let params = match r.take(size - 10) {
        Ok(b) => vstd::slice::slice_to_vec(b),
        Err(e) => return Err(e),
    };
    assert(params@ =~= s.subrange(10, size as int));
    assert(r@ =~= s.skip(size as int));
    Ok(Message::Response(Response { handle, status, param_count, params }))
}

fn decode_command(r: &mut Reader<'_>) -> (res: Result<Message, Error>)
    ensures
        match res {
            Ok(m) => parsed_command(old(r)@) == Ok::<(MessageModel, Seq<u8>), Error>(
                (m@, final(r)@),
            ),
            Err(e) => parsed_command(old(r)@) == Err::<(MessageModel, Seq<u8>), Error>(e),
        },
{
    let ghost s = r@;
    let size: usize = match r.u32() {
        Ok(n) => n as usize,
        Err(e) => return Err(e),
    };
    let handle: u32 = match r.u32() {
        Ok(n) => n,
        Err(e) => return Err(e),
    };
    let target: u32 = match r.u32() {
        Ok(n) => n,
        Err(e) => return Err(e),
    };
    assert(r@ =~= s.skip(12));
    let def_level: u16 = match r.u16() {
        Ok(n) => n,
        Err(e) => return Err(e),
    };
    let index: u16 = match r.u16() {
        Ok(n) => n,
        Err(e) => return Err(e),
    };
    let param_count: u8 = match r.u8() {
        Ok(n) => n,
        Err(e) => return Err(e),
    };
    assert(r@ =~= s.skip(17));
    if size < 17 {
        return Err(Error::BadLength(size));
    }
    let params = match r.take(size - 17) {
        Ok(b) => vstd::slice::slice_to_vec(b),
        Err(e) => return Err(e),
    };
    assert(params@ =~= s.subrange(17, size as int));
    assert(r@ =~= s.skip(size as int));
    Ok(
        Message::Command(
            Command {
                handle,
                target,
                method: MemberId::new(def_level, index),
                param_count,
                params,
            },
        ),
    )
}

/// Reads a notification off the octets after its size.
fn read_notification(body: &[u8]) -> (res: Result<Notification, Error>)
    ensures
        match res {
            Ok(n) => notification_of(body@) == Some(n@),
            Err(e) => notification_of(body@) is None && e is Truncated,
        },
{
    let ghost s = body@;
    let mut b = Reader::new(body);
    match b.take(9) {
        Ok(_) => {},
        Err(e) => return Err(e),
    }
    match b.bytes() {
        Ok(_) => {},
        Err(e) => return Err(e),
    }
    let ghost at = 11 + bytes::u16_at(s, 9);
    assert(bytes::u16_at(s.skip(9), 0) == bytes::u16_at(s, 9));
    assert(b@ =~= s.skip(at));
    let emitter: u32 = match b.u32() {
        Ok(n) => n,
        Err(e) => return Err(e),
    };
    match b.take(4) {
        Ok(_) => {},
        Err(e) => return Err(e),
    }
    assert(b@ =~= s.skip(at + 8));
    let def_level: u16 = match b.u16() {
        Ok(n) => n,
        Err(e) => return Err(e),
    };
    let index: u16 = match b.u16() {
        Ok(n) => n,
        Err(e) => return Err(e),
    };
    assert(b@ =~= s.skip(at + 12));
    let value = vstd::slice::slice_to_vec(b.remaining());
    Ok(Notification { emitter, property: MemberId::new(def_level, index), value })
}

fn decode_notification(r: &mut Reader<'_>) -> (res: Result<Message, Error>)
    ensures
        match res {
            Ok(m) => parsed_notification(old(r)@) == Ok::<(MessageModel, Seq<u8>), Error>(
                (m@, final(r)@),
            ),
            Err(e) => parsed_notification(old(r)@) == Err::<(MessageModel, Seq<u8>), Error>(e),
        },
{
    let ghost s = r@;
    let size: usize = match r.u32() {
        Ok(n) => n as usize,
        Err(e) => return Err(e),
    };
    if size < 4 {
        return Err(Error::BadLength(size));
    }
    let body = match r.take(size - 4) {
        Ok(b) => b,
        Err(e) => return Err(e),
    };
    assert(body@ =~= s.subrange(4, size as int));
    assert(r@ =~= s.skip(size as int));
    match read_notification(body) {
        Ok(n) => Ok(Message::Notification(n)),
        Err(e) => Err(e),
    }
}

// ---------------------------------------------------------------------------
// Laws
// ---------------------------------------------------------------------------

/// A PDU that was framed here is recognised as complete, at exactly its own length, whatever
/// follows it, and its type, count and body are found again.
#[verifier::spinoff_prover]
#[verifier::rlimit(40)]
pub proof fn a_framed_pdu_is_found_again(pdu_type: PduType, body: Seq<u8>, more: Seq<u8>)
    requires
        body.len() + 9 < 0x1_0000_0000,
    ensures
        framed_len(framed(pdu_type, body) + more) == Ok::<Option<int>, Error>(
            Some(framed(pdu_type, body).len() as int),
        ),
        framed(pdu_type, body).len() == 10 + body.len(),
        framed(pdu_type, body)[7] == pdu_type.code(),
        bytes::u16_at(framed(pdu_type, body), 8) == 1,
        framed(pdu_type, body).subrange(10, 10 + body.len() as int) == body,
{
    let pdu = framed(pdu_type, body);
    let all = pdu + more;
    let size = 9 + body.len() as int;
    assert(all.subrange(1, 3) =~= bytes::u16_bytes(PROTOCOL_VERSION as int));
    bytes::u16_reads_back(all, 1, PROTOCOL_VERSION as int);
    assert(all.subrange(3, 7) =~= bytes::u32_bytes(size));
    bytes::u32_reads_back(all, 3, size);
    assert(pdu.subrange(8, 10) =~= bytes::u16_bytes(1));
    bytes::u16_reads_back(pdu, 8, 1);
    assert(pdu.subrange(10, 10 + body.len() as int) =~= body);
}

/// A complete PDU of one message decodes to that message, where its body spells it.
proof fn one_message_decodes(pdu_type: PduType, body: Seq<u8>, m: MessageModel)
    requires
        body.len() + 9 < 0x1_0000_0000,
        parsed_message(pdu_type, body) == Ok::<(MessageModel, Seq<u8>), Error>(
            (m, Seq::<u8>::empty()),
        ),
    ensures
        decoded(framed(pdu_type, body)) == Ok::<Seq<MessageModel>, Error>(seq![m]),
{
    let pdu = framed(pdu_type, body);
    a_framed_pdu_is_found_again(pdu_type, body, Seq::empty());
    assert(pdu + Seq::<u8>::empty() =~= pdu);
    assert(pdu_type_of(pdu[7]) == pdu_type);
    reveal_with_fuel(parsed_messages, 2);
    assert(Seq::<MessageModel>::empty().push(m) =~= seq![m]);
}

/// A command is read back from the PDU that it was encoded to.
#[verifier::spinoff_prover]
#[verifier::rlimit(40)]
pub proof fn a_command_round_trips(c: CommandModel, response_required: bool)
    requires
        c.params.len() + 26 < 0x1_0000_0000,
    ensures
        decoded(
            framed(
                if response_required {
                    PduType::CommandResponseRequired
                } else {
                    PduType::Command
                },
                command_body(c),
            ),
        ) == Ok::<Seq<MessageModel>, Error>(seq![MessageModel::Command(c)]),
{
    let s = command_body(c);
    let size = 17 + c.params.len() as int;
    assert(s.len() == size);
    assert(s.subrange(0, 4) =~= bytes::u32_bytes(size));
    bytes::u32_reads_back(s, 0, size);
    assert(s.subrange(4, 8) =~= bytes::u32_bytes(c.handle as int));
    bytes::u32_reads_back(s, 4, c.handle as int);
    assert(s.subrange(8, 12) =~= bytes::u32_bytes(c.target as int));
    bytes::u32_reads_back(s, 8, c.target as int);
    assert(s.subrange(12, 14) =~= bytes::u16_bytes(c.method.def_level as int));
    bytes::u16_reads_back(s, 12, c.method.def_level as int);
    assert(s.subrange(14, 16) =~= bytes::u16_bytes(c.method.index as int));
    bytes::u16_reads_back(s, 14, c.method.index as int);
    assert(s.subrange(17, size) =~= c.params);
    assert(s.skip(size) =~= Seq::<u8>::empty());
    let pdu_type = if response_required {
        PduType::CommandResponseRequired
    } else {
        PduType::Command
    };
    one_message_decodes(pdu_type, s, MessageModel::Command(c));
}

/// A response is read back from the PDU that it was encoded to.
#[verifier::spinoff_prover]
#[verifier::rlimit(40)]
pub proof fn a_response_round_trips(r: ResponseModel)
    requires
        r.params.len() + 19 < 0x1_0000_0000,
    ensures
        decoded(framed(PduType::Response, response_body(r))) == Ok::<Seq<MessageModel>, Error>(
            seq![MessageModel::Response(r)],
        ),
{
    let s = response_body(r);
    let size = 10 + r.params.len() as int;
    assert(s.len() == size);
    assert(s.subrange(0, 4) =~= bytes::u32_bytes(size));
    bytes::u32_reads_back(s, 0, size);
    assert(s.subrange(4, 8) =~= bytes::u32_bytes(r.handle as int));
    bytes::u32_reads_back(s, 4, r.handle as int);
    assert(s[8] == r.status);
    assert(s[9] == r.param_count);
    assert(s.subrange(10, size) =~= r.params);
    assert(s.skip(size) =~= Seq::<u8>::empty());
    assert(parsed_response(s) == Ok::<(MessageModel, Seq<u8>), Error>(
        (MessageModel::Response(r), Seq::<u8>::empty()),
    ));
    one_message_decodes(PduType::Response, s, MessageModel::Response(r));
}

/// A heartbeat is read back from the PDU that it was encoded to.
pub proof fn a_keepalive_round_trips(heartbeat_secs: u16)
    ensures
        decoded(framed(PduType::KeepAlive, bytes::u16_bytes(heartbeat_secs as int))) == Ok::<
            Seq<MessageModel>,
            Error,
        >(seq![MessageModel::KeepAlive { heartbeat_secs }]),
{
    let s = bytes::u16_bytes(heartbeat_secs as int);
    assert(s.subrange(0, 2) =~= s);
    bytes::u16_reads_back(s, 0, heartbeat_secs as int);
    assert(s.skip(2) =~= Seq::<u8>::empty());
    one_message_decodes(PduType::KeepAlive, s, MessageModel::KeepAlive { heartbeat_secs });
}

/// A PDU on the wire: the sync octet, the version, its size without the sync octet, its type, how many
/// messages it has, and these.
pub proof fn a_pdu_is_these_octets(pdu_type: PduType, body: Seq<u8>)
    requires
        body.len() + 9 < 0x1_0000_0000,
    ensures
        ({
            let s = framed(pdu_type, body);
            &&& s.len() == 10 + body.len()
            &&& s[0] == 0x3b && s[1] == 0 && s[2] == 1
            &&& 0x100_0000 * s[3] + 0x1_0000 * s[4] + 0x100 * s[5] + s[6] == 9 + body.len()
            &&& s[7] == (match pdu_type {
                PduType::Command => 0u8,
                PduType::CommandResponseRequired => 1u8,
                PduType::Notification => 2u8,
                PduType::Response => 3u8,
                PduType::KeepAlive => 4u8,
            })
            &&& s[8] == 0 && s[9] == 1
            &&& s.skip(10) == body
        }),
{
    let s = framed(pdu_type, body);
    let n = 9 + body.len() as int;
    bytes::numbers_are_big_endian(s, 0, n);
    bytes::numbers_are_big_endian(s, 0, 1);
    assert(s.skip(10) =~= body);
    assert(n % 0x1_0000_0000 == n);
    let size = bytes::u32_bytes(n);
    assert(s[3] == size[0] && s[4] == size[1] && s[5] == size[2] && s[6] == size[3]);
}

/// A command and a response on the wire, field by field.
pub proof fn messages_are_these_octets(c: CommandModel, r: ResponseModel)
    requires
        c.params.len() + 17 < 0x1_0000_0000,
        r.params.len() + 10 < 0x1_0000_0000,
    ensures
        ({
            let s = command_body(c);
            &&& s.len() == 17 + c.params.len()
            &&& 0x100_0000 * s[0] + 0x1_0000 * s[1] + 0x100 * s[2] + s[3] == s.len()
            &&& 0x100_0000 * s[4] + 0x1_0000 * s[5] + 0x100 * s[6] + s[7] == c.handle
            &&& 0x100_0000 * s[8] + 0x1_0000 * s[9] + 0x100 * s[10] + s[11] == c.target
            &&& 0x100 * s[12] + s[13] == c.method.def_level
            &&& 0x100 * s[14] + s[15] == c.method.index
            &&& s[16] == c.param_count
            &&& s.skip(17) == c.params
        }),
        ({
            let s = response_body(r);
            &&& s.len() == 10 + r.params.len()
            &&& 0x100_0000 * s[0] + 0x1_0000 * s[1] + 0x100 * s[2] + s[3] == s.len()
            &&& 0x100_0000 * s[4] + 0x1_0000 * s[5] + 0x100 * s[6] + s[7] == r.handle
            &&& s[8] == r.status
            &&& s[9] == r.param_count
            &&& s.skip(10) == r.params
        }),
{
    lemma_command_octets(c);
    lemma_response_octets(r);
}

/// Octets laid out one behind the other are found where they stand.
proof fn lemma_laid_out(
    a: Seq<u8>,
    b: Seq<u8>,
    c: Seq<u8>,
    d: Seq<u8>,
    e: Seq<u8>,
    f: Seq<u8>,
    g: Seq<u8>,
)
    requires
        a.len() == 4,
        b.len() == 4,
    ensures
        ({
            let s = a + b + c + d + e + f + g;
            let n = 8 + c.len() as int;
            &&& s.len() == n + d.len() + e.len() + f.len() + g.len()
            &&& s.subrange(0, 4) == a
            &&& s.subrange(4, 8) == b
            &&& s.subrange(8, n) == c
            &&& s.subrange(n, n + d.len()) == d
            &&& s.subrange(n + d.len(), n + d.len() + e.len()) == e
            &&& s.subrange(n + d.len() + e.len(), n + d.len() + e.len() + f.len()) == f
            &&& s.skip(n + d.len() + e.len() + f.len()) == g
        }),
{
    let s = a + b + c + d + e + f + g;
    let n = 8 + c.len() as int;
    assert(s.subrange(0, 4) =~= a);
    assert(s.subrange(4, 8) =~= b);
    assert(s.subrange(8, n) =~= c);
    assert(s.subrange(n, n + d.len()) =~= d);
    assert(s.subrange(n + d.len(), n + d.len() + e.len()) =~= e);
    assert(s.subrange(n + d.len() + e.len(), n + d.len() + e.len() + f.len()) =~= f);
    assert(s.skip(n + d.len() + e.len() + f.len()) =~= g);
}

proof fn lemma_command_octets(c: CommandModel)
    requires
        c.params.len() + 17 < 0x1_0000_0000,
    ensures
        ({
            let s = command_body(c);
            &&& s.len() == 17 + c.params.len()
            &&& 0x100_0000 * s[0] + 0x1_0000 * s[1] + 0x100 * s[2] + s[3] == s.len()
            &&& 0x100_0000 * s[4] + 0x1_0000 * s[5] + 0x100 * s[6] + s[7] == c.handle
            &&& 0x100_0000 * s[8] + 0x1_0000 * s[9] + 0x100 * s[10] + s[11] == c.target
            &&& 0x100 * s[12] + s[13] == c.method.def_level
            &&& 0x100 * s[14] + s[15] == c.method.index
            &&& s[16] == c.param_count
            &&& s.skip(17) == c.params
        }),
{
    let s = command_body(c);
    let n = 17 + c.params.len() as int;
    lemma_laid_out(
        bytes::u32_bytes(n % 0x1_0000_0000),
        bytes::u32_bytes(c.handle as int),
        bytes::u32_bytes(c.target as int),
        bytes::u16_bytes(c.method.def_level as int),
        bytes::u16_bytes(c.method.index as int),
        seq![c.param_count],
        c.params,
    );
    assert(s.subrange(16, 17)[0] == s[16]);
    bytes::u32_reads_back(s, 0, n);
    bytes::u32_reads_back(s, 4, c.handle as int);
    bytes::u32_reads_back(s, 8, c.target as int);
    bytes::u16_reads_back(s, 12, c.method.def_level as int);
    bytes::u16_reads_back(s, 14, c.method.index as int);
}

proof fn lemma_response_octets(r: ResponseModel)
    requires
        r.params.len() + 10 < 0x1_0000_0000,
    ensures
        ({
            let s = response_body(r);
            &&& s.len() == 10 + r.params.len()
            &&& 0x100_0000 * s[0] + 0x1_0000 * s[1] + 0x100 * s[2] + s[3] == s.len()
            &&& 0x100_0000 * s[4] + 0x1_0000 * s[5] + 0x100 * s[6] + s[7] == r.handle
            &&& s[8] == r.status
            &&& s[9] == r.param_count
            &&& s.skip(10) == r.params
        }),
{
    let s = response_body(r);
    let n = 10 + r.params.len() as int;
    let none = Seq::<u8>::empty();
    let size = bytes::u32_bytes(n % 0x1_0000_0000);
    let handle = bytes::u32_bytes(r.handle as int);
    let two = seq![r.status, r.param_count];
    lemma_laid_out(size, handle, two, none, none, none, r.params);
    assert(size + handle + two + none + none + none + r.params =~= s);
    assert(s.subrange(8, 10)[0] == s[8] && s.subrange(8, 10)[1] == s[9]);
    bytes::u32_reads_back(s, 0, n);
    bytes::u32_reads_back(s, 4, r.handle as int);
}

/// A notification is read for its emitter, its property and its value: behind the target, the method and
/// the number of parameters, and behind counted octets of any length and the event, which do not matter
/// here.
pub proof fn a_notification_reads_back(
    front: Seq<u8>,
    id: Seq<u8>,
    n: NotificationModel,
    event: Seq<u8>,
)
    requires
        front.len() == 9,
        id.len() <= 0xffff,
        event.len() == 4,
    ensures
        notification_of(
            front + bytes::u16_bytes(id.len() as int) + id + bytes::u32_bytes(n.emitter as int)
                + event + bytes::u16_bytes(n.property.def_level as int) + bytes::u16_bytes(
                n.property.index as int,
            ) + n.value,
        ) == Some(n),
{
    let count = bytes::u16_bytes(id.len() as int);
    let emitter = bytes::u32_bytes(n.emitter as int);
    let depth = bytes::u16_bytes(n.property.def_level as int);
    let index = bytes::u16_bytes(n.property.index as int);
    let s = front + count + id + emitter + event + depth + index + n.value;
    let at = 11 + id.len() as int;
    assert(s.subrange(9, 11) =~= count);
    assert(s.subrange(at, at + 4) =~= emitter);
    assert(s.subrange(at + 8, at + 10) =~= depth);
    assert(s.subrange(at + 10, at + 12) =~= index);
    assert(s.skip(at + 12) =~= n.value);
    bytes::u16_reads_back(s, 9, id.len() as int);
    bytes::u32_reads_back(s, at, n.emitter as int);
    bytes::u16_reads_back(s, at + 8, n.property.def_level as int);
    bytes::u16_reads_back(s, at + 10, n.property.index as int);
}

/// A notification that says how long it is comes out of the front of what it stands before.
pub proof fn a_notification_comes_off_the_front(body: Seq<u8>, rest: Seq<u8>)
    requires
        body.len() + 4 < 0x1_0000_0000,
        notification_of(body) is Some,
    ensures
        parsed_notification(bytes::u32_bytes(body.len() as int + 4) + body + rest) == Ok::<
            (MessageModel, Seq<u8>),
            Error,
        >((MessageModel::Notification(notification_of(body)->Some_0), rest)),
{
    let size = body.len() as int + 4;
    let s = bytes::u32_bytes(size) + body + rest;
    assert(s.subrange(0, 4) =~= bytes::u32_bytes(size));
    bytes::u32_reads_back(s, 0, size);
    assert(s.subrange(4, size) =~= body);
    assert(s.skip(size) =~= rest);
}

/// A heartbeat of two octets is in seconds, one of four in milliseconds, rounded down but to no less than
/// one second.
pub proof fn heartbeats_come_in_two_units(a: u8, b: u8, c: u8, d: u8)
    ensures
        parsed_keepalive(seq![a, b]) == Ok::<(MessageModel, Seq<u8>), Error>(
            (
                MessageModel::KeepAlive { heartbeat_secs: (0x100 * a + b) as u16 },
                Seq::<u8>::empty(),
            ),
        ),
        ({
            let ms = 0x100_0000 * a + 0x1_0000 * b + 0x100 * c + d;
            &&& parsed_keepalive(seq![a, b, c, d]) is Ok
            &&& parsed_keepalive(seq![a, b, c, d])->Ok_0.0 is KeepAlive
            &&& 1000 <= ms < 65_536_000 ==> parsed_keepalive(
                seq![a, b, c, d],
            )->Ok_0.0->heartbeat_secs == ms / 1000
            &&& ms < 1000 ==> parsed_keepalive(seq![a, b, c, d])->Ok_0.0->heartbeat_secs == 1
        }),
{
    let two = seq![a, b];
    let four = seq![a, b, c, d];
    assert(two.skip(2) =~= Seq::<u8>::empty());
    bytes::numbers_are_big_endian(two, 0, 0);
    bytes::numbers_are_big_endian(four, 0, 0);
}

/// The messages laid out one behind the other.
pub open spec fn messages_octets(bodies: Seq<Seq<u8>>) -> Seq<u8>
    decreases bodies.len(),
{
    if bodies.len() == 0 {
        seq![]
    } else {
        bodies[0] + messages_octets(bodies.skip(1))
    }
}

proof fn lemma_messages_read(
    pdu_type: PduType,
    bodies: Seq<Seq<u8>>,
    messages: Seq<MessageModel>,
    done: Seq<MessageModel>,
)
    requires
        bodies.len() == messages.len(),
        forall|i: int, rest: Seq<u8>|
            0 <= i < bodies.len() ==> #[trigger] parsed_message(pdu_type, bodies[i] + rest) == Ok::<
                (MessageModel, Seq<u8>),
                Error,
            >((messages[i], rest)),
    ensures
        parsed_messages(pdu_type, messages.len(), messages_octets(bodies), done) == Ok::<
            Seq<MessageModel>,
            Error,
        >(done + messages),
    decreases messages.len(),
{
    if messages.len() == 0 {
        assert(done + messages =~= done);
    } else {
        let more = bodies.skip(1);
        let later = messages.skip(1);
        assert(parsed_message(pdu_type, bodies[0] + messages_octets(more)) == Ok::<
            (MessageModel, Seq<u8>),
            Error,
        >((messages[0], messages_octets(more))));
        assert forall|i: int, rest: Seq<u8>| 0 <= i < more.len() implies #[trigger] parsed_message(
            pdu_type,
            more[i] + rest,
        ) == Ok::<(MessageModel, Seq<u8>), Error>((later[i], rest)) by {
            assert(more[i] == bodies[i + 1]);
            assert(parsed_message(pdu_type, bodies[i + 1] + rest) == Ok::<
                (MessageModel, Seq<u8>),
                Error,
            >((messages[i + 1], rest)));
        }
        lemma_messages_read(pdu_type, more, later, done.push(messages[0]));
        assert(done.push(messages[0]) + later =~= done + messages);
    }
}

/// A PDU may carry several messages: all of them are read, in order.
pub proof fn several_responses_read_back(responses: Seq<ResponseModel>)
    requires
        responses.len() <= 0xffff,
        forall|i: int|
            0 <= i < responses.len() ==> (#[trigger] responses[i]).params.len() + 10
                < 0x1_0000_0000,
        messages_octets(responses.map_values(|r: ResponseModel| response_body(r))).len() + 9
            < 0x1_0000_0000,
    ensures
        ({
            let body = messages_octets(responses.map_values(|r: ResponseModel| response_body(r)));
            decoded(header(PduType::Response, body.len() as int, responses.len() as int) + body)
                == Ok::<Seq<MessageModel>, Error>(
                responses.map_values(|r: ResponseModel| MessageModel::Response(r)),
            )
        }),
{
    let bodies = responses.map_values(|r: ResponseModel| response_body(r));
    let messages = responses.map_values(|r: ResponseModel| MessageModel::Response(r));
    let body = messages_octets(bodies);
    assert forall|i: int, rest: Seq<u8>| 0 <= i < bodies.len() implies #[trigger] parsed_message(
        PduType::Response,
        bodies[i] + rest,
    ) == Ok::<(MessageModel, Seq<u8>), Error>((messages[i], rest)) by {
        lemma_response_off_the_front(responses[i], rest);
    }
    lemma_messages_read(PduType::Response, bodies, messages, seq![]);
    assert(Seq::<MessageModel>::empty() + messages =~= messages);
    let h = header(PduType::Response, body.len() as int, responses.len() as int);
    let s = h + body;
    let n = 9 + body.len() as int;
    lemma_header_octets(PduType::Response, body.len() as int, responses.len() as int);
    assert(forall|i: int| 0 <= i < 10 ==> s[i] == h[i]);
    assert(bytes::u32_at(s, 3) == n);
    assert(bytes::u16_at(s, 1) == 1);
    assert(bytes::u16_at(s, 8) == responses.len());
    assert(framed_len(s) == Ok::<Option<int>, Error>(Some(n + 1)));
    assert(s.subrange(10, n + 1) =~= body);
}

proof fn lemma_header_octets(pdu_type: PduType, payload_len: int, msg_count: int)
    requires
        0 <= payload_len < 0x1_0000_0000 - 9,
        0 <= msg_count <= 0xffff,
    ensures
        ({
            let h = header(pdu_type, payload_len, msg_count);
            &&& h.len() == 10
            &&& h[0] == 0x3b && h[1] == 0 && h[2] == 1
            &&& 0x100_0000 * h[3] + 0x1_0000 * h[4] + 0x100 * h[5] + h[6] == 9 + payload_len
            &&& h[7] == pdu_type.code()
            &&& 0x100 * h[8] + h[9] == msg_count
        }),
{
    let h = header(pdu_type, payload_len, msg_count);
    let n = 9 + payload_len;
    let size = bytes::u32_bytes(n);
    let count = bytes::u16_bytes(msg_count);
    let version = bytes::u16_bytes(1);
    assert(n % 0x1_0000_0000 == n);
    assert(h =~= seq![0x3bu8] + version + size + seq![pdu_type.code()] + count);
    assert(h[3] == size[0] && h[4] == size[1] && h[5] == size[2] && h[6] == size[3]);
    assert(h[8] == count[0] && h[9] == count[1]);
    bytes::numbers_are_big_endian(h, 0, n);
    bytes::numbers_are_big_endian(h, 0, msg_count);
}

proof fn lemma_response_off_the_front(r: ResponseModel, rest: Seq<u8>)
    requires
        r.params.len() + 10 < 0x1_0000_0000,
    ensures
        parsed_message(PduType::Response, response_body(r) + rest) == Ok::<
            (MessageModel, Seq<u8>),
            Error,
        >((MessageModel::Response(r), rest)),
{
    let own = response_body(r);
    let s = own + rest;
    let n = 10 + r.params.len() as int;
    lemma_response_octets(r);
    assert(forall|i: int| 0 <= i < 10 ==> s[i] == own[i]);
    assert(s.subrange(10, n) =~= own.skip(10));
    assert(s.skip(n) =~= rest);
    assert(bytes::u32_at(s, 0) == n);
    assert(bytes::u32_at(s, 4) == r.handle);
}

/// The front of a stream is told for what it is: too short to tell, out of step by its sync octet, its
/// version or its size, not whole yet, or a PDU of the size it gives and one octet.
pub proof fn the_front_of_a_stream_is_told(buf: Seq<u8>)
    ensures
        buf.len() < 10 ==> framed_len(buf) == Ok::<Option<int>, Error>(None),
        buf.len() >= 10 && buf[0] != 0x3b ==> framed_len(buf) == Err::<Option<int>, Error>(
            Error::BadSync(buf[0]),
        ),
        buf.len() >= 10 && buf[0] == 0x3b && (buf[1] != 0 || buf[2] != 1) ==> framed_len(buf)
            == Err::<Option<int>, Error>(Error::BadVersion((0x100 * buf[1] + buf[2]) as u16)),
        ({
            let size = 0x100_0000 * buf[3] + 0x1_0000 * buf[4] + 0x100 * buf[5] + buf[6];
            buf.len() >= 10 && buf[0] == 0x3b && buf[1] == 0 && buf[2] == 1 ==> {
                &&& size < 9 ==> framed_len(buf) == Err::<Option<int>, Error>(
                    Error::BadLength(size as usize),
                )
                &&& size >= 9 && buf.len() <= size ==> framed_len(buf) == Ok::<Option<int>, Error>(
                    None,
                )
                &&& size >= 9 && buf.len() > size ==> framed_len(buf) == Ok::<Option<int>, Error>(
                    Some(size + 1),
                )
            }
        }),
{
    bytes::numbers_are_big_endian(buf, 1, 0);
    bytes::numbers_are_big_endian(buf, 3, 0);
}

} // verus!
