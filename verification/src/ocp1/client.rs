//! The controller's side of one OCP.1 connection: what is sent, and what is done with what
//! arrives.
use vstd::prelude::*;

use crate::bytes;
use crate::bytes::push_all;
use crate::float32::Float32;
use crate::idset::IdSet;
use crate::ocp1::classes::{root, single_value, subscription, ClassIdentification, ClassModel};
use crate::ocp1::error::Error;
use crate::ocp1::ono::{reserved, Ono};
use crate::ocp1::pdu;
use crate::ocp1::pdu::{
    decode_pdu, encode_command, pdu_len, Command, CommandModel, MemberId, Message, MessageModel,
    PduType, Response,
};
use crate::ocp1::value;
use crate::ocp1::value::{Reader, Writer};
use crate::text;

verus! {

/// OCP.1 has no assigned port and expects discovery; this is the widely used convention.
pub const DEFAULT_OCP1_PORT: u16 = 65000;

/// A request on its way out: the handle that its response will carry, and the PDU.
#[derive(Debug, Clone)]
pub struct Request {
    pub handle: u32,
    pub frame: Vec<u8>,
}

/// One connection to a device.
pub struct Client {
    next_handle: u32,
    pending: IdSet,
    buf: Vec<u8>,
}

/// A [`Client`]: the next handle to try, the handles that await a response, and the octets that
/// arrived but do not make a complete PDU yet.
#[verifier::ext_equal]
pub struct ClientModel {
    pub next_handle: u32,
    pub pending: Set<u32>,
    pub unread: Seq<u8>,
}

impl View for Client {
    type V = ClientModel;

    closed spec fn view(&self) -> ClientModel {
        ClientModel {
            next_handle: self.next_handle,
            pending: self.pending@,
            unread: self.buf@,
        }
    }
}

/// The handle that is used when `next` comes up: 0 stands for "no handle" and is skipped.
pub open spec fn usable_handle(next: u32) -> u32 {
    if next == 0 {
        1
    } else {
        next
    }
}

/// The handle after `handle`.
pub open spec fn handle_after(handle: u32) -> u32 {
    if handle == u32::MAX {
        0
    } else {
        (handle + 1) as u32
    }
}

/// What sending `method` with `params` to `target` does to a connection, and what goes out.
pub open spec fn sends(
    before: ClientModel,
    after: ClientModel,
    request: Request,
    target: Ono,
    method: MemberId,
    param_count: u8,
    params: Seq<u8>,
) -> bool {
    let handle = usable_handle(before.next_handle);
    &&& request.handle == handle
    &&& request.frame@ == pdu::framed(
        PduType::CommandResponseRequired,
        pdu::command_body(CommandModel { handle, target: target.0, method, param_count, params }),
    )
    &&& after == ClientModel {
        next_handle: handle_after(handle),
        pending: before.pending.insert(handle),
        unread: before.unread,
    }
}

/// The messages in the complete PDUs at the front of `buf`, what is left after them, and whether
/// the stream is still in step. A PDU that does not decode is passed over.
pub open spec fn unframed(buf: Seq<u8>) -> (Seq<MessageModel>, Seq<u8>, bool)
    decreases buf.len(),
{
    match pdu::framed_len(buf) {
        Err(_) => (seq![], buf, false),
        Ok(None) => (seq![], buf, true),
        Ok(Some(n)) => if 0 < n <= buf.len() {
            let here = pdu_messages(buf.take(n));
            let (more, rest, in_step) = unframed(buf.skip(n));
            (here + more, rest, in_step)
        } else {
            (seq![], buf, true)
        },
    }
}

/// The messages of a PDU, none where it does not decode.
pub open spec fn pdu_messages(frame: Seq<u8>) -> Seq<MessageModel> {
    match pdu::decoded(frame) {
        Ok(v) => v,
        Err(_) => seq![],
    }
}

/// What a controller passes on of `messages`, and the handles that still await a response: a
/// response that is awaited, every notification, and nothing else.
pub open spec fn delivered(messages: Seq<MessageModel>, pending: Set<u32>) -> (
    Seq<MessageModel>,
    Set<u32>,
)
    decreases messages.len(),
{
    if messages.len() == 0 {
        (seq![], pending)
    } else {
        let (before, still) = delivered(messages.drop_last(), pending);
        match messages.last() {
            MessageModel::Response(r) => if still.contains(r.handle) {
                (before.push(messages.last()), still.remove(r.handle))
            } else {
                (before, still)
            },
            MessageModel::Notification(_) => (before.push(messages.last()), still),
            _ => (before, still),
        }
    }
}

/// The parameters of a subscription request: the event (the emitter's property-changed event),
/// the subscriber method, and where one is added its context, delivery mode and destination.
pub open spec fn subscription_octets(target: Ono, add: bool) -> Seq<u8> {
    let event = bytes::u32_bytes(target.0 as int) + bytes::u16_bytes(1) + bytes::u16_bytes(1);
    let subscriber = bytes::u32_bytes(0) + bytes::u16_bytes(0) + bytes::u16_bytes(0);
    if add {
        event + subscriber + bytes::u16_bytes(0) + seq![1u8] + bytes::u16_bytes(0)
    } else {
        event + subscriber
    }
}

/// The parameters of a subscription request.
pub fn subscription_params(target: Ono, add: bool) -> (r: Vec<u8>)
    ensures
        r@ == subscription_octets(target, add),
{
    let mut w = Writer::new();
    w.u32(target.0).u16(1).u16(1);
    w.u32(0).u16(0).u16(0);
    if add {
        w.bytes(&[]).u8(1).bytes(&[]);
    }
    let r = w.finish();
    assert(r@ =~= subscription_octets(target, add));
    r
}

/// The heartbeat that is announced for an interval: whole seconds, at least one.
pub fn heartbeat_secs(interval_secs: u64) -> (r: u16)
    ensures
        r == (if interval_secs < 1 {
            1
        } else if interval_secs > 0xffff {
            0xffff
        } else {
            interval_secs as int
        }),
{
    if interval_secs < 1 {
        1
    } else if interval_secs > 0xffff {
        0xffff
    } else {
        interval_secs as u16
    }
}

/// The class that the reply `params` gives. Some devices leave the version out when it is 1.
pub open spec fn class_reply(params: Seq<u8>) -> Option<ClassModel> {
    let (fields, rest) = value::parsed_list::<u16>(params);
    match fields {
        Ok(f) => Some(
            ClassModel {
                fields: f,
                version: if rest.len() >= 4 {
                    bytes::u32_at(rest, 0) as u32
                } else {
                    1
                },
            },
        ),
        Err(_) => None,
    }
}

/// Reads the reply to a class request.
pub fn read_class(params: &[u8]) -> (r: Result<ClassIdentification, Error>)
    ensures
        match r {
            Ok(c) => class_reply(params@) == Some(c@),
            Err(e) => class_reply(params@) is None && e is Truncated,
        },
{
    let mut reader = Reader::new(params);
    proof {
        if params@.len() >= 2 {
            value::a_list_of_numbers_is_whole_or_truncated(
                bytes::u16_at(params@, 0) as nat,
                params@.skip(2),
                seq![],
            );
        }
    }
    let fields: Vec<u16> = match reader.list::<u16>() {
        Ok(f) => f,
        Err(e) => return Err(e),
    };
    assert(fields@.map_values(|x: u16| x@) =~= fields@);
    let version: u32 = match reader.u32() {
        Ok(v) => v,
        Err(_) => 1,
    };
    Ok(ClassIdentification { fields, version })
}

/// Reads the reply to a role request.
pub fn read_role(params: &[u8]) -> (r: Result<String, Error>)
    ensures
        match r {
            Ok(role) => value::counted_bytes(params@) is Some && role@ == text::utf8_lossy(
                value::counted_bytes(params@)->0,
            ) && text::read_faithfully(value::counted_bytes(params@)->0),
            Err(e) => value::counted_bytes(params@) is None && e is Truncated,
        },
{
    let mut reader = Reader::new(params);
    reader.string()
}

impl Client {
    /// No handle is awaited twice.
    pub closed spec fn wf(&self) -> bool {
        self.pending.wf()
    }

    /// A connection on which nothing was sent or received yet.
    pub fn new() -> (r: Self)
        ensures
            r.wf(),
            r@ == (ClientModel { next_handle: 1, pending: Set::empty(), unread: Seq::empty() }),
    {
        Client { next_handle: 1, pending: IdSet::new(), buf: Vec::new() }
    }

    /// Sends a command for which a response is expected.
    pub fn request(
        &mut self,
        target: Ono,
        method: MemberId,
        param_count: u8,
        params: Vec<u8>,
    ) -> (r: Request)
        requires
            old(self).wf(),
            params@.len() + 26 <= usize::MAX,
        ensures
            final(self).wf(),
            sends(old(self)@, final(self)@, r, target, method, param_count, params@),
            r.handle != 0,
    {
        let handle: u32 = if self.next_handle == 0 {
            1
        } else {
            self.next_handle
        };
        self.next_handle = if handle == u32::MAX {
            0
        } else {
            handle + 1
        };
        let _ = self.pending.insert(handle);
        let cmd = Command { handle, target: target.0, method, param_count, params };
        Request { handle, frame: encode_command(&cmd, true) }
    }

    /// Reads a single-value property.
    pub fn get(&mut self, target: Ono, def_level: u16) -> (r: Request)
        requires
            old(self).wf(),
        ensures
            final(self).wf(),
            sends(
                old(self)@,
                final(self)@,
                r,
                target,
                MemberId { def_level, index: 1 },
                0,
                Seq::empty(),
            ),
    {
        self.request(target, single_value::get(def_level), 0, Vec::new())
    }

    /// Writes a single-value property, given as it goes over the wire.
    pub fn set(&mut self, target: Ono, def_level: u16, params: Vec<u8>) -> (r: Request)
        requires
            old(self).wf(),
            params@.len() + 26 <= usize::MAX,
        ensures
            final(self).wf(),
            sends(
                old(self)@,
                final(self)@,
                r,
                target,
                MemberId { def_level, index: 2 },
                1,
                params@,
            ),
    {
        self.request(target, single_value::set(def_level), 1, params)
    }

    /// Writes a single-value property that is one octet.
    pub fn set_u8(&mut self, target: Ono, def_level: u16, value: u8) -> (r: Request)
        requires
            old(self).wf(),
        ensures
            final(self).wf(),
            sends(
                old(self)@,
                final(self)@,
                r,
                target,
                MemberId { def_level, index: 2 },
                1,
                seq![value],
            ),
    {
        let mut w = Writer::new();
        w.u8(value);
        let params = w.finish();
        assert(params@ =~= seq![value]);
        self.set(target, def_level, params)
    }

    /// Writes a single-value property that is a `u16`.
    pub fn set_u16(&mut self, target: Ono, def_level: u16, value: u16) -> (r: Request)
        requires
            old(self).wf(),
        ensures
            final(self).wf(),
            sends(
                old(self)@,
                final(self)@,
                r,
                target,
                MemberId { def_level, index: 2 },
                1,
                bytes::u16_bytes(value as int),
            ),
    {
        let mut w = Writer::new();
        w.u16(value);
        let params = w.finish();
        assert(params@ =~= bytes::u16_bytes(value as int));
        self.set(target, def_level, params)
    }

    /// Writes a single-value property that is an `i32`.
    pub fn set_i32(&mut self, target: Ono, def_level: u16, value: i32) -> (r: Request)
        requires
            old(self).wf(),
        ensures
            final(self).wf(),
            sends(
                old(self)@,
                final(self)@,
                r,
                target,
                MemberId { def_level, index: 2 },
                1,
                bytes::u32_bytes(bytes::to_unsigned(value as int, 0x8000_0000)),
            ),
    {
        let mut w = Writer::new();
        w.i32(value);
        let params = w.finish();
        assert(params@ =~= bytes::u32_bytes(bytes::to_unsigned(value as int, 0x8000_0000)));
        self.set(target, def_level, params)
    }

    /// Writes a single-value property that is a single-precision number.
    pub fn set_f32(&mut self, target: Ono, def_level: u16, value: Float32) -> (r: Request)
        requires
            old(self).wf(),
        ensures
            final(self).wf(),
            sends(
                old(self)@,
                final(self)@,
                r,
                target,
                MemberId { def_level, index: 2 },
                1,
                bytes::u32_bytes(value.bits as int),
            ),
    {
        let mut w = Writer::new();
        w.u32(value.bits);
        let params = w.finish();
        assert(params@ =~= bytes::u32_bytes(value.bits as int));
        self.set(target, def_level, params)
    }

    /// Writes a single-value property that is a text.
    pub fn set_string(&mut self, target: Ono, def_level: u16, value: &str) -> (r: Request)
        requires
            old(self).wf(),
            vstd::utf8::encode_utf8(value@).len() + 28 <= usize::MAX,
        ensures
            final(self).wf(),
            sends(
                old(self)@,
                final(self)@,
                r,
                target,
                MemberId { def_level, index: 2 },
                1,
                bytes::u16_bytes(vstd::utf8::encode_utf8(value@).len() as int % 65536)
                    + vstd::utf8::encode_utf8(value@),
            ),
    {
        let mut w = Writer::new();
        w.string(value);
        let params = w.finish();
        assert(params@ =~= bytes::u16_bytes(vstd::utf8::encode_utf8(value@).len() as int % 65536)
            + vstd::utf8::encode_utf8(value@));
        self.set(target, def_level, params)
    }

    /// Asks for an object's class.
    pub fn class_of(&mut self, target: Ono) -> (r: Request)
        requires
            old(self).wf(),
        ensures
            final(self).wf(),
            sends(
                old(self)@,
                final(self)@,
                r,
                target,
                MemberId { def_level: 1, index: 1 },
                0,
                Seq::empty(),
            ),
    {
        self.request(target, root::get_class_identification(), 0, Vec::new())
    }

    /// Asks for an object's role.
    pub fn role_of(&mut self, target: Ono) -> (r: Request)
        requires
            old(self).wf(),
        ensures
            final(self).wf(),
            sends(
                old(self)@,
                final(self)@,
                r,
                target,
                MemberId { def_level: 1, index: 5 },
                0,
                Seq::empty(),
            ),
    {
        self.request(target, root::get_role(), 0, Vec::new())
    }

    /// Asks the device to notify this connection whenever a property of `target` changes.
    pub fn subscribe(&mut self, target: Ono) -> (r: Request)
        requires
            old(self).wf(),
        ensures
            final(self).wf(),
            sends(
                old(self)@,
                final(self)@,
                r,
                Ono(4),
                MemberId { def_level: 3, index: 1 },
                5,
                subscription_octets(target, true),
            ),
    {
        let params = subscription_params(target, true);
        assert(params@.len() == 21);
        self.request(
            Ono(reserved::SUBSCRIPTION_MANAGER),
            subscription::add_subscription(),
            5,
            params,
        )
    }

    /// Asks the device for no more notifications of `target`.
    pub fn unsubscribe(&mut self, target: Ono) -> (r: Request)
        requires
            old(self).wf(),
        ensures
            final(self).wf(),
            sends(
                old(self)@,
                final(self)@,
                r,
                Ono(4),
                MemberId { def_level: 3, index: 2 },
                2,
                subscription_octets(target, false),
            ),
    {
        let params = subscription_params(target, false);
        assert(params@.len() == 16);
        self.request(
            Ono(reserved::SUBSCRIPTION_MANAGER),
            subscription::remove_subscription(),
            2,
            params,
        )
    }

    /// Gives up on a response.
    pub fn cancel(&mut self, handle: u32)
        requires
            old(self).wf(),
        ensures
            final(self).wf(),
            final(self)@ == (ClientModel {
                pending: old(self)@.pending.remove(handle),
                ..old(self)@
            }),
    {
        let _ = self.pending.remove(handle);
    }

    /// Gives up on all responses, once the connection has ended.
    pub fn close(&mut self)
        requires
            old(self).wf(),
        ensures
            final(self).wf(),
            final(self)@ == (ClientModel { pending: Set::empty(), ..old(self)@ }),
    {
        self.pending = IdSet::new();
    }

    /// Takes in what arrived. Returns the awaited responses and the notifications in it, in
    /// order, and whether the stream is still in step: one that is not cannot be recovered by
    /// guessing, and the connection is to be dropped.
    pub fn receive(&mut self, data: &[u8]) -> (r: (Vec<Message>, bool))
        requires
            old(self).wf(),
        ensures
            final(self).wf(),
            ({
                let (messages, rest, in_step) = unframed(old(self)@.unread + data@);
                let (out, still) = delivered(messages, old(self)@.pending);
                &&& pdu::message_models(r.0@) == out
                &&& r.1 == in_step
                &&& final(self)@ == ClientModel {
                    next_handle: old(self)@.next_handle,
                    pending: still,
                    unread: rest,
                }
            }),
    {
        push_all(&mut self.buf, data);
        let ghost all = self.buf@;
        let ghost pending = self.pending@;
        let ghost next_handle = self.next_handle;
        let mut out: Vec<Message> = Vec::new();
        let ghost mut read: Seq<MessageModel> = seq![];
        let mut in_step: bool = true;
        assert(pdu::message_models(out@) =~= seq![]);
        assert(read + unframed(all).0 =~= unframed(all).0);
        loop
            invariant_except_break
                in_step,
            invariant
                self.wf(),
                self.next_handle == next_handle,
                unframed(all) == (
                    read + unframed(self.buf@).0,
                    unframed(self.buf@).1,
                    unframed(self.buf@).2,
                ),
                delivered(read, pending) == (pdu::message_models(out@), self.pending@),
            ensures
                unframed(all) == (read, self.buf@, in_step),
            decreases self.buf@.len(),
        {
            match pdu_len(self.buf.as_slice()) {
                Ok(Some(len)) => {
                    let ghost buf = self.buf@;
                    let frame = vstd::slice::slice_subrange(self.buf.as_slice(), 0, len);
                    assert(frame@ =~= buf.take(len as int));
                    let messages = match decode_pdu(frame) {
                        Ok(v) => v,
                        Err(_) => Vec::new(),
                    };
                    let ghost here = pdu_messages(buf.take(len as int));
                    assert(pdu::message_models(messages@) =~= here);
                    let rest = vstd::slice::slice_to_vec(
                        vstd::slice::slice_subrange(self.buf.as_slice(), len, self.buf.len()),
                    );
                    assert(rest@ =~= buf.skip(len as int));
                    self.buf = rest;
                    let ghost before = read;
                    self.deliver(messages, &mut out, Ghost(before), Ghost(pending));
                    proof {
                        read = before + here;
                        assert(before + (here + unframed(rest@).0) =~= read + unframed(rest@).0);
                    }
                },
                Ok(None) => {
                    assert(read + unframed(self.buf@).0 =~= read);
                    break;
                },
                Err(_) => {
                    in_step = false;
                    assert(read + unframed(self.buf@).0 =~= read);
                    break;
                },
            }
        }
        (out, in_step)
    }

    /// Passes on what is awaited or announced of `messages`, after those of `before`.
    fn deliver(
        &mut self,
        messages: Vec<Message>,
        out: &mut Vec<Message>,
        Ghost(before): Ghost<Seq<MessageModel>>,
        Ghost(pending): Ghost<Set<u32>>,
    )
        requires
            old(self).wf(),
            delivered(before, pending) == (pdu::message_models(old(out)@), old(self)@.pending),
        ensures
            final(self).wf(),
            final(self).buf == old(self).buf,
            final(self).next_handle == old(self).next_handle,
            delivered(before + pdu::message_models(messages@), pending) == (
                pdu::message_models(final(out)@),
                final(self)@.pending,
            ),
    {
        let ghost all = pdu::message_models(messages@);
        let ghost mut i: int = 0;
        assert(before + all.take(0) =~= before);
        assert(all.skip(0) =~= all);
        let mut queue: Vec<Message> = messages;
        while queue.len() > 0
            invariant
                self.wf(),
                self.buf == old(self).buf,
                self.next_handle == old(self).next_handle,
                0 <= i,
                i + queue@.len() == all.len(),
                pdu::message_models(queue@) == all.skip(i),
                delivered(before + all.take(i), pending) == (
                    pdu::message_models(out@),
                    self@.pending,
                ),
            decreases queue.len(),
        {
            let ghost queued = queue@;
            let message = queue.remove(0);
            let ghost seen = before + all.take(i);
            let ghost next = before + all.take(i + 1);
            let ghost passed = pdu::message_models(out@);
            proof {
                assert(pdu::message_models(queued)[0] == message@);
                assert(all.skip(i)[0] == all[i]);
                assert(next.drop_last() =~= seen);
                assert(next.last() == message@);
                assert(pdu::message_models(queued).skip(1) =~= pdu::message_models(queue@));
                assert(all.skip(i).skip(1) =~= all.skip(i + 1));
            }
            match message {
                Message::Response(r) => {
                    if self.pending.remove(r.handle) {
                        out.push(Message::Response(r));
                        assert(pdu::message_models(out@) =~= passed.push(message@));
                    } else {
                        assert(self@.pending =~= delivered(seen, pending).1);
                    }
                },
                Message::Notification(n) => {
                    out.push(Message::Notification(n));
                    assert(pdu::message_models(out@) =~= passed.push(message@));
                },
                Message::KeepAlive { heartbeat_secs: _ } => {},
                Message::Command(_) => {},
            }
            proof {
                i = i + 1;
            }
        }
        assert(all.take(i) =~= all);
    }
}

// ---------------------------------------------------------------------------
// Laws
// ---------------------------------------------------------------------------

/// How a stream is cut into reads makes no difference: what was read of a first part, followed
/// by what is read once the second part is appended to what was left, is what is read of the
/// whole.
pub proof fn reads_may_split_a_stream_anywhere(first: Seq<u8>, second: Seq<u8>)
    ensures
        ({
            let (early, left, in_step) = unframed(first);
            let (late, rest, still) = unframed(left + second);
            in_step ==> unframed(first + second) == (early + late, rest, still)
        }),
        ({
            let (early, left, in_step) = unframed(first);
            !in_step ==> unframed(first + second) == (early, left + second, false)
        }),
    decreases first.len(),
{
    let (early, left, in_step) = unframed(first);
    match pdu::framed_len(first) {
        Err(e) => {
            assert(pdu::framed_len(first + second) == Err::<Option<int>, Error>(e));
        },
        Ok(None) => {
            let (late, rest, still) = unframed(left + second);
            assert(early + late =~= late);
        },
        Ok(Some(n)) => {
            let all = first + second;
            assert(pdu::framed_len(all) == Ok::<Option<int>, Error>(Some(n)));
            assert(all.take(n) =~= first.take(n));
            assert(all.skip(n) =~= first.skip(n) + second);
            reads_may_split_a_stream_anywhere(first.skip(n), second);
            let here = pdu_messages(first.take(n));
            let (early2, left2, in_step2) = unframed(first.skip(n));
            let (late, rest, still) = unframed(left2 + second);
            assert((here + early2) + late =~= here + (early2 + late));
        },
    }
}

/// A response to a request that is not awaited is dropped, and a second one to the same request
/// too.
pub proof fn a_response_is_delivered_once(r: pdu::ResponseModel, pending: Set<u32>)
    ensures
        delivered(seq![MessageModel::Response(r), MessageModel::Response(r)], pending) == (
            if pending.contains(r.handle) {
                (seq![MessageModel::Response(r)], pending.remove(r.handle))
            } else {
                (Seq::<MessageModel>::empty(), pending)
            }
        ),
{
    let m = MessageModel::Response(r);
    let two = seq![m, m];
    assert(two.drop_last() =~= seq![m]);
    assert(seq![m].drop_last() =~= Seq::<MessageModel>::empty());
    assert(Seq::<MessageModel>::empty().push(m) =~= seq![m]);
    reveal_with_fuel(delivered, 3);
}

/// A request goes out under a handle of its own, which is never 0 and is then awaited; the next request
/// gets another one. What goes out is the command, and asks for a response.
pub proof fn a_request_goes_out_under_its_handle(
    before: ClientModel,
    after: ClientModel,
    later: ClientModel,
    first: Request,
    second: Request,
    target: Ono,
    method: MemberId,
    param_count: u8,
    params: Seq<u8>,
)
    requires
        sends(before, after, first, target, method, param_count, params),
        sends(after, later, second, target, method, param_count, params),
        params.len() + 26 < 0x1_0000_0000,
    ensures
        first.handle != 0,
        after.pending.contains(first.handle),
        forall|h: u32|
            h != first.handle ==> (#[trigger] after.pending.contains(h)) == before.pending.contains(
                h,
            ),
        after.unread == before.unread,
        second.handle != first.handle,
        before.next_handle != 0 ==> first.handle == before.next_handle,
        0 < first.handle < u32::MAX ==> second.handle == first.handle + 1,
        pdu::decoded(first.frame@) == Ok::<Seq<MessageModel>, Error>(
            seq![
                MessageModel::Command(
                    CommandModel { handle: first.handle, target: target.0, method, param_count, params },
                ),
            ],
        ),
        first.frame@[7] == 1,
{
    let c = CommandModel { handle: first.handle, target: target.0, method, param_count, params };
    assert(pdu::decoded(first.frame@) == Ok::<Seq<MessageModel>, Error>(
        seq![MessageModel::Command(c)],
    )) by {
        lemma_command_frame(c);
    }
    assert(first.frame@[7] == 1) by {
        lemma_command_type(c);
    }
}

proof fn lemma_command_len(c: CommandModel)
    ensures
        pdu::command_body(c).len() == 17 + c.params.len(),
{
}

proof fn lemma_command_type(c: CommandModel)
    requires
        c.params.len() + 26 < 0x1_0000_0000,
    ensures
        pdu::framed(PduType::CommandResponseRequired, pdu::command_body(c))[7] == 1,
{
    lemma_command_len(c);
    pdu::a_pdu_is_these_octets(PduType::CommandResponseRequired, pdu::command_body(c));
}

#[verifier::spinoff_prover]
#[verifier::rlimit(50)]
proof fn lemma_command_frame(c: CommandModel)
    requires
        c.params.len() + 26 < 0x1_0000_0000,
    ensures
        pdu::decoded(pdu::framed(PduType::CommandResponseRequired, pdu::command_body(c))) == Ok::<
            Seq<MessageModel>,
            Error,
        >(seq![MessageModel::Command(c)]),
{
    pdu::a_command_round_trips(c, true);
}

/// What is passed on of a run of messages is what is passed on of its first part, and then of the
/// second: a response that is awaited, and no longer after it; every notification; nothing else.
pub proof fn messages_are_delivered_one_by_one(
    first: Seq<MessageModel>,
    second: Seq<MessageModel>,
    pending: Set<u32>,
    m: MessageModel,
)
    ensures
        ({
            let (early, still) = delivered(first, pending);
            let (late, then) = delivered(second, still);
            delivered(first + second, pending) == (early + late, then)
        }),
        delivered(seq![m], pending) == (match m {
            MessageModel::Response(r) => if pending.contains(r.handle) {
                (seq![m], pending.remove(r.handle))
            } else {
                (seq![], pending)
            },
            MessageModel::Notification(_) => (seq![m], pending),
            MessageModel::KeepAlive { .. } => (seq![], pending),
            MessageModel::Command(_) => (seq![], pending),
        }),
    decreases second.len(),
{
    assert(seq![m].drop_last() =~= Seq::<MessageModel>::empty());
    assert(Seq::<MessageModel>::empty().push(m) =~= seq![m]);
    reveal_with_fuel(delivered, 2);
    let (early, still) = delivered(first, pending);
    if second.len() == 0 {
        assert(first + second =~= first);
        assert(early + delivered(second, still).0 =~= early);
    } else {
        assert((first + second).drop_last() =~= first + second.drop_last());
        messages_are_delivered_one_by_one(first, second.drop_last(), pending, m);
        assert(delivered(first + second, pending).0 =~= early + delivered(second, still).0);
    }
}

/// The whole PDUs at the front of a stream are taken off one by one, each with the messages that it
/// decodes to, and none where it does not decode. What is not whole yet is left; a stream that does
/// not begin with a PDU is out of step, and is left as it is.
pub proof fn pdus_are_taken_off_one_by_one(frame: Seq<u8>, rest: Seq<u8>)
    ensures
        pdu::framed_len(frame) == Ok::<Option<int>, Error>(Some(frame.len() as int)) ==> {
            let (more, left, in_step) = unframed(rest);
            unframed(frame + rest) == (
                (match pdu::decoded(frame) {
                    Ok(messages) => messages,
                    Err(_) => seq![],
                }) + more,
                left,
                in_step,
            )
        },
        pdu::framed_len(rest) == Ok::<Option<int>, Error>(None) ==> unframed(rest) == (
            Seq::<MessageModel>::empty(),
            rest,
            true,
        ),
        pdu::framed_len(rest) is Err ==> unframed(rest) == (
            Seq::<MessageModel>::empty(),
            rest,
            false,
        ),
{
    let all = frame + rest;
    let n = frame.len() as int;
    if pdu::framed_len(frame) == Ok::<Option<int>, Error>(Some(n)) {
        pdu::the_front_of_a_stream_is_told(frame);
        pdu::the_front_of_a_stream_is_told(all);
        assert(forall|i: int| 0 <= i < 10 ==> all[i] == frame[i]);
        assert(all.take(n) =~= frame);
        assert(all.skip(n) =~= rest);
    }
}

/// What asks for notifications, octet by octet: the object, the event, no method of ours and, to have
/// them, no context, the mode that is reliable and no destination.
pub proof fn a_subscription_is_these_octets(target: Ono)
    ensures
        ({
            let s = subscription_octets(target, true);
            let t = subscription_octets(target, false);
            &&& s.len() == 21 && t.len() == 16
            &&& 0x100_0000 * s[0] + 0x1_0000 * s[1] + 0x100 * s[2] + s[3] == target.0
            &&& s[4] == 0 && s[5] == 1 && s[6] == 0 && s[7] == 1
            &&& forall|i: int| 8 <= i < 16 ==> #[trigger] s[i] == 0
            &&& s[16] == 0 && s[17] == 0 && s[18] == 1 && s[19] == 0 && s[20] == 0
            &&& t == s.take(16)
        }),
{
    let none = Seq::<u8>::empty();
    bytes::numbers_are_big_endian(none, 0, target.0 as int);
    bytes::numbers_are_big_endian(none, 0, 0);
    bytes::numbers_are_big_endian(none, 0, 1);
    assert(subscription_octets(target, false) =~= subscription_octets(target, true).take(16));
}

/// The reply to a class request is the number of fields, the fields, and the version in four octets; a
/// reply that ends before it is of version 1.
pub proof fn a_class_reads_back(fields: Seq<u16>, version: u32, short: Seq<u8>, rest: Seq<u8>)
    requires
        fields.len() <= 0xffff,
        short.len() < 4,
    ensures
        ({
            let front = bytes::u16_bytes(fields.len() as int) + value::laid_out(
                fields,
                |n: u16| bytes::u16_bytes(n as int),
            );
            &&& class_reply(front + (bytes::u32_bytes(version as int) + rest)) == Some(
                ClassModel { fields, version },
            )
            &&& class_reply(front + short) == Some(ClassModel { fields, version: 1 })
        }),
{
    let tail = bytes::u32_bytes(version as int) + rest;
    value::lists_of_numbers_read_back(fields, seq![], tail);
    value::lists_of_numbers_read_back(fields, seq![], short);
    assert(tail.subrange(0, 4) =~= bytes::u32_bytes(version as int));
    bytes::u32_reads_back(tail, 0, version as int);
}

} // verus!
