//! Marshalling of the AES70-1 base data types onto the OCP.1 wire.
//!
//! Everything is big-endian. Variable-length types are prefixed with a `u16` count.
use vstd::prelude::*;

use crate::bytes;
use crate::bytes::{
    i16_to_u16, i32_to_u32, i64_to_u64, i8_to_u8, push_all, push_u16, push_u32, push_u64, read_u16,
    read_u32, read_u64, u16_to_i16, u32_to_i32, u64_to_i64, u8_to_i8,
};
use crate::ocp1::error::Error;
use crate::text;
use crate::text::from_utf8_lossy;

verus! {

/// Cursor over a received parameter blob. Its view is what is still to be read.
#[derive(Debug, Clone)]
pub struct Reader<'a> {
    rest: &'a [u8],
}

impl<'a> View for Reader<'a> {
    type V = Seq<u8>;

    closed spec fn view(&self) -> Seq<u8> {
        self.rest@
    }
}

/// What a counted run of octets at the front of `s` holds, where `s` holds all of it.
pub open spec fn counted_bytes(s: Seq<u8>) -> Option<Seq<u8>> {
    if s.len() >= 2 && 2 + bytes::u16_at(s, 0) <= s.len() {
        Some(s.subrange(2, 2 + bytes::u16_at(s, 0)))
    } else {
        None
    }
}

/// What is left of `s` once a counted run of octets was read from it, or failed to be.
pub open spec fn after_counted_bytes(s: Seq<u8>) -> Seq<u8> {
    if s.len() < 2 {
        s
    } else if 2 + bytes::u16_at(s, 0) <= s.len() {
        s.skip(2 + bytes::u16_at(s, 0))
    } else {
        s.skip(2)
    }
}

/// A type that lists can hold: how one element is read off the front of a byte sequence.
pub trait Element: View + Sized {
    /// The element at the front of `s`, or why there is none, and what is left to read.
    spec fn parsed(s: Seq<u8>) -> (Result<Self::V, Error>, Seq<u8>);

    fn read(r: &mut Reader<'_>) -> (res: Result<Self, Error>)
        ensures
            final(r)@ == Self::parsed(old(r)@).1,
            match res {
                Ok(v) => Self::parsed(old(r)@).0 == Ok::<Self::V, Error>(v@),
                Err(e) => Self::parsed(old(r)@).0 == Err::<Self::V, Error>(e),
            },
    ;
}

impl Element for u16 {
    open spec fn parsed(s: Seq<u8>) -> (Result<u16, Error>, Seq<u8>) {
        if s.len() >= 2 {
            (Ok(bytes::u16_at(s, 0) as u16), s.skip(2))
        } else {
            (Err(Error::Truncated), s)
        }
    }

    fn read(r: &mut Reader<'_>) -> (res: Result<Self, Error>) {
        r.u16()
    }
}

impl Element for u32 {
    open spec fn parsed(s: Seq<u8>) -> (Result<u32, Error>, Seq<u8>) {
        if s.len() >= 4 {
            (Ok(bytes::u32_at(s, 0) as u32), s.skip(4))
        } else {
            (Err(Error::Truncated), s)
        }
    }

    fn read(r: &mut Reader<'_>) -> (res: Result<Self, Error>) {
        r.u32()
    }
}

/// `n` elements read off the front of `s` after those in `done`, or why one of them could not be,
/// and what is left to read.
pub open spec fn parsed_items<T: Element>(n: nat, s: Seq<u8>, done: Seq<T::V>) -> (
    Result<Seq<T::V>, Error>,
    Seq<u8>,
)
    decreases n,
{
    if n == 0 {
        (Ok(done), s)
    } else {
        let (item, rest) = T::parsed(s);
        match item {
            Ok(v) => parsed_items::<T>((n - 1) as nat, rest, done.push(v)),
            Err(e) => (Err(e), rest),
        }
    }
}

/// The counted list at the front of `s`, or why it could not be read, and what is left to read.
pub open spec fn parsed_list<T: Element>(s: Seq<u8>) -> (Result<Seq<T::V>, Error>, Seq<u8>) {
    if s.len() >= 2 {
        parsed_items::<T>(bytes::u16_at(s, 0) as nat, s.skip(2), seq![])
    } else {
        (Err(Error::Truncated), s)
    }
}

/// Reading a list of 16-bit numbers fails in one way only.
pub(crate) proof fn a_list_of_numbers_is_whole_or_truncated(n: nat, s: Seq<u8>, done: Seq<u16>)
    ensures
        parsed_items::<u16>(n, s, done).0 is Err ==> parsed_items::<u16>(n, s, done).0->Err_0
            is Truncated,
    decreases n,
{
    if n > 0 && s.len() >= 2 {
        a_list_of_numbers_is_whole_or_truncated(
            (n - 1) as nat,
            s.skip(2),
            done.push(bytes::u16_at(s, 0) as u16),
        );
    }
}

impl<'a> Reader<'a> {
    /// A cursor at the front of `buf`.
    pub fn new(buf: &'a [u8]) -> (r: Self)
        ensures
            r@ == buf@,
    {
        Reader { rest: buf }
    }

    /// What is still to be read.
    pub fn remaining(&self) -> (r: &'a [u8])
        ensures
            r@ == self@,
    {
        self.rest
    }

    /// Whether everything was read.
    pub fn is_empty(&self) -> (r: bool)
        ensures
            r == (self@.len() == 0),
    {
        self.rest.len() == 0
    }

    /// Reads `n` octets.
    pub fn take(&mut self, n: usize) -> (r: Result<&'a [u8], Error>)
        ensures
            match r {
                Ok(b) => n <= old(self)@.len() && b@ == old(self)@.take(n as int) && final(self)@
                    == old(self)@.skip(n as int),
                Err(e) => n > old(self)@.len() && e is Truncated && final(self)@ == old(self)@,
            },
    {
        let rest: &'a [u8] = self.rest;
        if n > rest.len() {
            return Err(Error::Truncated);
        }
        let head: &'a [u8] = vstd::slice::slice_subrange(rest, 0, n);
        self.rest = vstd::slice::slice_subrange(rest, n, rest.len());
        assert(head@ =~= rest@.take(n as int));
        assert(self.rest@ =~= rest@.skip(n as int));
        Ok(head)
    }

    pub fn u8(&mut self) -> (r: Result<u8, Error>)
        ensures
            match r {
                Ok(v) => old(self)@.len() >= 1 && v == old(self)@[0] && final(self)@ == old(
                    self,
                )@.skip(1),
                Err(e) => old(self)@.len() < 1 && e is Truncated && final(self)@ == old(self)@,
            },
    {
        match self.take(1) {
            Ok(b) => Ok(b[0]),
            Err(e) => Err(e),
        }
    }

    pub fn u16(&mut self) -> (r: Result<u16, Error>)
        ensures
            match r {
                Ok(v) => old(self)@.len() >= 2 && v == bytes::u16_at(old(self)@, 0) && final(self)@ == old(
                    self,
                )@.skip(2),
                Err(e) => old(self)@.len() < 2 && e is Truncated && final(self)@ == old(self)@,
            },
    {
        match self.take(2) {
            Ok(b) => Ok(read_u16(b, 0)),
            Err(e) => Err(e),
        }
    }

    pub fn u32(&mut self) -> (r: Result<u32, Error>)
        ensures
            match r {
                Ok(v) => old(self)@.len() >= 4 && v == bytes::u32_at(old(self)@, 0) && final(self)@ == old(
                    self,
                )@.skip(4),
                Err(e) => old(self)@.len() < 4 && e is Truncated && final(self)@ == old(self)@,
            },
    {
        match self.take(4) {
            Ok(b) => Ok(read_u32(b, 0)),
            Err(e) => Err(e),
        }
    }

    pub fn u64(&mut self) -> (r: Result<u64, Error>)
        ensures
            match r {
                Ok(v) => old(self)@.len() >= 8 && v == bytes::u64_at(old(self)@, 0) && final(self)@ == old(
                    self,
                )@.skip(8),
                Err(e) => old(self)@.len() < 8 && e is Truncated && final(self)@ == old(self)@,
            },
    {
        match self.take(8) {
            Ok(b) => Ok(read_u64(b, 0)),
            Err(e) => Err(e),
        }
    }

    pub fn i8(&mut self) -> (r: Result<i8, Error>)
        ensures
            match r {
                Ok(v) => old(self)@.len() >= 1 && v == bytes::to_signed(old(self)@[0] as int, 0x80)
                    && final(self)@ == old(self)@.skip(1),
                Err(e) => old(self)@.len() < 1 && e is Truncated && final(self)@ == old(self)@,
            },
    {
        match self.u8() {
            Ok(v) => Ok(u8_to_i8(v)),
            Err(e) => Err(e),
        }
    }

    pub fn i16(&mut self) -> (r: Result<i16, Error>)
        ensures
            match r {
                Ok(v) => old(self)@.len() >= 2 && v == bytes::to_signed(bytes::u16_at(old(self)@, 0), 0x8000)
                    && final(self)@ == old(self)@.skip(2),
                Err(e) => old(self)@.len() < 2 && e is Truncated && final(self)@ == old(self)@,
            },
    {
        match self.u16() {
            Ok(v) => Ok(u16_to_i16(v)),
            Err(e) => Err(e),
        }
    }

    pub fn i32(&mut self) -> (r: Result<i32, Error>)
        ensures
            match r {
                Ok(v) => old(self)@.len() >= 4 && v == bytes::to_signed(
                    bytes::u32_at(old(self)@, 0),
                    0x8000_0000,
                ) && final(self)@ == old(self)@.skip(4),
                Err(e) => old(self)@.len() < 4 && e is Truncated && final(self)@ == old(self)@,
            },
    {
        match self.u32() {
            Ok(v) => Ok(u32_to_i32(v)),
            Err(e) => Err(e),
        }
    }

    pub fn i64(&mut self) -> (r: Result<i64, Error>)
        ensures
            match r {
                Ok(v) => old(self)@.len() >= 8 && v == bytes::to_signed(
                    bytes::u64_at(old(self)@, 0),
                    0x8000_0000_0000_0000,
                ) && final(self)@ == old(self)@.skip(8),
                Err(e) => old(self)@.len() < 8 && e is Truncated && final(self)@ == old(self)@,
            },
    {
        match self.u64() {
            Ok(v) => Ok(u64_to_i64(v)),
            Err(e) => Err(e),
        }
    }

    pub fn bool(&mut self) -> (r: Result<bool, Error>)
        ensures
            match r {
                Ok(v) => old(self)@.len() >= 1 && v == (old(self)@[0] != 0) && final(self)@ == old(
                    self,
                )@.skip(1),
                Err(e) => old(self)@.len() < 1 && e is Truncated && final(self)@ == old(self)@,
            },
    {
        match self.u8() {
            Ok(v) => Ok(v != 0),
            Err(e) => Err(e),
        }
    }

    /// An `OcaBlob` or the body of an `OcaString`: a `u16` length and that many octets.
    pub fn bytes(&mut self) -> (r: Result<&'a [u8], Error>)
        ensures
            final(self)@ == after_counted_bytes(old(self)@),
            match r {
                Ok(b) => counted_bytes(old(self)@) == Some(b@),
                Err(e) => counted_bytes(old(self)@) is None && e is Truncated,
            },
    {
        let ghost start = self@;
        let len: usize = match self.u16() {
            Ok(n) => n as usize,
            Err(e) => return Err(e),
        };
        let r = self.take(len);
        proof {
            if 2 + len <= start.len() {
                assert(start.skip(2).take(len as int) =~= start.subrange(2, 2 + len));
                assert(start.skip(2).skip(len as int) =~= start.skip(2 + len));
            }
        }
        r
    }

    /// An `OcaString`. Devices are not always strict about UTF-8 in role names, so malformed
    /// octets are replaced rather than refused.
    pub fn string(&mut self) -> (r: Result<String, Error>)
        ensures
            final(self)@ == after_counted_bytes(old(self)@),
            match r {
                Ok(text) => counted_bytes(old(self)@) is Some && text@ == text::utf8_lossy(
                    counted_bytes(old(self)@)->0,
                ) && text::read_faithfully(counted_bytes(old(self)@)->0),
                Err(e) => counted_bytes(old(self)@) is None && e is Truncated,
            },
    {
        match self.bytes() {
            Ok(b) => Ok(from_utf8_lossy(b)),
            Err(e) => Err(e),
        }
    }

    /// An `OcaList`: a `u16` count and that many elements.
    pub fn list<T: Element>(&mut self) -> (r: Result<Vec<T>, Error>)
        ensures
            final(self)@ == parsed_list::<T>(old(self)@).1,
            match r {
                Ok(v) => parsed_list::<T>(old(self)@).0 == Ok::<Seq<T::V>, Error>(
                    v@.map_values(|x: T| x@),
                ),
                Err(e) => parsed_list::<T>(old(self)@).0 == Err::<Seq<T::V>, Error>(e),
            },
    {
        let ghost start = self@;
        let count: u16 = match self.u16() {
            Ok(n) => n,
            Err(e) => return Err(e),
        };
        let mut out: Vec<T> = Vec::new();
        let mut left: u16 = count;
        assert(out@.map_values(|x: T| x@) =~= seq![]);
        while left > 0
            invariant
                start == old(self)@,
                start.len() >= 2,
                parsed_list::<T>(start) == parsed_items::<T>(
                    left as nat,
                    self@,
                    out@.map_values(|x: T| x@),
                ),
            decreases left,
        {
            let ghost done = out@.map_values(|x: T| x@);
            match T::read(self) {
                Ok(v) => {
                    out.push(v);
                    assert(out@.map_values(|x: T| x@) =~= done.push(v@));
                },
                Err(e) => return Err(e),
            }
            left = left - 1;
        }
        Ok(out)
    }
}

/// Accumulator for outgoing parameters. Its view is what was written.
#[derive(Debug, Clone)]
pub struct Writer {
    buf: Vec<u8>,
}

impl View for Writer {
    type V = Seq<u8>;

    closed spec fn view(&self) -> Seq<u8> {
        self.buf@
    }
}

impl Default for Writer {
    fn default() -> (r: Self)
        ensures
            r@ == Seq::<u8>::empty(),
    {
        Writer { buf: Vec::new() }
    }
}

impl Writer {
    /// An empty accumulator.
    pub fn new() -> (r: Self)
        ensures
            r@ == Seq::<u8>::empty(),
    {
        Writer { buf: Vec::new() }
    }

    pub fn u8(&mut self, v: u8) -> (r: &mut Self)
        ensures
            r@ == old(self)@ + seq![v],
            *final(self) == *final(r),
    {
        self.buf.push(v);
        assert(self@ =~= old(self)@ + seq![v]);
        self
    }

    pub fn u16(&mut self, v: u16) -> (r: &mut Self)
        ensures
            r@ == old(self)@ + bytes::u16_bytes(v as int),
            *final(self) == *final(r),
    {
        push_u16(&mut self.buf, v);
        self
    }

    pub fn u32(&mut self, v: u32) -> (r: &mut Self)
        ensures
            r@ == old(self)@ + bytes::u32_bytes(v as int),
            *final(self) == *final(r),
    {
        push_u32(&mut self.buf, v);
        self
    }

    pub fn u64(&mut self, v: u64) -> (r: &mut Self)
        ensures
            r@ == old(self)@ + bytes::u64_bytes(v as int),
            *final(self) == *final(r),
    {
        push_u64(&mut self.buf, v);
        self
    }

    pub fn i8(&mut self, v: i8) -> (r: &mut Self)
        ensures
            r@ == old(self)@ + seq![bytes::to_unsigned(v as int, 0x80) as u8],
            *final(self) == *final(r),
    {
        self.u8(i8_to_u8(v))
    }

    pub fn i16(&mut self, v: i16) -> (r: &mut Self)
        ensures
            r@ == old(self)@ + bytes::u16_bytes(bytes::to_unsigned(v as int, 0x8000)),
            *final(self) == *final(r),
    {
        self.u16(i16_to_u16(v))
    }

    pub fn i32(&mut self, v: i32) -> (r: &mut Self)
        ensures
            r@ == old(self)@ + bytes::u32_bytes(bytes::to_unsigned(v as int, 0x8000_0000)),
            *final(self) == *final(r),
    {
        self.u32(i32_to_u32(v))
    }

    pub fn i64(&mut self, v: i64) -> (r: &mut Self)
        ensures
            r@ == old(self)@ + bytes::u64_bytes(bytes::to_unsigned(v as int, 0x8000_0000_0000_0000)),
            *final(self) == *final(r),
    {
        self.u64(i64_to_u64(v))
    }

    pub fn bool(&mut self, v: bool) -> (r: &mut Self)
        ensures
            r@ == old(self)@ + seq![if v { 1u8 } else { 0u8 }],
            *final(self) == *final(r),
    {
        if v {
            self.u8(1)
        } else {
            self.u8(0)
        }
    }

    /// The low sixteen bits of the length, then the octets.
    pub fn bytes(&mut self, v: &[u8]) -> (r: &mut Self)
        ensures
            r@ == old(self)@ + bytes::u16_bytes(v@.len() as int % 65536) + v@,
            *final(self) == *final(r),
    {
        push_u16(&mut self.buf, (v.len() as u64 % 65536) as u16);
        push_all(&mut self.buf, v);
        self
    }

    /// The UTF-8 encoding of `v`, counted like any other octets.
    pub fn string(&mut self, v: &str) -> (r: &mut Self)
        ensures
            r@ == old(self)@ + bytes::u16_bytes(vstd::utf8::encode_utf8(v@).len() as int % 65536)
                + vstd::utf8::encode_utf8(v@),
            *final(self) == *final(r),
    {
        self.bytes(v.as_bytes())
    }

    /// The octets as they are.
    pub fn raw(&mut self, v: &[u8]) -> (r: &mut Self)
        ensures
            r@ == old(self)@ + v@,
            *final(self) == *final(r),
    {
        push_all(&mut self.buf, v);
        self
    }

    /// What was written.
    pub fn finish(self) -> (r: Vec<u8>)
        ensures
            r@ == self@,
    {
        self.buf
    }
}

// ---------------------------------------------------------------------------
// Laws
// ---------------------------------------------------------------------------

/// Octets that were written with their count are read back, and reading stops right after them.
pub proof fn counted_bytes_read_back(data: Seq<u8>, more: Seq<u8>)
    requires
        data.len() < 65536,
    ensures
        counted_bytes(bytes::u16_bytes(data.len() as int % 65536) + data + more) == Some(data),
        after_counted_bytes(bytes::u16_bytes(data.len() as int % 65536) + data + more) == more,
{
    let s = bytes::u16_bytes(data.len() as int) + data + more;
    assert(s.subrange(0, 2) =~= bytes::u16_bytes(data.len() as int));
    bytes::u16_reads_back(s, 0, data.len() as int);
    assert(s.subrange(2, 2 + data.len() as int) =~= data);
    assert(s.skip(2 + data.len() as int) =~= more);
}

/// A text that was written is read back: its octets are well-formed and spell it.
pub proof fn a_string_reads_back(written: Seq<char>, more: Seq<u8>)
    requires
        vstd::utf8::encode_utf8(written).len() < 65536,
    ensures
        ({
            let octets = vstd::utf8::encode_utf8(written);
            let wire = bytes::u16_bytes(octets.len() as int % 65536) + octets + more;
            &&& counted_bytes(wire) == Some(octets)
            &&& vstd::utf8::valid_utf8(octets)
            &&& vstd::utf8::decode_utf8(octets) == written
            &&& after_counted_bytes(wire) == more
        }),
{
    let octets = vstd::utf8::encode_utf8(written);
    counted_bytes_read_back(octets, more);
    vstd::utf8::encode_utf8_valid_utf8(written);
    vstd::utf8::encode_utf8_decode_utf8(written);
}

/// The octets of a list of elements, each laid out by `enc`, without the count.
pub open spec fn laid_out<V>(items: Seq<V>, enc: spec_fn(V) -> Seq<u8>) -> Seq<u8>
    decreases items.len(),
{
    if items.len() == 0 {
        seq![]
    } else {
        enc(items[0]) + laid_out(items.skip(1), enc)
    }
}

proof fn lemma_items_read_back<T: Element>(
    items: Seq<T::V>,
    enc: spec_fn(T::V) -> Seq<u8>,
    rest: Seq<u8>,
    done: Seq<T::V>,
)
    requires
        forall|i: int, more: Seq<u8>|
            0 <= i < items.len() ==> #[trigger] T::parsed(enc(items[i]) + more) == (
                Ok::<T::V, Error>(items[i]),
                more,
            ),
    ensures
        parsed_items::<T>(items.len(), laid_out(items, enc) + rest, done) == (
            Ok::<Seq<T::V>, Error>(done + items),
            rest,
        ),
    decreases items.len(),
{
    if items.len() == 0 {
        assert(laid_out(items, enc) + rest =~= rest);
        assert(done + items =~= done);
    } else {
        let tail = items.skip(1);
        let more = laid_out(tail, enc) + rest;
        assert(laid_out(items, enc) + rest =~= enc(items[0]) + more);
        assert(T::parsed(enc(items[0]) + more) == (Ok::<T::V, Error>(items[0]), more));
        assert forall|i: int, after: Seq<u8>| 0 <= i < tail.len() implies #[trigger] T::parsed(
            enc(tail[i]) + after,
        ) == (Ok::<T::V, Error>(tail[i]), after) by {
            assert(tail[i] == items[i + 1]);
            assert(T::parsed(enc(items[i + 1]) + after) == (
                Ok::<T::V, Error>(items[i + 1]),
                after,
            ));
        }
        lemma_items_read_back::<T>(tail, enc, rest, done.push(items[0]));
        assert(done.push(items[0]) + tail =~= done + items);
    }
}

/// A list is read back from its count and its elements, in order, whatever follows, if each of its
/// elements is.
pub proof fn a_list_reads_back<T: Element>(
    items: Seq<T::V>,
    enc: spec_fn(T::V) -> Seq<u8>,
    rest: Seq<u8>,
)
    requires
        items.len() <= 0xffff,
        forall|i: int, more: Seq<u8>|
            0 <= i < items.len() ==> #[trigger] T::parsed(enc(items[i]) + more) == (
                Ok::<T::V, Error>(items[i]),
                more,
            ),
    ensures
        parsed_list::<T>(bytes::u16_bytes(items.len() as int) + laid_out(items, enc) + rest) == (
            Ok::<Seq<T::V>, Error>(items),
            rest,
        ),
{
    let count = bytes::u16_bytes(items.len() as int);
    let s = count + laid_out(items, enc) + rest;
    assert(s.subrange(0, 2) =~= count);
    bytes::u16_reads_back(s, 0, items.len() as int);
    assert(s.skip(2) =~= laid_out(items, enc) + rest);
    lemma_items_read_back::<T>(items, enc, rest, seq![]);
    assert(Seq::<T::V>::empty() + items =~= items);
}

/// A number of two octets is read back from them, whatever follows; so is one of four.
pub proof fn a_number_reads_back(n: u16, m: u32, rest: Seq<u8>)
    ensures
        <u16 as Element>::parsed(bytes::u16_bytes(n as int) + rest) == (Ok::<u16, Error>(n), rest),
        <u32 as Element>::parsed(bytes::u32_bytes(m as int) + rest) == (Ok::<u32, Error>(m), rest),
{
    let s = bytes::u16_bytes(n as int) + rest;
    assert(s.subrange(0, 2) =~= bytes::u16_bytes(n as int));
    bytes::u16_reads_back(s, 0, n as int);
    assert(s.skip(2) =~= rest);
    let t = bytes::u32_bytes(m as int) + rest;
    assert(t.subrange(0, 4) =~= bytes::u32_bytes(m as int));
    bytes::u32_reads_back(t, 0, m as int);
    assert(t.skip(4) =~= rest);
}

/// Lists of numbers of two octets, and of four, are read back.
pub proof fn lists_of_numbers_read_back(fields: Seq<u16>, onos: Seq<u32>, rest: Seq<u8>)
    requires
        fields.len() <= 0xffff,
        onos.len() <= 0xffff,
    ensures
        parsed_list::<u16>(
            bytes::u16_bytes(fields.len() as int) + laid_out(
                fields,
                |n: u16| bytes::u16_bytes(n as int),
            ) + rest,
        ) == (Ok::<Seq<u16>, Error>(fields), rest),
        parsed_list::<u32>(
            bytes::u16_bytes(onos.len() as int) + laid_out(
                onos,
                |n: u32| bytes::u32_bytes(n as int),
            ) + rest,
        ) == (Ok::<Seq<u32>, Error>(onos), rest),
{
    let e16 = |n: u16| bytes::u16_bytes(n as int);
    let e32 = |n: u32| bytes::u32_bytes(n as int);
    assert forall|i: int, more: Seq<u8>| 0 <= i < fields.len() implies #[trigger] <u16 as Element>::parsed(
        e16(fields[i]) + more,
    ) == (Ok::<u16, Error>(fields[i]), more) by {
        a_number_reads_back(fields[i], 0, more);
    }
    assert forall|i: int, more: Seq<u8>| 0 <= i < onos.len() implies #[trigger] <u32 as Element>::parsed(
        e32(onos[i]) + more,
    ) == (Ok::<u32, Error>(onos[i]), more) by {
        a_number_reads_back(0, onos[i], more);
    }
    a_list_reads_back::<u16>(fields, e16, rest);
    a_list_reads_back::<u32>(onos, e32, rest);
}

/// Counted octets are read for what was counted, whatever follows, and what follows is left. Where fewer
/// are there than the count says, nothing is read.
pub proof fn counted_octets_read_back(a: u8, b: u8, octets: Seq<u8>, rest: Seq<u8>)
    ensures
        0x100 * a + b == octets.len() ==> counted_bytes(seq![a, b] + octets + rest) == Some(octets)
            && after_counted_bytes(seq![a, b] + octets + rest) == rest,
        0x100 * a + b > octets.len() ==> counted_bytes(seq![a, b] + octets) is None
            && after_counted_bytes(seq![a, b] + octets) == octets,
        rest.len() < 2 ==> counted_bytes(rest) is None && after_counted_bytes(rest) == rest,
{
    let s = seq![a, b] + octets + rest;
    let t = seq![a, b] + octets;
    assert(s[0] == a && s[1] == b && t[0] == a && t[1] == b);
    bytes::numbers_are_big_endian(s, 0, 0);
    bytes::numbers_are_big_endian(t, 0, 0);
    assert(t.skip(2) =~= octets);
    if 0x100 * a + b == octets.len() {
        assert(s.subrange(2, 2 + octets.len() as int) =~= octets);
        assert(s.skip(2 + octets.len() as int) =~= rest);
    }
}

/// A number that is cut off is none, and nothing is taken off.
pub proof fn a_number_that_is_cut_off_is_none(s: Seq<u8>)
    ensures
        s.len() < 2 ==> u16::parsed(s) == (Err::<u16, Error>(Error::Truncated), s),
        s.len() < 4 ==> u32::parsed(s) == (Err::<u32, Error>(Error::Truncated), s),
{
}

} // verus!
