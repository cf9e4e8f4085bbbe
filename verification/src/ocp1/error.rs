//! What can go wrong between a controller and a device.
use vstd::prelude::*;

use crate::text;
use crate::text::{push_decimal, push_hex};

verus! {

/// A failed exchange.
#[derive(Debug, Clone, PartialEq, Eq)]
pub enum Error {
    /// The transport failed, with its own description.
    Io(String),
    Disconnected,
    Timeout,
    Truncated,
    BadSync(u8),
    BadVersion(u16),
    BadLength(usize),
    UnknownPduType(u8),
    /// The device refused, with an AES70 status.
    Status { code: u8, name: &'static str },
}

impl Error {
    /// The error as a sentence.
    pub open spec fn text(self) -> Seq<char> {
        match self {
            Error::Io(e) => "io: "@ + e@,
            Error::Disconnected => "connection closed"@,
            Error::Timeout => "timed out waiting for a response"@,
            Error::Truncated => "truncated message"@,
            Error::BadSync(b) => "bad sync byte 0x"@ + text::hex(b as nat, 2),
            Error::BadVersion(v) => "unsupported protocol version "@ + text::decimal(v as nat),
            Error::BadLength(n) => "implausible pdu length "@ + text::decimal(n as nat),
            Error::UnknownPduType(t) => "unknown pdu type "@ + text::decimal(t as nat),
            Error::Status { code, name } => "device returned "@ + name@ + " ("@ + text::decimal(
                code as nat,
            ) + ")"@,
        }
    }

    /// The error as a sentence.
    pub fn message(&self) -> (r: String)
        ensures
            r@ == self.text(),
    {
        let mut out: String = String::new();
        match self {
            Error::Io(e) => {
                out.append("io: ");
                out.append(e.as_str());
            },
            Error::Disconnected => out.append("connection closed"),
            Error::Timeout => out.append("timed out waiting for a response"),
            Error::Truncated => out.append("truncated message"),
            Error::BadSync(b) => {
                out.append("bad sync byte 0x");
                push_hex(&mut out, *b as u32, 2);
            },
            Error::BadVersion(v) => {
                out.append("unsupported protocol version ");
                push_decimal(&mut out, *v as u64);
            },
            Error::BadLength(n) => {
                out.append("implausible pdu length ");
                push_decimal(&mut out, *n as u64);
            },
            Error::UnknownPduType(t) => {
                out.append("unknown pdu type ");
                push_decimal(&mut out, *t as u64);
            },
            Error::Status { code, name } => {
                out.append("device returned ");
                out.append(name);
                out.append(" (");
                push_decimal(&mut out, *code as u64);
                out.append(")");
            },
        }
        assert(out@ =~= self.text());
        out
    }
}

/// Each error says what went wrong, with the value that it carries in decimal, but for an octet, which
/// stands as two hexadecimal digits at the end.
pub proof fn each_error_says_what_went_wrong(
    s: String,
    b: u8,
    v: u16,
    n: usize,
    name: &'static str,
)
    ensures
        Error::Io(s).text() == "io: "@ + s@,
        Error::Disconnected.text() == "connection closed"@,
        Error::Timeout.text() == "timed out waiting for a response"@,
        Error::Truncated.text() == "truncated message"@,
        Error::BadVersion(v).text() == "unsupported protocol version "@ + text::decimal(v as nat),
        Error::BadLength(n).text() == "implausible pdu length "@ + text::decimal(n as nat),
        Error::UnknownPduType(b).text() == "unknown pdu type "@ + text::decimal(b as nat),
        (Error::Status { code: b, name }).text() == "device returned "@ + name@ + " ("@
            + text::decimal(b as nat) + ")"@,
        ({
            let said = Error::BadSync(b).text();
            let front = "bad sync byte 0x"@;
            &&& said.len() == front.len() + 2
            &&& said.take(front.len() as int) == front
            &&& text::hex_value(said.skip(front.len() as int)) == b
        }),
{
    let front = "bad sync byte 0x"@;
    let said = Error::BadSync(b).text();
    text::hex_spells_the_number(b as nat, 2);
    assert(said.take(front.len() as int) =~= front);
    assert(said.skip(front.len() as int) =~= text::hex(b as nat, 2));
}

} // verus!
