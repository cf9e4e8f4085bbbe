//! What a device adapter reports: its failures, and who it speaks to.
use vstd::prelude::*;

use crate::address::IpAddress;
use crate::text;
use crate::text::push_decimal;

verus! {

/// Why an adapter could not do what it was asked.
#[derive(Debug, Clone, PartialEq, Eq)]
pub enum AdapterError {
    Connection(String),
    UnsupportedChannel(u16),
    Protocol(String),
}

/// An [`AdapterError`], its texts as sequences.
pub enum AdapterErrorModel {
    Connection(Seq<char>),
    UnsupportedChannel(u16),
    Protocol(Seq<char>),
}

impl View for AdapterError {
    type V = AdapterErrorModel;

    open spec fn view(&self) -> AdapterErrorModel {
        match self {
            AdapterError::Connection(e) => AdapterErrorModel::Connection(e@),
            AdapterError::UnsupportedChannel(c) => AdapterErrorModel::UnsupportedChannel(*c),
            AdapterError::Protocol(e) => AdapterErrorModel::Protocol(e@),
        }
    }
}

impl AdapterErrorModel {
    /// The error as a sentence.
    pub open spec fn text(self) -> Seq<char> {
        match self {
            AdapterErrorModel::Connection(e) => "connection failed: "@ + e,
            AdapterErrorModel::UnsupportedChannel(c) => "unsupported channel: "@ + text::decimal(
                c as nat,
            ),
            AdapterErrorModel::Protocol(e) => "protocol error: "@ + e,
        }
    }
}

impl AdapterError {
    /// The error as a sentence.
    pub fn message(&self) -> (r: String)
        ensures
            r@ == self@.text(),
    {
        let mut out: String = String::new();
        match self {
            AdapterError::Connection(e) => {
                out.append("connection failed: ");
                out.append(e.as_str());
            },
            AdapterError::UnsupportedChannel(c) => {
                out.append("unsupported channel: ");
                push_decimal(&mut out, *c as u64);
            },
            AdapterError::Protocol(e) => {
                out.append("protocol error: ");
                out.append(e.as_str());
            },
        }
        assert(out@ =~= self@.text());
        out
    }

    /// A protocol error.
    pub fn protocol(why: &str) -> (r: Self)
        ensures
            r@ == AdapterErrorModel::Protocol(why@),
    {
        AdapterError::Protocol(why.to_owned())
    }

    /// The failure of an operation that needs a connection where there is none.
    pub fn not_connected() -> (r: Self)
        ensures
            r@ == AdapterErrorModel::Connection("not connected"@),
    {
        AdapterError::Connection("not connected".to_owned())
    }
}

/// Who an adapter speaks to.
#[derive(Debug, Clone, PartialEq, Eq)]
pub struct DeviceInfo {
    pub vendor: String,
    pub model: String,
    pub address: IpAddress,
}

/// A [`DeviceInfo`], its texts as sequences.
pub struct DeviceInfoModel {
    pub vendor: Seq<char>,
    pub model: Seq<char>,
    pub address: IpAddress,
}

impl View for DeviceInfo {
    type V = DeviceInfoModel;

    open spec fn view(&self) -> DeviceInfoModel {
        DeviceInfoModel { vendor: self.vendor@, model: self.model@, address: self.address }
    }
}

/// Each failure says what kind it is, and then what it carries.
pub proof fn each_failure_says_what_it_is(e: Seq<char>, channel: u16)
    ensures
        AdapterErrorModel::Connection(e).text() == "connection failed: "@ + e,
        AdapterErrorModel::Protocol(e).text() == "protocol error: "@ + e,
        AdapterErrorModel::UnsupportedChannel(channel).text() == "unsupported channel: "@
            + text::decimal(channel as nat),
{
}

} // verus!
