//! A Shure receiver that is mounted on a console, seen through what it sends to the console. Its
//! advertisements can be heard anywhere on the segment; its telemetry only where that traffic is
//! visible. Nothing is ever sent to it.
use vstd::prelude::*;

use crate::address::IpAddress;
use crate::bridge::adapter::{AdapterError, AdapterErrorModel, DeviceInfo, DeviceInfoModel};
use crate::bytes;
use crate::bytes::i8_to_u8;
use crate::mic;
use crate::mic::acn;
use crate::mic::acn::{
    properties_in_datagram, PropertyReport, ReportModel, PropertyValue, ValueModel, NO_RECENT_DATA,
    PROP_BATTERY_BARS, PROP_CHANNEL_NAME, PROP_DEVICE_NAME, PROP_FREQUENCY_KHZ, PROP_MODEL_NAME,
    PROP_RF_BARS, PROP_RF_LEVEL_DBM, RF_FLOOR_DBM,
};
use crate::mic::slp;
use crate::mic::slp::{parse_attr_reply, Advertisement, AdvertisementModel};
use crate::mic::{MicAddress, MicAddressModel, MicEvent, MicEventModel, MicState, Reading};
use crate::text;

verus! {

/// A receiver of this kind has one channel.
pub const ONLY_CHANNEL: u16 = 1;

/// All that was observed of the receiver so far.
#[derive(Debug, Clone)]
pub struct Observed {
    pub advertisement: Option<Advertisement>,
    pub device_name: Option<String>,
    pub channel_name: Option<String>,
    pub frequency_khz: Option<u32>,
    pub rf_level_dbm: Option<i32>,
    pub rf_bars: Option<u8>,
    pub battery_bars: Option<u8>,
    /// Whether a carrier was just acquired. The battery reading that follows is a transient.
    pub battery_reading_suspect: bool,
}

/// An [`Observed`], its texts as sequences.
#[verifier::ext_equal]
pub struct ObservedModel {
    pub advertisement: Option<AdvertisementModel>,
    pub device_name: Option<Seq<char>>,
    pub channel_name: Option<Seq<char>>,
    pub frequency_khz: Option<u32>,
    pub rf_level_dbm: Option<i32>,
    pub rf_bars: Option<u8>,
    pub battery_bars: Option<u8>,
    pub battery_reading_suspect: bool,
}

impl View for Observed {
    type V = ObservedModel;

    open spec fn view(&self) -> ObservedModel {
        ObservedModel {
            advertisement: match self.advertisement {
                Some(a) => Some(a@),
                None => None,
            },
            device_name: text::opt_text(self.device_name),
            channel_name: text::opt_text(self.channel_name),
            frequency_khz: self.frequency_khz,
            rf_level_dbm: self.rf_level_dbm,
            rf_bars: self.rf_bars,
            battery_bars: self.battery_bars,
            battery_reading_suspect: self.battery_reading_suspect,
        }
    }
}

/// A receiver of which nothing was observed yet.
pub open spec fn nothing_observed() -> ObservedModel {
    ObservedModel {
        advertisement: None,
        device_name: None,
        channel_name: None,
        frequency_khz: None,
        rf_level_dbm: None,
        rf_bars: None,
        battery_bars: None,
        battery_reading_suspect: false,
    }
}

impl Default for Observed {
    fn default() -> (r: Self)
        ensures
            r@ == nothing_observed(),
    {
        Observed {
            advertisement: None,
            device_name: None,
            channel_name: None,
            frequency_khz: None,
            rf_level_dbm: None,
            rf_bars: None,
            battery_bars: None,
            battery_reading_suspect: false,
        }
    }
}

impl ObservedModel {
    /// What is known after a report, and whether it is telemetry worth publishing. Acquiring a
    /// carrier makes the receiver emit one battery reading that does not match its own display;
    /// that one is discarded.
    pub open spec fn after(self, report: ReportModel) -> (ObservedModel, bool) {
        match report.value {
            ValueModel::Text(t) => if report.address == PROP_MODEL_NAME {
                let ad = match self.advertisement {
                    Some(ad) => ad,
                    None => slp::silent(),
                };
                (
                    ObservedModel {
                        advertisement: Some(AdvertisementModel { model: Some(t), ..ad }),
                        ..self
                    },
                    false,
                )
            } else if report.address == PROP_DEVICE_NAME {
                (ObservedModel { device_name: Some(t), ..self }, false)
            } else if report.address == PROP_CHANNEL_NAME {
                (ObservedModel { channel_name: Some(t), ..self }, false)
            } else {
                (self, false)
            },
            ValueModel::UInt32(khz) => if report.address == PROP_FREQUENCY_KHZ {
                (ObservedModel { frequency_khz: Some(khz), ..self }, true)
            } else {
                (self, false)
            },
            ValueModel::Int32(dbm) => if report.address == PROP_RF_LEVEL_DBM {
                (ObservedModel { rf_level_dbm: Some(dbm), ..self }, true)
            } else {
                (self, false)
            },
            ValueModel::UInt8(bars) => if report.address == PROP_RF_BARS {
                (
                    ObservedModel {
                        rf_bars: Some(bars),
                        battery_reading_suspect: self.battery_reading_suspect || (
                        !self.has_carrier() && bars > 0),
                        ..self
                    },
                    true,
                )
            } else {
                (self, false)
            },
            ValueModel::Int8(bars) => if report.address == PROP_BATTERY_BARS {
                if self.battery_reading_suspect {
                    (ObservedModel { battery_reading_suspect: false, ..self }, false)
                } else if bars == NO_RECENT_DATA {
                    (ObservedModel { battery_bars: None, ..self }, true)
                } else {
                    (
                        ObservedModel {
                            battery_bars: Some(bytes::to_unsigned(bars as int, 0x80) as u8),
                            ..self
                        },
                        true,
                    )
                }
            } else {
                (self, false)
            },
            _ => (self, false),
        }
    }

    /// Whether there was a carrier when last heard of.
    pub open spec fn has_carrier(self) -> bool {
        match self.rf_bars {
            Some(b) => b > 0,
            None => false,
        }
    }

    /// What is known after several reports, and whether any of them is worth publishing.
    pub open spec fn after_all(self, reports: Seq<ReportModel>) -> (ObservedModel, bool)
        decreases reports.len(),
    {
        if reports.len() == 0 {
            (self, false)
        } else {
            let (before, changed) = self.after_all(reports.drop_last());
            let (now, more) = before.after(reports.last());
            (now, changed || more)
        }
    }

    /// What the observations say of the channel. Without a carrier the level is a flat floor, which
    /// is no reading. Bars are never made into percentages, and nothing that was observed is a
    /// mute or an audio level.
    pub open spec fn state(self) -> MicState {
        MicState {
            battery_bars: self.battery_bars,
            rf_level_dbm: match self.rf_level_dbm {
                Some(dbm) => if self.rf_bars == Some(0u8) && dbm <= RF_FLOOR_DBM {
                    None
                } else {
                    Some(Reading::Signed(dbm as i64))
                },
                None => None,
            },
            frequency_khz: match self.frequency_khz {
                Some(khz) => Some(Reading::Unsigned(khz as u64)),
                None => None,
            },
            ..mic::unknown_state()
        }
    }
}

impl Observed {
    /// Takes in a report. Says whether it is telemetry worth publishing.
    pub fn apply(&mut self, report: &PropertyReport) -> (r: bool)
        ensures
            (final(self)@, r) == old(self)@.after(report@),
    {
        let ghost before = self@;
        let changed: bool = match &report.value {
            PropertyValue::Text(t) => {
                if report.address == PROP_MODEL_NAME {
                    let mut ad = match &self.advertisement {
                        Some(ad) => ad.duplicate(),
                        None => Advertisement::default(),
                    };
                    ad.model = Some(t.clone());
                    self.advertisement = Some(ad);
                } else if report.address == PROP_DEVICE_NAME {
                    self.device_name = Some(t.clone());
                } else if report.address == PROP_CHANNEL_NAME {
                    self.channel_name = Some(t.clone());
                }
                false
            },
            PropertyValue::UInt32(khz) => {
                if report.address == PROP_FREQUENCY_KHZ {
                    self.frequency_khz = Some(*khz);
                    true
                } else {
                    false
                }
            },
            PropertyValue::Int32(dbm) => {
                if report.address == PROP_RF_LEVEL_DBM {
                    self.rf_level_dbm = Some(*dbm);
                    true
                } else {
                    false
                }
            },
            PropertyValue::UInt8(bars) => {
                if report.address == PROP_RF_BARS {
                    let had_carrier: bool = match self.rf_bars {
                        Some(b) => b > 0,
                        None => false,
                    };
                    if !had_carrier && *bars > 0 {
                        self.battery_reading_suspect = true;
                    }
                    self.rf_bars = Some(*bars);
                    true
                } else {
                    false
                }
            },
            PropertyValue::Int8(bars) => {
                if report.address != PROP_BATTERY_BARS {
                    false
                } else if self.battery_reading_suspect {
                    self.battery_reading_suspect = false;
                    false
                } else {
                    self.battery_bars = if *bars == NO_RECENT_DATA {
                        None
                    } else {
                        Some(i8_to_u8(*bars))
                    };
                    true
                }
            },
            PropertyValue::Int16(_) => false,
        };
        assert(self@ =~= before.after(report@).0);
        changed
    }

    /// Takes in the reports of a datagram, all of them. Says whether any is worth publishing.
    pub fn apply_all(&mut self, reports: &[PropertyReport]) -> (r: bool)
        ensures
            (final(self)@, r) == old(self)@.after_all(acn::report_models(reports@)),
    {
        let ghost all = acn::report_models(reports@);
        let mut changed: bool = false;
        let mut i: usize = 0;
        assert(all.take(0) =~= seq![]);
        while i < reports.len()
            invariant
                i <= reports.len(),
                all == acn::report_models(reports@),
                (self@, changed) == old(self)@.after_all(all.take(i as int)),
            decreases reports.len() - i,
        {
            assert(all.take(i + 1).drop_last() =~= all.take(i as int));
            assert(all.take(i + 1).last() == reports@[i as int]@);
            let more: bool = self.apply(&reports[i]);
            changed = changed || more;
            i = i + 1;
        }
        assert(all.take(i as int) =~= all);
        changed
    }

    /// What the observations say of the channel.
    pub fn to_mic_state(&self) -> (r: MicState)
        ensures
            r == self@.state(),
    {
        let mut state = mic::empty_state();
        state.battery_bars = self.battery_bars;
        state.rf_level_dbm =
        match self.rf_level_dbm {
            Some(dbm) => {
                let silent: bool = match self.rf_bars {
                    Some(b) => b == 0,
                    None => false,
                };
                if silent && dbm <= RF_FLOOR_DBM {
                    None
                } else {
                    Some(Reading::Signed(dbm as i64))
                }
            },
            None => None,
        };
        state.frequency_khz =
        match self.frequency_khz {
            Some(khz) => Some(Reading::Unsigned(khz as u64)),
            None => None,
        };
        state
    }
}

/// The receiver's adapter.
#[derive(Debug, Clone)]
pub struct ShureAcnAdapter {
    id: String,
    interface: IpAddress,
    receiver: Option<IpAddress>,
    observed: Observed,
    connected: bool,
}

/// A [`ShureAcnAdapter`], its texts as sequences.
#[verifier::ext_equal]
pub struct AdapterModel {
    pub id: Seq<char>,
    /// The address of the interface that is listened on.
    pub interface: IpAddress,
    /// The receiver's own address, once known.
    pub receiver: Option<IpAddress>,
    pub observed: ObservedModel,
    pub connected: bool,
}

impl View for ShureAcnAdapter {
    type V = AdapterModel;

    closed spec fn view(&self) -> AdapterModel {
        AdapterModel {
            id: self.id@,
            interface: self.interface,
            receiver: self.receiver,
            observed: self.observed@,
            connected: self.connected,
        }
    }
}

/// Why the receiver cannot be identified before it was heard.
pub open spec fn unheard() -> Seq<char> {
    "no SLP advertisement heard yet; receivers advertise every ~2 s, so either none is present or this host is not on their segment"@
}

/// Why the receiver cannot be muted.
pub open spec fn no_mute() -> Seq<char> {
    "ACN exposes no identified mute property on QLX-D; use the Command Strings adapter (mic-adapter-shure) for mute control"@
}

impl ShureAcnAdapter {
    pub fn new(id: &str, interface: IpAddress) -> (r: Self)
        ensures
            r@ == (AdapterModel {
                id: id@,
                interface,
                receiver: None,
                observed: nothing_observed(),
                connected: false,
            }),
    {
        ShureAcnAdapter {
            id: id.to_owned(),
            interface,
            receiver: None,
            observed: Observed::default(),
            connected: false,
        }
    }

    pub fn id(&self) -> (r: &str)
        ensures
            r@ == self@.id,
    {
        self.id.as_str()
    }

    /// Notes that the sockets are bound.
    pub fn set_connected(&mut self)
        ensures
            final(self)@ == (AdapterModel { connected: true, ..old(self)@ }),
    {
        self.connected = true;
    }

    /// What the receiver says it is.
    pub fn identify(&self) -> (r: Result<DeviceInfo, AdapterError>)
        ensures
            match r {
                Ok(info) => self@.connected && self@.observed.advertisement is Some
                    && self@.observed.advertisement->Some_0.model is Some && info@ == (
                DeviceInfoModel {
                    vendor: "Shure"@,
                    model: self@.observed.advertisement->Some_0.model->Some_0,
                    address: match self@.receiver {
                        Some(address) => address,
                        None => self@.interface,
                    },
                }),
                Err(e) => if !self@.connected {
                    e@ == AdapterErrorModel::Connection("not connected"@)
                } else {
                    (self@.observed.advertisement is None
                        || self@.observed.advertisement->Some_0.model is None) && e@
                        == AdapterErrorModel::Protocol(unheard())
                },
            },
    {
        if !self.connected {
            return Err(AdapterError::not_connected());
        }
        if let Some(ad) = &self.observed.advertisement {
            if let Some(model) = &ad.model {
                let address = match self.receiver {
                    Some(address) => address,
                    None => self.interface,
                };
                return Ok(
                    DeviceInfo { vendor: "Shure".to_owned(), model: model.clone(), address },
                );
            }
        }
        Err(
            AdapterError::protocol(
                "no SLP advertisement heard yet; receivers advertise every ~2 s, so either none is present or this host is not on their segment",
            ),
        )
    }

    /// What is known of a channel. There is only one.
    pub fn get_state(&self, channel: u16) -> (r: Result<MicState, AdapterError>)
        ensures
            match r {
                Ok(state) => channel == ONLY_CHANNEL && state == self@.observed.state(),
                Err(e) => channel != ONLY_CHANNEL && e@ == AdapterErrorModel::UnsupportedChannel(
                    channel,
                ),
            },
    {
        if channel != ONLY_CHANNEL {
            return Err(AdapterError::UnsupportedChannel(channel));
        }
        Ok(self.observed.to_mic_state())
    }

    /// Refuses. No property is known to mute, and writing to a guessed one could change something
    /// else on a live receiver.
    pub fn set_mute(&self, channel: u16, muted: bool) -> (r: Result<(), AdapterError>)
        ensures
            r is Err,
            r->Err_0@ == AdapterErrorModel::Protocol(no_mute()),
    {
        Err(
            AdapterError::protocol(
                "ACN exposes no identified mute property on QLX-D; use the Command Strings adapter (mic-adapter-shure) for mute control",
            ),
        )
    }

    /// Takes in a datagram of the discovery group. Only a receiver's advertisement counts.
    pub fn hear_discovery(&mut self, datagram: &[u8])
        ensures
            final(self)@ == (match slp::attribute_octets(datagram@) {
                Some(octets) => {
                    let ad = slp::advertised(text::utf8_lossy(octets));
                    if ad.is_receiver() {
                        AdapterModel {
                            observed: ObservedModel {
                                advertisement: Some(ad),
                                ..old(self)@.observed
                            },
                            ..old(self)@
                        }
                    } else {
                        old(self)@
                    }
                },
                None => old(self)@,
            }),
    {
        if let Some(ad) = parse_attr_reply(datagram) {
            if ad.is_receiver() {
                self.observed.advertisement = Some(ad);
            }
        }
    }

    /// Takes in a datagram of the session port. Gives the event to publish, where anything in it
    /// is worth one.
    pub fn hear_telemetry(&mut self, datagram: &[u8]) -> (r: Option<MicEvent>)
        ensures
            ({
                let (observed, changed) = old(self)@.observed.after_all(
                    acn::datagram_reports(datagram@),
                );
                &&& final(self)@ == (AdapterModel { observed, ..old(self)@ })
                &&& match r {
                    Some(event) => changed && event@ == (MicEventModel {
                        address: MicAddressModel {
                            device_id: old(self)@.id,
                            channel: ONLY_CHANNEL,
                        },
                        state: observed.state(),
                    }),
                    None => !changed,
                }
            }),
    {
        let reports = properties_in_datagram(datagram);
        if !self.observed.apply_all(reports.as_slice()) {
            return None;
        }
        Some(
            MicEvent {
                address: MicAddress::new(self.id.as_str(), ONLY_CHANNEL),
                state: self.observed.to_mic_state(),
            },
        )
    }
}

/// The battery reading that follows the acquisition of a carrier changes nothing that is shown.
pub proof fn the_reading_after_acquisition_is_discarded(
    o: ObservedModel,
    rf_bars: u8,
    battery_bars: i8,
)
    requires
        !o.has_carrier(),
        rf_bars > 0,
    ensures
        ({
            let acquired = o.after(
                ReportModel { address: PROP_RF_BARS, value: ValueModel::UInt8(rf_bars) },
            ).0;
            let (heard, changed) = acquired.after(
                ReportModel { address: PROP_BATTERY_BARS, value: ValueModel::Int8(battery_bars) },
            );
            !changed && heard.state() == acquired.state() && heard.battery_bars == o.battery_bars
                && !heard.battery_reading_suspect
        }),
{
}

/// Whatever is reported, no battery percentage, no run time, no audio level and no mute comes of
/// it.
pub proof fn nothing_is_invented(o: ObservedModel, report: ReportModel)
    ensures
        ({
            let s = o.after(report).0.state();
            s.battery_percent is None && s.battery_minutes_remaining is None
                && s.rf_quality_percent is None && s.audio_level is None
                && s.audio_level_dbfs is None && !s.muted && s.antenna is None
        }),
{
}

/// A report of a property that is not understood, and of one whose meaning is unresolved, changes
/// nothing.
pub proof fn an_unresolved_report_changes_nothing(o: ObservedModel, report: ReportModel)
    requires
        report.address == acn::PROP_UNRESOLVED_LEVEL || report.address
            == acn::PROP_UNRESOLVED_INDICATOR || acn::kind_of(report.address as int) is None,
    ensures
        o.after(report) == (o, false),
{
}

/// A report makes its value known: the names and the model without being worth publishing, the
/// frequency, the level and the signal bars as telemetry.
pub proof fn a_report_is_then_observed(
    o: ObservedModel,
    name: Seq<char>,
    khz: u32,
    dbm: i32,
    bars: u8,
)
    ensures
        ({
            let (now, worth) = o.after(
                ReportModel { address: 0x0100_0000, value: ValueModel::Text(name) },
            );
            &&& !worth
            &&& now.advertisement is Some && now.advertisement->Some_0.model == Some(name)
            &&& o.advertisement is Some ==> now.advertisement->Some_0 == (AdvertisementModel {
                model: Some(name),
                ..o.advertisement->Some_0
            })
            &&& now == (ObservedModel { advertisement: now.advertisement, ..o })
        }),
        o.after(ReportModel { address: 0x0100_0012, value: ValueModel::Text(name) }) == (
            ObservedModel { device_name: Some(name), ..o },
            false,
        ),
        o.after(ReportModel { address: 0x0200_0001, value: ValueModel::Text(name) }) == (
            ObservedModel { channel_name: Some(name), ..o },
            false,
        ),
        o.after(ReportModel { address: 0x0200_0804, value: ValueModel::UInt32(khz) }) == (
            ObservedModel { frequency_khz: Some(khz), ..o },
            true,
        ),
        o.after(ReportModel { address: 0x0200_0114, value: ValueModel::Int32(dbm) }) == (
            ObservedModel { rf_level_dbm: Some(dbm), ..o },
            true,
        ),
        ({
            let (now, worth) = o.after(
                ReportModel { address: 0x0200_0101, value: ValueModel::UInt8(bars) },
            );
            &&& worth
            &&& now == (ObservedModel {
                rf_bars: Some(bars),
                battery_reading_suspect: now.battery_reading_suspect,
                ..o
            })
            &&& now.battery_reading_suspect == (o.battery_reading_suspect || bars > 0 && (o.rf_bars
                is None || o.rf_bars == Some(0u8)))
        }),
{
}

/// A battery reading is taken as it is, but for -1, which stands for none; the one that follows the
/// acquisition of a carrier is taken for nothing, and the next one counts again.
pub proof fn a_battery_reading_is_then_observed(o: ObservedModel, bars: i8, next: i8)
    requires
        0 <= next,
    ensures
        ({
            let report = ReportModel { address: 0x0200_1100, value: ValueModel::Int8(bars) };
            &&& !o.battery_reading_suspect && bars >= 0 ==> o.after(report) == (
                ObservedModel { battery_bars: Some(bars as u8), ..o },
                true,
            )
            &&& !o.battery_reading_suspect && bars == -1 ==> o.after(report) == (
                ObservedModel { battery_bars: None, ..o },
                true,
            )
            &&& o.battery_reading_suspect ==> o.after(report) == (
                ObservedModel { battery_reading_suspect: false, ..o },
                false,
            )
            &&& o.battery_reading_suspect ==> o.after(report).0.after(
                ReportModel { address: 0x0200_1100, value: ValueModel::Int8(next) },
            ).0.battery_bars == Some(next as u8)
        }),
{
}

/// What is shown of the observations: the battery bars, the frequency and the level as they are, but no
/// level at the floor of -50 dBm and below without a carrier.
pub proof fn what_is_shown_of_the_observations(o: ObservedModel, khz: u32, dbm: i32)
    ensures
        o.state().battery_bars == o.battery_bars,
        o.frequency_khz == Some(khz) ==> o.state().frequency_khz == Some(
            Reading::Unsigned(khz as u64),
        ),
        o.frequency_khz is None ==> o.state().frequency_khz is None,
        o.rf_level_dbm == Some(dbm) && (dbm > -50 || o.rf_bars != Some(0u8))
            ==> o.state().rf_level_dbm == Some(Reading::Signed(dbm as i64)),
        o.rf_level_dbm == Some(dbm) && dbm <= -50 && o.rf_bars == Some(0u8)
            ==> o.state().rf_level_dbm is None,
        o.rf_level_dbm is None ==> o.state().rf_level_dbm is None,
{
}

/// Reports take effect in order, all of them, and any one that is worth publishing makes them so.
pub proof fn reports_take_effect_in_order(
    o: ObservedModel,
    first: Seq<ReportModel>,
    second: Seq<ReportModel>,
    r: ReportModel,
)
    ensures
        o.after_all(first + second).0 == o.after_all(first).0.after_all(second).0,
        o.after_all(first + second).1 == (o.after_all(first).1 || o.after_all(first).0.after_all(
            second,
        ).1),
        o.after_all(seq![r]) == o.after(r),
        o.after_all(seq![]) == (o, false),
    decreases second.len(),
{
    assert(seq![r].drop_last() =~= Seq::<ReportModel>::empty());
    assert(o.after_all(seq![r].drop_last()) == (o, false));
    if second.len() == 0 {
        assert(first + second =~= first);
    } else {
        assert((first + second).drop_last() =~= first + second.drop_last());
        reports_take_effect_in_order(o, first, second.drop_last(), r);
    }
}

/// A battery reading below -1 is taken by its octet.
pub proof fn a_negative_battery_reading_is_its_octet(o: ObservedModel, bars: i8)
    requires
        bars < -1,
        !o.battery_reading_suspect,
    ensures
        o.after(ReportModel { address: 0x0200_1100, value: ValueModel::Int8(bars) }) == (
            ObservedModel { battery_bars: Some((256 + bars) as u8), ..o },
            true,
        ),
{
}

} // verus!
