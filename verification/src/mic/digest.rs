//! What a capture tells of a receiver: its values as they change, and the last of each.
use vstd::prelude::*;

use crate::mic::acn;
use crate::mic::acn::{PropertyReport, PropertyValue, ReportModel, ValueModel};
use crate::mic::slp::{Advertisement, AdvertisementModel};
use crate::text;
use crate::text::{among, text_eq};

verus! {

/// The last value of everything that was reported.
#[derive(Debug, Clone)]
pub struct Digest {
    pub model: Option<String>,
    pub device_name: Option<String>,
    pub channel_name: Option<String>,
    pub frequency_khz: Option<u32>,
    pub rf_bars: Option<u8>,
    pub rf_level_dbm: Option<i32>,
    /// As reported: it may be [`acn::NO_RECENT_DATA`].
    pub battery_bars: Option<i8>,
    /// How many reports there were that are decoded and left uninterpreted.
    pub unresolved: u64,
    /// Whether a receiver reported its signal or its battery at all.
    pub telemetry: bool,
    /// The models that were advertised, with a name, in the order of their first appearance.
    pub advertised: Vec<String>,
}

/// A [`Digest`], its texts as sequences.
#[verifier::ext_equal]
pub struct DigestModel {
    pub model: Option<Seq<char>>,
    pub device_name: Option<Seq<char>>,
    pub channel_name: Option<Seq<char>>,
    pub frequency_khz: Option<u32>,
    pub rf_bars: Option<u8>,
    pub rf_level_dbm: Option<i32>,
    pub battery_bars: Option<i8>,
    pub unresolved: int,
    pub telemetry: bool,
    pub advertised: Seq<Seq<char>>,
}

impl View for Digest {
    type V = DigestModel;

    open spec fn view(&self) -> DigestModel {
        DigestModel {
            model: text::opt_text(self.model),
            device_name: text::opt_text(self.device_name),
            channel_name: text::opt_text(self.channel_name),
            frequency_khz: self.frequency_khz,
            rf_bars: self.rf_bars,
            rf_level_dbm: self.rf_level_dbm,
            battery_bars: self.battery_bars,
            unresolved: self.unresolved as int,
            telemetry: self.telemetry,
            advertised: text::texts(self.advertised@),
        }
    }
}

/// A value that is not what it was.
#[derive(Debug, Clone, PartialEq, Eq)]
pub enum Change {
    DeviceName(String),
    ChannelName(String),
    FrequencyKhz(u32),
    RfBars(u8),
    RfLevelDbm(i32),
    /// As reported: it may be [`acn::NO_RECENT_DATA`].
    BatteryBars(i8),
}

/// A [`Change`], its text as a sequence.
pub enum ChangeModel {
    DeviceName(Seq<char>),
    ChannelName(Seq<char>),
    FrequencyKhz(u32),
    RfBars(u8),
    RfLevelDbm(i32),
    BatteryBars(i8),
}

impl View for Change {
    type V = ChangeModel;

    open spec fn view(&self) -> ChangeModel {
        match self {
            Change::DeviceName(t) => ChangeModel::DeviceName(t@),
            Change::ChannelName(t) => ChangeModel::ChannelName(t@),
            Change::FrequencyKhz(n) => ChangeModel::FrequencyKhz(*n),
            Change::RfBars(n) => ChangeModel::RfBars(*n),
            Change::RfLevelDbm(n) => ChangeModel::RfLevelDbm(*n),
            Change::BatteryBars(n) => ChangeModel::BatteryBars(*n),
        }
    }
}

/// `change`, where the value it is of is not `before` already.
pub open spec fn where_new<T>(before: Option<T>, now: T, change: ChangeModel) -> Option<
    ChangeModel,
> {
    if before == Some(now) {
        None
    } else {
        Some(change)
    }
}

impl DigestModel {
    /// A report's change, if it is one, and the digest with the report. The model is not announced.
    pub open spec fn with(self, report: ReportModel) -> (Option<ChangeModel>, DigestModel) {
        match report.value {
            ValueModel::Text(t) => if report.address == acn::PROP_MODEL_NAME {
                (None, DigestModel { model: Some(t), ..self })
            } else if report.address == acn::PROP_DEVICE_NAME {
                (
                    where_new(self.device_name, t, ChangeModel::DeviceName(t)),
                    DigestModel { device_name: Some(t), ..self },
                )
            } else if report.address == acn::PROP_CHANNEL_NAME {
                (
                    where_new(self.channel_name, t, ChangeModel::ChannelName(t)),
                    DigestModel { channel_name: Some(t), ..self },
                )
            } else {
                self.with_other(report.address)
            },
            ValueModel::UInt32(khz) => if report.address == acn::PROP_FREQUENCY_KHZ {
                (
                    where_new(self.frequency_khz, khz, ChangeModel::FrequencyKhz(khz)),
                    DigestModel { frequency_khz: Some(khz), ..self },
                )
            } else {
                self.with_other(report.address)
            },
            ValueModel::UInt8(bars) => if report.address == acn::PROP_RF_BARS {
                (
                    where_new(self.rf_bars, bars, ChangeModel::RfBars(bars)),
                    DigestModel { rf_bars: Some(bars), telemetry: true, ..self },
                )
            } else {
                self.with_other(report.address)
            },
            ValueModel::Int32(dbm) => if report.address == acn::PROP_RF_LEVEL_DBM {
                (
                    where_new(self.rf_level_dbm, dbm, ChangeModel::RfLevelDbm(dbm)),
                    DigestModel { rf_level_dbm: Some(dbm), ..self },
                )
            } else {
                self.with_other(report.address)
            },
            ValueModel::Int8(bars) => if report.address == acn::PROP_BATTERY_BARS {
                (
                    where_new(self.battery_bars, bars, ChangeModel::BatteryBars(bars)),
                    DigestModel { battery_bars: Some(bars), telemetry: true, ..self },
                )
            } else {
                self.with_other(report.address)
            },
            ValueModel::Int16(_) => self.with_other(report.address),
        }
    }

    /// The digest with a report that no value is taken from.
    pub open spec fn with_other(self, address: u32) -> (Option<ChangeModel>, DigestModel) {
        if address == acn::PROP_UNRESOLVED_LEVEL || address == acn::PROP_UNRESOLVED_INDICATOR {
            (None, DigestModel { unresolved: self.unresolved + 1, ..self })
        } else {
            (None, self)
        }
    }
}

fn holds(before: &Option<String>, now: &str) -> (r: bool)
    ensures
        r == (text::opt_text(*before) == Some(now@)),
{
    match before {
        Some(t) => text_eq(t.as_str(), now),
        None => false,
    }
}

impl Digest {
    /// The digest of nothing.
    pub fn new() -> (r: Self)
        ensures
            r@ == (DigestModel {
                model: None,
                device_name: None,
                channel_name: None,
                frequency_khz: None,
                rf_bars: None,
                rf_level_dbm: None,
                battery_bars: None,
                unresolved: 0,
                telemetry: false,
                advertised: Seq::empty(),
            }),
    {
        let r = Digest {
            model: None,
            device_name: None,
            channel_name: None,
            frequency_khz: None,
            rf_bars: None,
            rf_level_dbm: None,
            battery_bars: None,
            unresolved: 0,
            telemetry: false,
            advertised: Vec::new(),
        };
        assert(r@.advertised =~= Seq::empty());
        r
    }

    /// Takes in a report. Gives what changed with it.
    pub fn note(&mut self, report: &PropertyReport) -> (r: Option<Change>)
        requires
            old(self).unresolved < u64::MAX,
        ensures
            (
                match r {
                    Some(c) => Some(c@),
                    None => None,
                },
                final(self)@,
            ) == old(self)@.with(report@),
    {
        let address: u32 = report.address;
        match &report.value {
            PropertyValue::Text(t) => {
                if address == acn::PROP_MODEL_NAME {
                    self.model = Some(t.clone());
                    return None;
                }
                if address == acn::PROP_DEVICE_NAME {
                    let held = holds(&self.device_name, t.as_str());
                    self.device_name = Some(t.clone());
                    return if held {
                        None
                    } else {
                        Some(Change::DeviceName(t.clone()))
                    };
                }
                if address == acn::PROP_CHANNEL_NAME {
                    let held = holds(&self.channel_name, t.as_str());
                    self.channel_name = Some(t.clone());
                    return if held {
                        None
                    } else {
                        Some(Change::ChannelName(t.clone()))
                    };
                }
            },
            PropertyValue::UInt32(khz) => {
                if address == acn::PROP_FREQUENCY_KHZ {
                    let held = self.frequency_khz == Some(*khz);
                    self.frequency_khz = Some(*khz);
                    return if held {
                        None
                    } else {
                        Some(Change::FrequencyKhz(*khz))
                    };
                }
            },
            PropertyValue::UInt8(bars) => {
                if address == acn::PROP_RF_BARS {
                    let held = self.rf_bars == Some(*bars);
                    self.rf_bars = Some(*bars);
                    self.telemetry = true;
                    return if held {
                        None
                    } else {
                        Some(Change::RfBars(*bars))
                    };
                }
            },
            PropertyValue::Int32(dbm) => {
                if address == acn::PROP_RF_LEVEL_DBM {
                    let held = self.rf_level_dbm == Some(*dbm);
                    self.rf_level_dbm = Some(*dbm);
                    return if held {
                        None
                    } else {
                        Some(Change::RfLevelDbm(*dbm))
                    };
                }
            },
            PropertyValue::Int8(bars) => {
                if address == acn::PROP_BATTERY_BARS {
                    let held = self.battery_bars == Some(*bars);
                    self.battery_bars = Some(*bars);
                    self.telemetry = true;
                    return if held {
                        None
                    } else {
                        Some(Change::BatteryBars(*bars))
                    };
                }
            },
            PropertyValue::Int16(_) => {},
        }
        if address == acn::PROP_UNRESOLVED_LEVEL || address == acn::PROP_UNRESOLVED_INDICATOR {
            self.unresolved = self.unresolved + 1;
        }
        None
    }

    /// Takes in an advertisement. Tells whether it is to be announced: it names its model and
    /// itself, and is the first of its model to do so.
    pub fn note_advertisement(&mut self, ad: &Advertisement) -> (r: bool)
        ensures
            r == announces(old(self)@.advertised, ad@),
            final(self)@ == (DigestModel {
                advertised: if r {
                    old(self)@.advertised.push(ad@.model->Some_0)
                } else {
                    old(self)@.advertised
                },
                ..old(self)@
            }),
    {
        match (&ad.model, &ad.user_name) {
            (Some(model), Some(_)) => {
                let ghost before = text::texts(self.advertised@);
                assert(before.take(self.advertised@.len() as int) =~= before);
                if among(self.advertised.as_slice(), self.advertised.len(), model.as_str()) {
                    return false;
                }
                self.advertised.push(model.clone());
                assert(text::texts(self.advertised@) =~= before.push(model@));
                true
            },
            _ => false,
        }
    }
}

/// Whether an advertisement is to be announced, those of `advertised` having been.
pub open spec fn announces(advertised: Seq<Seq<char>>, ad: AdvertisementModel) -> bool {
    ad.model is Some && ad.user_name is Some && !advertised.contains(ad.model->Some_0)
}

/// Saying the same again is no change.
pub proof fn a_repeated_report_is_no_change(digest: DigestModel, report: ReportModel)
    ensures
        digest.with(report).1.with(report).0 is None,
{
}

/// A report makes its value the one that is held, and is a change unless it was held already; nothing
/// else that is held changes. The model's name is held and never a change. Signal and battery bars are
/// telemetry.
pub proof fn a_report_is_then_held(
    d: DigestModel,
    name: Seq<char>,
    khz: u32,
    bars: u8,
    dbm: i32,
    charge: i8,
)
    ensures
        d.with(ReportModel { address: 0x0100_0000, value: ValueModel::Text(name) }) == (
            None::<ChangeModel>,
            DigestModel { model: Some(name), ..d },
        ),
        ({
            let (change, now) = d.with(
                ReportModel { address: 0x0100_0012, value: ValueModel::Text(name) },
            );
            &&& now == (DigestModel { device_name: Some(name), ..d })
            &&& d.device_name == Some(name) ==> change is None
            &&& d.device_name != Some(name) ==> change == Some(ChangeModel::DeviceName(name))
        }),
        ({
            let (change, now) = d.with(
                ReportModel { address: 0x0200_0001, value: ValueModel::Text(name) },
            );
            &&& now == (DigestModel { channel_name: Some(name), ..d })
            &&& d.channel_name == Some(name) ==> change is None
            &&& d.channel_name != Some(name) ==> change == Some(ChangeModel::ChannelName(name))
        }),
        ({
            let (change, now) = d.with(
                ReportModel { address: 0x0200_0804, value: ValueModel::UInt32(khz) },
            );
            &&& now == (DigestModel { frequency_khz: Some(khz), ..d })
            &&& d.frequency_khz == Some(khz) ==> change is None
            &&& d.frequency_khz != Some(khz) ==> change == Some(ChangeModel::FrequencyKhz(khz))
        }),
        ({
            let (change, now) = d.with(
                ReportModel { address: 0x0200_0101, value: ValueModel::UInt8(bars) },
            );
            &&& now == (DigestModel { rf_bars: Some(bars), telemetry: true, ..d })
            &&& d.rf_bars == Some(bars) ==> change is None
            &&& d.rf_bars != Some(bars) ==> change == Some(ChangeModel::RfBars(bars))
        }),
        ({
            let (change, now) = d.with(
                ReportModel { address: 0x0200_0114, value: ValueModel::Int32(dbm) },
            );
            &&& now == (DigestModel { rf_level_dbm: Some(dbm), ..d })
            &&& d.rf_level_dbm == Some(dbm) ==> change is None
            &&& d.rf_level_dbm != Some(dbm) ==> change == Some(ChangeModel::RfLevelDbm(dbm))
        }),
        ({
            let (change, now) = d.with(
                ReportModel { address: 0x0200_1100, value: ValueModel::Int8(charge) },
            );
            &&& now == (DigestModel { battery_bars: Some(charge), telemetry: true, ..d })
            &&& d.battery_bars == Some(charge) ==> change is None
            &&& d.battery_bars != Some(charge) ==> change == Some(ChangeModel::BatteryBars(charge))
        }),
{
}

/// Of the two properties that are not understood the reports are counted, and of all others nothing is
/// taken.
pub proof fn other_reports_are_counted_or_passed_over(d: DigestModel, report: ReportModel)
    ensures
        report.value is Int16 && (report.address == 0x0200_0812 || report.address == 0x0200_0815)
            ==> d.with(report) == (
            None::<ChangeModel>,
            DigestModel { unresolved: d.unresolved + 1, ..d },
        ),
        report.value is UInt8 && report.address == 0x0200_0815 ==> d.with(report) == (
            None::<ChangeModel>,
            DigestModel { unresolved: d.unresolved + 1, ..d },
        ),
        report.address != 0x0100_0000 && report.address != 0x0100_0012 && report.address
            != 0x0200_0001 && report.address != 0x0200_0804 && report.address != 0x0200_0101
            && report.address != 0x0200_0114 && report.address != 0x0200_1100 && report.address
            != 0x0200_0812 && report.address != 0x0200_0815 ==> d.with(report) == (
            None::<ChangeModel>,
            d,
        ),
{
}

/// An advertisement is announced once for each model, and only if it names its model and itself.
pub proof fn a_model_is_announced_once(
    advertised: Seq<Seq<char>>,
    ad: AdvertisementModel,
    other: AdvertisementModel,
)
    ensures
        ad.model is None || ad.user_name is None ==> !announces(advertised, ad),
        announces(advertised, ad) && other.model == ad.model ==> !announces(
            advertised.push(ad.model->Some_0),
            other,
        ),
        announces(advertised, ad) <==> ad.model is Some && ad.user_name is Some && forall|i: int|
            0 <= i < advertised.len() ==> #[trigger] advertised[i] != ad.model->Some_0,
{
    if announces(advertised, ad) {
        let now = advertised.push(ad.model->Some_0);
        assert(now[now.len() - 1] == ad.model->Some_0);
        assert(now.contains(ad.model->Some_0));
        assert forall|i: int| 0 <= i < advertised.len() implies #[trigger] advertised[i]
            != ad.model->Some_0 by {
            if advertised[i] == ad.model->Some_0 {
                assert(advertised.contains(advertised[i]));
            }
        }
    }
}

} // verus!
