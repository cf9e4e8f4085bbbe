//! Sennheiser EW-DX receivers, by the Sound Control Protocol: one JSON object per UDP datagram. An
//! address such as `/rx1/mute` is a path in the object; `null` at its end asks for the value, and
//! a subscription brings the current values first.
use serde_json::Value;
use vstd::prelude::*;

use crate::address::IpAddress;
use crate::bridge::adapter::{AdapterError, AdapterErrorModel, DeviceInfo, DeviceInfoModel};
use crate::mic;
use crate::mic::json;
use crate::mic::json::{parse_json, Json, JsonModel};
use crate::mic::{
    AntennaDiversity, Channels, MicAddress, MicAddressModel, MicEvent, MicEventModel, MicState,
    Reading,
};
use crate::text;
use crate::text::{
    chars_of, clone_opt, match_at, parse_unsigned, push_decimal, text_eq,
};

verus! {

/// How long a subscription is asked to last.
pub const SUBSCRIBE_LIFETIME_SECS: u64 = 3600;

// ---------------------------------------------------------------------------
// Replies
// ---------------------------------------------------------------------------

/// The antenna that a diversity code stands for.
pub open spec fn antenna_of(n: int) -> Option<AntennaDiversity> {
    if n == 0 {
        Some(AntennaDiversity::Inactive)
    } else if n == 1 {
        Some(AntennaDiversity::A)
    } else if n == 2 {
        Some(AntennaDiversity::B)
    } else {
        None
    }
}

/// The antenna that a diversity code stands for.
pub fn antenna_from_divi(n: u64) -> (r: Option<AntennaDiversity>)
    ensures
        r == antenna_of(n as int),
{
    if n == 0 {
        Some(AntennaDiversity::Inactive)
    } else if n == 1 {
        Some(AntennaDiversity::A)
    } else if n == 2 {
        Some(AntennaDiversity::B)
    } else {
        None
    }
}

/// The number behind `prefix` in a key.
pub open spec fn index_in(key: Seq<char>, prefix: Seq<char>) -> Option<u16> {
    if text::has_prefix(key, prefix) {
        match text::parsed_unsigned(key.skip(prefix.len() as int), 0xffff) {
            Some(n) => Some(n as u16),
            None => None,
        }
    } else {
        None
    }
}

/// Reads the number behind `prefix` in a key.
pub fn parse_indexed(key: &str, prefix: &str) -> (r: Option<u16>)
    ensures
        r == index_in(key@, prefix@),
{
    let key = chars_of(key);
    let prefix = chars_of(prefix);
    if !match_at(key.as_slice(), prefix.as_slice(), 0) {
        return None;
    }
    let rest = vstd::slice::slice_subrange(key.as_slice(), prefix.len(), key.len());
    assert(rest@ =~= key@.skip(prefix@.len() as int));
    match parse_unsigned(rest, 0xffff) {
        Some(n) => Some(n as u16),
        None => None,
    }
}

/// One value found in a reply, with the channel that it is of.
#[derive(Debug, Clone, PartialEq, Eq)]
pub enum Update {
    Mute { channel: u16, muted: bool },
    Frequency { channel: u16, khz: Reading },
    Rssi { channel: u16, dbm: Reading },
    Rsqi { channel: u16, percent: u8 },
    Divi { channel: u16, antenna: Option<AntennaDiversity> },
    Af { channel: u16, dbfs: Reading },
    BatteryGauge { channel: u16, percent: Option<u8> },
    BatteryLifetime { channel: u16, minutes: Option<u16> },
    Identity { vendor: Option<String>, product: Option<String> },
}

/// An [`Update`], its texts as sequences.
#[verifier::ext_equal]
pub enum UpdateModel {
    Mute { channel: u16, muted: bool },
    Frequency { channel: u16, khz: Reading },
    Rssi { channel: u16, dbm: Reading },
    Rsqi { channel: u16, percent: u8 },
    Divi { channel: u16, antenna: Option<AntennaDiversity> },
    Af { channel: u16, dbfs: Reading },
    BatteryGauge { channel: u16, percent: Option<u8> },
    BatteryLifetime { channel: u16, minutes: Option<u16> },
    Identity { vendor: Option<Seq<char>>, product: Option<Seq<char>> },
}

impl View for Update {
    type V = UpdateModel;

    open spec fn view(&self) -> UpdateModel {
        match self {
            Update::Mute { channel, muted } => UpdateModel::Mute {
                channel: *channel,
                muted: *muted,
            },
            Update::Frequency { channel, khz } => UpdateModel::Frequency {
                channel: *channel,
                khz: *khz,
            },
            Update::Rssi { channel, dbm } => UpdateModel::Rssi { channel: *channel, dbm: *dbm },
            Update::Rsqi { channel, percent } => UpdateModel::Rsqi {
                channel: *channel,
                percent: *percent,
            },
            Update::Divi { channel, antenna } => UpdateModel::Divi {
                channel: *channel,
                antenna: *antenna,
            },
            Update::Af { channel, dbfs } => UpdateModel::Af { channel: *channel, dbfs: *dbfs },
            Update::BatteryGauge { channel, percent } => UpdateModel::BatteryGauge {
                channel: *channel,
                percent: *percent,
            },
            Update::BatteryLifetime { channel, minutes } => UpdateModel::BatteryLifetime {
                channel: *channel,
                minutes: *minutes,
            },
            Update::Identity { vendor, product } => UpdateModel::Identity {
                vendor: text::opt_text(*vendor),
                product: text::opt_text(*product),
            },
        }
    }
}

/// The models of a list of updates.
pub open spec fn update_models(v: Seq<Update>) -> Seq<UpdateModel> {
    v.map_values(|u: Update| u@)
}

/// The member of an object under a key.
pub open spec fn member_of(members: Seq<(Seq<char>, JsonModel)>, key: Seq<char>) -> Option<
    JsonModel,
>
    decreases members.len(),
{
    if members.len() == 0 {
        None
    } else if members[0].0 == key {
        Some(members[0].1)
    } else {
        member_of(members.skip(1), key)
    }
}

/// The member of a value under a key; only an object has any.
pub open spec fn member(v: JsonModel, key: Seq<char>) -> Option<JsonModel> {
    match v {
        JsonModel::Object(members) => member_of(members, key),
        _ => None,
    }
}

/// The truth value under a key.
pub open spec fn bool_at(v: JsonModel, key: Seq<char>) -> Option<bool> {
    match member(v, key) {
        Some(JsonModel::Bool(b)) => Some(b),
        _ => None,
    }
}

/// The number under a key.
pub open spec fn number_at(v: JsonModel, key: Seq<char>) -> Option<Reading> {
    match member(v, key) {
        Some(JsonModel::Number(n)) => Some(n),
        _ => None,
    }
}

/// The number under a key, where it is whole and not negative.
pub open spec fn count_at(v: JsonModel, key: Seq<char>) -> Option<u64> {
    match member(v, key) {
        Some(JsonModel::Number(Reading::Unsigned(n))) => Some(n),
        _ => None,
    }
}

/// The text under a key.
pub open spec fn text_at(v: JsonModel, key: Seq<char>) -> Option<Seq<char>> {
    match member(v, key) {
        Some(JsonModel::Text(t)) => Some(t),
        _ => None,
    }
}

/// What a receiver channel's own member says.
pub open spec fn receiver_updates(channel: u16, v: JsonModel) -> Seq<UpdateModel> {
    (match bool_at(v, "mute"@) {
        Some(muted) => seq![UpdateModel::Mute { channel, muted }],
        None => seq![],
    }) + (match number_at(v, "frequency"@) {
        Some(khz) => seq![UpdateModel::Frequency { channel, khz }],
        None => seq![],
    })
}

/// What a channel's meters say. A percentage keeps its low eight bits.
pub open spec fn meter_updates(channel: u16, v: JsonModel) -> Seq<UpdateModel> {
    (match number_at(v, "rssi"@) {
        Some(dbm) => seq![UpdateModel::Rssi { channel, dbm }],
        None => seq![],
    }) + (match count_at(v, "rsqi"@) {
        Some(n) => seq![UpdateModel::Rsqi { channel, percent: (n % 256) as u8 }],
        None => seq![],
    }) + (match count_at(v, "divi"@) {
        Some(n) => seq![UpdateModel::Divi { channel, antenna: antenna_of(n as int) }],
        None => seq![],
    }) + (match number_at(v, "af"@) {
        Some(dbfs) => seq![UpdateModel::Af { channel, dbfs }],
        None => seq![],
    })
}

/// What the transmitter paired with a channel says of its battery. A value that is missing, or no
/// count, is no reading.
pub open spec fn battery_updates(channel: u16, v: JsonModel) -> Seq<UpdateModel> {
    match member(v, "battery"@) {
        Some(battery) => seq![
            UpdateModel::BatteryGauge {
                channel,
                percent: match count_at(battery, "gauge"@) {
                    Some(n) => Some((n % 256) as u8),
                    None => None,
                },
            },
            UpdateModel::BatteryLifetime {
                channel,
                minutes: match count_at(battery, "lifetime"@) {
                    Some(n) => Some((n % 65536) as u16),
                    None => None,
                },
            },
        ],
        None => seq![],
    }
}

/// What the members of the meters' object say, taken in order.
pub open spec fn all_meter_updates(members: Seq<(Seq<char>, JsonModel)>) -> Seq<UpdateModel>
    decreases members.len(),
{
    if members.len() == 0 {
        seq![]
    } else {
        all_meter_updates(members.drop_last()) + match index_in(members.last().0, "rx"@) {
            Some(channel) => meter_updates(channel, members.last().1),
            None => seq![],
        }
    }
}

/// What the members of the transmitters' object say, taken in order.
pub open spec fn all_battery_updates(members: Seq<(Seq<char>, JsonModel)>) -> Seq<UpdateModel>
    decreases members.len(),
{
    if members.len() == 0 {
        seq![]
    } else {
        all_battery_updates(members.drop_last()) + match index_in(members.last().0, "tx"@) {
            Some(channel) => battery_updates(channel, members.last().1),
            None => seq![],
        }
    }
}

/// What the device's own member says of its identity.
pub open spec fn device_updates(v: JsonModel) -> Seq<UpdateModel> {
    match member(v, "identity"@) {
        Some(identity) => {
            let vendor = text_at(identity, "vendor"@);
            let product = text_at(identity, "product"@);
            if vendor is Some || product is Some {
                seq![UpdateModel::Identity { vendor, product }]
            } else {
                seq![]
            }
        },
        None => seq![],
    }
}

/// What one member of a reply says.
pub open spec fn member_updates(key: Seq<char>, v: JsonModel) -> Seq<UpdateModel> {
    match index_in(key, "rx"@) {
        Some(channel) => receiver_updates(channel, v),
        None => if key == "m"@ {
            match v {
                JsonModel::Object(members) => all_meter_updates(members),
                _ => seq![],
            }
        } else if key == "mates"@ {
            match v {
                JsonModel::Object(members) => all_battery_updates(members),
                _ => seq![],
            }
        } else if key == "device"@ {
            device_updates(v)
        } else {
            seq![]
        },
    }
}

/// What the members of a reply say, taken in order.
pub open spec fn reply_updates(members: Seq<(Seq<char>, JsonModel)>) -> Seq<UpdateModel>
    decreases members.len(),
{
    if members.len() == 0 {
        seq![]
    } else {
        reply_updates(members.drop_last()) + member_updates(members.last().0, members.last().1)
    }
}

/// What a reply says.
pub open spec fn updates_in(root: JsonModel) -> Seq<UpdateModel> {
    match root {
        JsonModel::Object(members) => reply_updates(members),
        _ => seq![],
    }
}

fn get<'a>(v: &'a Json, key: &str) -> (r: Option<&'a Json>)
    ensures
        match r {
            Some(j) => member(v@, key@) == Some(j@),
            None => member(v@, key@) is None,
        },
{
    match v {
        Json::Object(members) => {
            let ghost all = json::member_models(members@);
            proof {
                json::members_have_their_models(members@);
            }
            let mut i: usize = 0;
            assert(all.skip(0) =~= all);
            while i < members.len()
                invariant
                    i <= members.len(),
                    v@ == JsonModel::Object(all),
                    all.len() == members@.len(),
                    forall|j: int|
                        0 <= j < members@.len() ==> #[trigger] all[j] == (
                            members@[j].0@,
                            members@[j].1@,
                        ),
                    member_of(all.skip(i as int), key@) == member(v@, key@),
                decreases members.len() - i,
            {
                assert(all.skip(i as int)[0] == all[i as int]);
                if text_eq(members[i].0.as_str(), key) {
                    return Some(&members[i].1);
                }
                assert(all.skip(i as int).skip(1) =~= all.skip(i + 1));
                i = i + 1;
            }
            None
        },
        _ => None,
    }
}

fn get_bool(v: &Json, key: &str) -> (r: Option<bool>)
    ensures
        r == bool_at(v@, key@),
{
    match get(v, key) {
        Some(Json::Bool(b)) => Some(*b),
        _ => None,
    }
}

fn get_number(v: &Json, key: &str) -> (r: Option<Reading>)
    ensures
        r == number_at(v@, key@),
{
    match get(v, key) {
        Some(Json::Number(n)) => Some(*n),
        _ => None,
    }
}

fn get_count(v: &Json, key: &str) -> (r: Option<u64>)
    ensures
        r == count_at(v@, key@),
{
    match get(v, key) {
        Some(Json::Number(Reading::Unsigned(n))) => Some(*n),
        _ => None,
    }
}

fn get_text(v: &Json, key: &str) -> (r: Option<String>)
    ensures
        text::opt_text(r) == text_at(v@, key@),
{
    match get(v, key) {
        Some(Json::Text(t)) => Some(t.clone()),
        _ => None,
    }
}

fn push_update(out: &mut Vec<Update>, update: Update)
    ensures
        update_models(final(out)@) == update_models(old(out)@) + seq![update@],
{
    out.push(update);
    assert(update_models(out@) =~= update_models(old(out)@) + seq![update@]);
}

fn push_receiver(out: &mut Vec<Update>, channel: u16, v: &Json)
    ensures
        update_models(final(out)@) == update_models(old(out)@) + receiver_updates(channel, v@),
{
    if let Some(muted) = get_bool(v, "mute") {
        push_update(out, Update::Mute { channel, muted });
    }
    if let Some(khz) = get_number(v, "frequency") {
        push_update(out, Update::Frequency { channel, khz });
    }
    assert(update_models(out@) =~= update_models(old(out)@) + receiver_updates(channel, v@));
}

fn push_meters(out: &mut Vec<Update>, channel: u16, v: &Json)
    ensures
        update_models(final(out)@) == update_models(old(out)@) + meter_updates(channel, v@),
{
    if let Some(dbm) = get_number(v, "rssi") {
        push_update(out, Update::Rssi { channel, dbm });
    }
    if let Some(n) = get_count(v, "rsqi") {
        push_update(out, Update::Rsqi { channel, percent: (n % 256) as u8 });
    }
    if let Some(n) = get_count(v, "divi") {
        push_update(out, Update::Divi { channel, antenna: antenna_from_divi(n) });
    }
    if let Some(dbfs) = get_number(v, "af") {
        push_update(out, Update::Af { channel, dbfs });
    }
    assert(update_models(out@) =~= update_models(old(out)@) + meter_updates(channel, v@));
}

fn push_battery(out: &mut Vec<Update>, channel: u16, v: &Json)
    ensures
        update_models(final(out)@) == update_models(old(out)@) + battery_updates(channel, v@),
{
    if let Some(battery) = get(v, "battery") {
        let percent: Option<u8> = match get_count(battery, "gauge") {
            Some(n) => Some((n % 256) as u8),
            None => None,
        };
        let minutes: Option<u16> = match get_count(battery, "lifetime") {
            Some(n) => Some((n % 65536) as u16),
            None => None,
        };
        push_update(out, Update::BatteryGauge { channel, percent });
        push_update(out, Update::BatteryLifetime { channel, minutes });
    }
    assert(update_models(out@) =~= update_models(old(out)@) + battery_updates(channel, v@));
}

fn push_all_meters(out: &mut Vec<Update>, members: &Vec<(String, Json)>)
    ensures
        update_models(final(out)@) == update_models(old(out)@) + all_meter_updates(
            json::member_models(members@),
        ),
{
    let ghost all = json::member_models(members@);
    let ghost start = update_models(out@);
    proof {
        json::members_have_their_models(members@);
    }
    let mut i: usize = 0;
    assert(all.take(0) =~= seq![]);
    assert(start + all_meter_updates(all.take(0)) =~= start);
    while i < members.len()
        invariant
            i <= members.len(),
            all.len() == members@.len(),
            forall|j: int|
                0 <= j < members@.len() ==> #[trigger] all[j] == (members@[j].0@, members@[j].1@),
            update_models(out@) == start + all_meter_updates(all.take(i as int)),
        decreases members.len() - i,
    {
        let ghost before = update_models(out@);
        assert(all.take(i + 1).drop_last() =~= all.take(i as int));
        assert(all.take(i + 1).last() == all[i as int]);
        let ghost here = match index_in(all[i as int].0, "rx"@) {
            Some(channel) => meter_updates(channel, all[i as int].1),
            None => seq![],
        };
        if let Some(channel) = parse_indexed(members[i].0.as_str(), "rx") {
            push_meters(out, channel, &members[i].1);
        }
        assert(update_models(out@) =~= before + here);
        assert(before + here =~= start + (all_meter_updates(all.take(i as int)) + here));
        i = i + 1;
    }
    assert(all.take(i as int) =~= all);
}

fn push_all_batteries(out: &mut Vec<Update>, members: &Vec<(String, Json)>)
    ensures
        update_models(final(out)@) == update_models(old(out)@) + all_battery_updates(
            json::member_models(members@),
        ),
{
    let ghost all = json::member_models(members@);
    let ghost start = update_models(out@);
    proof {
        json::members_have_their_models(members@);
    }
    let mut i: usize = 0;
    assert(all.take(0) =~= seq![]);
    assert(start + all_battery_updates(all.take(0)) =~= start);
    while i < members.len()
        invariant
            i <= members.len(),
            all.len() == members@.len(),
            forall|j: int|
                0 <= j < members@.len() ==> #[trigger] all[j] == (members@[j].0@, members@[j].1@),
            update_models(out@) == start + all_battery_updates(all.take(i as int)),
        decreases members.len() - i,
    {
        let ghost before = update_models(out@);
        assert(all.take(i + 1).drop_last() =~= all.take(i as int));
        assert(all.take(i + 1).last() == all[i as int]);
        let ghost here = match index_in(all[i as int].0, "tx"@) {
            Some(channel) => battery_updates(channel, all[i as int].1),
            None => seq![],
        };
        if let Some(channel) = parse_indexed(members[i].0.as_str(), "tx") {
            push_battery(out, channel, &members[i].1);
        }
        assert(update_models(out@) =~= before + here);
        assert(before + here =~= start + (all_battery_updates(all.take(i as int)) + here));
        i = i + 1;
    }
    assert(all.take(i as int) =~= all);
}

fn push_device(out: &mut Vec<Update>, v: &Json)
    ensures
        update_models(final(out)@) == update_models(old(out)@) + device_updates(v@),
{
    if let Some(identity) = get(v, "identity") {
        let vendor = get_text(identity, "vendor");
        let product = get_text(identity, "product");
        if vendor.is_some() || product.is_some() {
            push_update(out, Update::Identity { vendor, product });
        }
    }
    assert(update_models(out@) =~= update_models(old(out)@) + device_updates(v@));
}

fn push_member(out: &mut Vec<Update>, key: &str, v: &Json)
    ensures
        update_models(final(out)@) == update_models(old(out)@) + member_updates(key@, v@),
{
    if let Some(channel) = parse_indexed(key, "rx") {
        push_receiver(out, channel, v);
    } else if text_eq(key, "m") {
        if let Json::Object(members) = v {
            push_all_meters(out, members);
        }
    } else if text_eq(key, "mates") {
        if let Json::Object(members) = v {
            push_all_batteries(out, members);
        }
    } else if text_eq(key, "device") {
        push_device(out, v);
    }
    assert(update_models(out@) =~= update_models(old(out)@) + member_updates(key@, v@));
}

/// Finds the values in a reply that are of interest. What is missing, or of another type, is left
/// out and not guessed.
pub fn extract_updates(root: &Json) -> (r: Vec<Update>)
    ensures
        update_models(r@) == updates_in(root@),
{
    let mut out: Vec<Update> = Vec::new();
    assert(update_models(out@) =~= seq![]);
    if let Json::Object(members) = root {
        let ghost all = json::member_models(members@);
        proof {
            json::members_have_their_models(members@);
        }
        let mut i: usize = 0;
        assert(all.take(0) =~= seq![]);
        while i < members.len()
            invariant
                i <= members.len(),
                all.len() == members@.len(),
                forall|j: int|
                    0 <= j < members@.len() ==> #[trigger] all[j] == (
                        members@[j].0@,
                        members@[j].1@,
                    ),
                update_models(out@) == reply_updates(all.take(i as int)),
            decreases members.len() - i,
        {
            assert(all.take(i + 1).drop_last() =~= all.take(i as int));
            assert(all.take(i + 1).last() == all[i as int]);
            push_member(&mut out, members[i].0.as_str(), &members[i].1);
            i = i + 1;
        }
        assert(all.take(i as int) =~= all);
    }
    out
}

// ---------------------------------------------------------------------------
// The adapter
// ---------------------------------------------------------------------------

/// Who the device says it is.
#[derive(Debug, Clone, PartialEq, Eq)]
pub struct Identity {
    pub vendor: String,
    pub product: String,
}

/// An [`Identity`], its texts as sequences.
#[verifier::ext_equal]
pub struct IdentityModel {
    pub vendor: Seq<char>,
    pub product: Seq<char>,
}

impl View for Identity {
    type V = IdentityModel;

    open spec fn view(&self) -> IdentityModel {
        IdentityModel { vendor: self.vendor@, product: self.product@ }
    }
}

impl UpdateModel {
    /// The channel that the update is of; `None` where it is of the device.
    pub open spec fn of(self) -> Option<u16> {
        match self {
            UpdateModel::Mute { channel, .. } => Some(channel),
            UpdateModel::Frequency { channel, .. } => Some(channel),
            UpdateModel::Rssi { channel, .. } => Some(channel),
            UpdateModel::Rsqi { channel, .. } => Some(channel),
            UpdateModel::Divi { channel, .. } => Some(channel),
            UpdateModel::Af { channel, .. } => Some(channel),
            UpdateModel::BatteryGauge { channel, .. } => Some(channel),
            UpdateModel::BatteryLifetime { channel, .. } => Some(channel),
            UpdateModel::Identity { .. } => None,
        }
    }

    /// A channel's state with the update.
    pub open spec fn on(self, state: MicState) -> MicState {
        match self {
            UpdateModel::Mute { muted, .. } => MicState { muted, ..state },
            UpdateModel::Frequency { khz, .. } => MicState { frequency_khz: Some(khz), ..state },
            UpdateModel::Rssi { dbm, .. } => MicState { rf_level_dbm: Some(dbm), ..state },
            UpdateModel::Rsqi { percent, .. } => MicState {
                rf_quality_percent: Some(percent),
                ..state
            },
            UpdateModel::Divi { antenna, .. } => MicState { antenna, ..state },
            UpdateModel::Af { dbfs, .. } => MicState { audio_level_dbfs: Some(dbfs), ..state },
            UpdateModel::BatteryGauge { percent, .. } => MicState {
                battery_percent: percent,
                ..state
            },
            UpdateModel::BatteryLifetime { minutes, .. } => MicState {
                battery_minutes_remaining: minutes,
                ..state
            },
            UpdateModel::Identity { .. } => state,
        }
    }
}

/// What is known of a receiver, and the channels that the current reply has touched, in the order
/// in which it first did.
#[verifier::ext_equal]
pub struct Knowledge {
    pub channels: Map<u16, MicState>,
    pub identity: Option<IdentityModel>,
    pub touched: Seq<u16>,
}

impl Knowledge {
    /// What is known after an update.
    pub open spec fn after(self, update: UpdateModel) -> Knowledge {
        match update {
            UpdateModel::Identity { vendor, product } => {
                let before = match self.identity {
                    Some(i) => i,
                    None => IdentityModel { vendor: seq![], product: seq![] },
                };
                Knowledge {
                    identity: Some(
                        IdentityModel {
                            vendor: match vendor {
                                Some(v) => v,
                                None => before.vendor,
                            },
                            product: match product {
                                Some(p) => p,
                                None => before.product,
                            },
                        },
                    ),
                    ..self
                }
            },
            _ => {
                let channel = update.of()->Some_0;
                Knowledge {
                    channels: self.channels.insert(
                        channel,
                        update.on(mic::known(self.channels, channel)),
                    ),
                    touched: if self.touched.contains(channel) {
                        self.touched
                    } else {
                        self.touched.push(channel)
                    },
                    ..self
                }
            },
        }
    }

    /// What is known after several updates, taken in order.
    pub open spec fn after_all(self, updates: Seq<UpdateModel>) -> Knowledge
        decreases updates.len(),
    {
        if updates.len() == 0 {
            self
        } else {
            self.after_all(updates.drop_last()).after(updates.last())
        }
    }

    /// The events to publish: one for each touched channel.
    pub open spec fn events(self, id: Seq<char>) -> Seq<MicEventModel> {
        self.touched.map_values(
            |channel: u16|
                MicEventModel {
                    address: MicAddressModel { device_id: id, channel },
                    state: self.channels[channel],
                },
        )
    }
}

/// Each channel that a reply touches brings one event, with a state that is known.
pub proof fn a_touched_channel_is_published_once(k: Knowledge, updates: Seq<UpdateModel>)
    requires
        k.touched.no_duplicates(),
        forall|i: int| 0 <= i < k.touched.len() ==> k.channels.contains_key(#[trigger] k.touched[i]),
    ensures
        k.after_all(updates).touched.no_duplicates(),
        forall|i: int|
            0 <= i < k.after_all(updates).touched.len() ==> k.after_all(
                updates,
            ).channels.contains_key(#[trigger] k.after_all(updates).touched[i]),
        forall|j: int|
            0 <= j < updates.len() && (#[trigger] updates[j]).of() is Some ==> k.after_all(
                updates,
            ).touched.contains(updates[j].of()->Some_0),
    decreases updates.len(),
{
    if updates.len() > 0 {
        let most = updates.drop_last();
        a_touched_channel_is_published_once(k, most);
        let before = k.after_all(most);
        let after = k.after_all(updates);
        let last = updates.last();
        assert forall|j: int| 0 <= j < updates.len() && (#[trigger] updates[j]).of()
            is Some implies after.touched.contains(updates[j].of()->Some_0) by {
            let c = updates[j].of()->Some_0;
            if j < most.len() {
                assert(most[j] == updates[j]);
                let i = before.touched.index_of(c);
                assert(before.touched[i] == c);
                assert(after.touched[i] == c);
            } else if !before.touched.contains(c) {
                assert(after.touched[before.touched.len() as int] == c);
            }
        }
    }
}

/// A receiver's adapter.
#[derive(Debug, Clone)]
pub struct SennheiserAdapter {
    id: String,
    remote: IpAddress,
    channels: Channels,
    identity: Option<Identity>,
}

/// A member of an object.
pub open spec fn one(key: Seq<char>, v: JsonModel) -> JsonModel {
    JsonModel::Object(seq![(key, v)])
}

/// The request for the device's identity.
pub open spec fn identity_query() -> JsonModel {
    one(
        "device"@,
        one(
            "identity"@,
            JsonModel::Object(
                seq![("product"@, JsonModel::Null), ("vendor"@, JsonModel::Null)],
            ),
        ),
    )
}

/// The request that mutes a channel, or unmutes it.
pub open spec fn mute_order(channel: u16, muted: bool) -> JsonModel {
    one("rx"@ + text::decimal(channel as nat), one("mute"@, JsonModel::Bool(muted)))
}

/// What a subscription of a channel is of: its mute and its frequency, its meters, and the battery
/// of the transmitter with the same number.
pub open spec fn subscription(channel: u16) -> JsonModel {
    let rx = "rx"@ + text::decimal(channel as nat);
    let tx = "tx"@ + text::decimal(channel as nat);
    JsonModel::Object(
        seq![
            (
                "#"@,
                one(
                    "lifetime"@,
                    JsonModel::Number(Reading::Unsigned(SUBSCRIBE_LIFETIME_SECS)),
                ),
            ),
            (
                "m"@,
                one(
                    rx,
                    JsonModel::Object(
                        seq![
                            ("af"@, JsonModel::Null),
                            ("divi"@, JsonModel::Null),
                            ("rsqi"@, JsonModel::Null),
                            ("rssi"@, JsonModel::Null),
                        ],
                    ),
                ),
            ),
            (
                "mates"@,
                one(
                    tx,
                    one(
                        "battery"@,
                        JsonModel::Object(
                            seq![("gauge"@, JsonModel::Null), ("lifetime"@, JsonModel::Null)],
                        ),
                    ),
                ),
            ),
            (
                rx,
                JsonModel::Object(
                    seq![("frequency"@, JsonModel::Null), ("mute"@, JsonModel::Null)],
                ),
            ),
        ],
    )
}

/// The request that subscribes to a channel.
pub open spec fn subscribe_order(channel: u16) -> JsonModel {
    one("osc"@, one("state"@, one("subscribe"@, JsonModel::List(seq![subscription(channel)]))))
}

proof fn one_is_plain(key: Seq<char>, v: JsonModel)
    requires
        json::plain_text(key),
        json::plain(v),
    ensures
        json::plain(one(key, v)),
{
}

proof fn numbered_is_plain(prefix: Seq<char>, n: nat)
    requires
        json::plain_text(prefix),
    ensures
        json::plain_text(prefix + text::decimal(n)),
{
    text::decimal_spells_the_number(n);
}

proof fn subscription_is_plain(channel: u16)
    ensures
        json::plain(subscription(channel)),
{
    reveal_strlit("#");
    reveal_strlit("lifetime");
    reveal_strlit("m");
    reveal_strlit("rx");
    reveal_strlit("tx");
    reveal_strlit("af");
    reveal_strlit("divi");
    reveal_strlit("rsqi");
    reveal_strlit("rssi");
    reveal_strlit("mates");
    reveal_strlit("battery");
    reveal_strlit("gauge");
    reveal_strlit("frequency");
    reveal_strlit("mute");
    let rx = "rx"@ + text::decimal(channel as nat);
    let tx = "tx"@ + text::decimal(channel as nat);
    numbered_is_plain("rx"@, channel as nat);
    numbered_is_plain("tx"@, channel as nat);
    let members = subscription(channel)->Object_0;
    let meters = JsonModel::Object(
        seq![
            ("af"@, JsonModel::Null),
            ("divi"@, JsonModel::Null),
            ("rsqi"@, JsonModel::Null),
            ("rssi"@, JsonModel::Null),
        ],
    );
    let gauges = JsonModel::Object(
        seq![("gauge"@, JsonModel::Null), ("lifetime"@, JsonModel::Null)],
    );
    let own = JsonModel::Object(seq![("frequency"@, JsonModel::Null), ("mute"@, JsonModel::Null)]);
    assert(json::plain(JsonModel::Null));
    assert(json::plain(meters));
    assert(json::plain(gauges));
    assert(json::plain(own));
    one_is_plain(
        "lifetime"@,
        JsonModel::Number(Reading::Unsigned(SUBSCRIBE_LIFETIME_SECS)),
    );
    one_is_plain(rx, meters);
    one_is_plain("battery"@, gauges);
    one_is_plain(tx, one("battery"@, gauges));
    assert forall|i: int| 0 <= i < members.len() implies json::plain_text(
        (#[trigger] members[i]).0,
    ) && json::plain(members[i].1) by {
        assert(i == 0 || i == 1 || i == 2 || i == 3);
    }
}

fn wrap(key: &str, v: Value) -> (r: Value)
    ensures
        json::contents(r) == one(key@, json::contents(v)),
{
    let mut members: Vec<(String, Value)> = Vec::new();
    members.push((key.to_owned(), v));
    let r = json::object(members);
    assert(json::contents(r)->Object_0 =~= seq![(key@, json::contents(v))]);
    r
}

fn two_nulls(first: &str, second: &str) -> (r: Value)
    requires
        json::text_less(first@, second@),
    ensures
        json::contents(r) == JsonModel::Object(
            seq![(first@, JsonModel::Null), (second@, JsonModel::Null)],
        ),
{
    let mut members: Vec<(String, Value)> = Vec::new();
    members.push((first.to_owned(), json::null()));
    members.push((second.to_owned(), json::null()));
    let r = json::object(members);
    assert(json::contents(r)->Object_0 =~= seq![
        (first@, JsonModel::Null),
        (second@, JsonModel::Null),
    ]);
    r
}

fn numbered(prefix: &str, channel: u16) -> (r: String)
    ensures
        r@ == prefix@ + text::decimal(channel as nat),
{
    let mut out: String = prefix.to_owned();
    push_decimal(&mut out, channel as u64);
    out
}

fn meters_value() -> (r: Value)
    ensures
        json::contents(r) == JsonModel::Object(
            seq![
                ("af"@, JsonModel::Null),
                ("divi"@, JsonModel::Null),
                ("rsqi"@, JsonModel::Null),
                ("rssi"@, JsonModel::Null),
            ],
        ),
{
    let mut members: Vec<(String, Value)> = Vec::new();
    members.push(("af".to_owned(), json::null()));
    members.push(("divi".to_owned(), json::null()));
    members.push(("rsqi".to_owned(), json::null()));
    members.push(("rssi".to_owned(), json::null()));
    proof {
        reveal_strlit("af");
        reveal_strlit("divi");
        reveal_strlit("rsqi");
        reveal_strlit("rssi");
        reveal_with_fuel(json::text_less, 4);
    }
    let r = json::object(members);
    assert(json::contents(r)->Object_0 =~= seq![
        ("af"@, JsonModel::Null),
        ("divi"@, JsonModel::Null),
        ("rsqi"@, JsonModel::Null),
        ("rssi"@, JsonModel::Null),
    ]);
    r
}

fn subscription_value(channel: u16) -> (r: Value)
    ensures
        json::contents(r) == subscription(channel),
{
    proof {
        reveal_strlit("#");
        reveal_strlit("m");
        reveal_strlit("mates");
        reveal_strlit("rx");
        reveal_strlit("gauge");
        reveal_strlit("lifetime");
        reveal_strlit("frequency");
        reveal_strlit("mute");
        reveal_with_fuel(json::text_less, 3);
    }
    let rx = numbered("rx", channel);
    let tx = numbered("tx", channel);
    let battery = wrap("battery", two_nulls("gauge", "lifetime"));
    let lifetime = wrap("lifetime", json::unsigned(SUBSCRIBE_LIFETIME_SECS));
    let meters = wrap(rx.as_str(), meters_value());
    let mates = wrap(tx.as_str(), battery);
    let own = two_nulls("frequency", "mute");
    let mut members: Vec<(String, Value)> = Vec::new();
    members.push(("#".to_owned(), lifetime));
    members.push(("m".to_owned(), meters));
    members.push(("mates".to_owned(), mates));
    members.push((rx.clone(), own));
    assert(rx@[0] == 'r');
    let r = json::object(members);
    assert(json::contents(r)->Object_0 =~= subscription(channel)->Object_0);
    r
}

impl SennheiserAdapter {
    pub closed spec fn name(&self) -> Seq<char> {
        self.id@
    }

    pub closed spec fn address(&self) -> IpAddress {
        self.remote
    }

    /// What is known between two replies.
    pub closed spec fn known(&self) -> Knowledge {
        Knowledge {
            channels: self.channels@,
            identity: match self.identity {
                Some(i) => Some(i@),
                None => None,
            },
            touched: seq![],
        }
    }

    pub fn new(id: &str, remote: IpAddress) -> (r: Self)
        ensures
            r.name() == id@,
            r.address() == remote,
            r.known() == (Knowledge { channels: Map::empty(), identity: None, touched: seq![] }),
    {
        SennheiserAdapter { id: id.to_owned(), remote, channels: Channels::new(), identity: None }
    }

    pub fn id(&self) -> (r: &str)
        ensures
            r@ == self.name(),
    {
        self.id.as_str()
    }

    /// What to send to learn the device's identity.
    pub fn identity_request() -> (r: String)
        ensures
            r@ == json::spelled(identity_query()),
    {
        proof {
            reveal_strlit("product");
            reveal_strlit("vendor");
        }
        let leaves = two_nulls("product", "vendor");
        proof {
            reveal_strlit("device");
            reveal_strlit("identity");
            let product_and_vendor = json::contents(leaves);
            assert(json::plain(JsonModel::Null));
            assert(json::plain(product_and_vendor));
            one_is_plain("identity"@, product_and_vendor);
            one_is_plain("device"@, one("identity"@, product_and_vendor));
        }
        json::to_text(&wrap("device", wrap("identity", leaves)))
    }

    /// What to send to subscribe to a channel. The current values come back first, so this also
    /// asks for them.
    pub fn subscribe_request(channel: u16) -> (r: String)
        ensures
            r@ == json::spelled(subscribe_order(channel)),
    {
        let mut items: Vec<Value> = Vec::new();
        items.push(subscription_value(channel));
        let list = json::list(items);
        assert(json::contents(list)->List_0 =~= seq![subscription(channel)]);
        proof {
            reveal_strlit("osc");
            reveal_strlit("state");
            reveal_strlit("subscribe");
            let subscriptions = json::contents(list);
            subscription_is_plain(channel);
            assert(json::plain(subscriptions));
            one_is_plain("subscribe"@, subscriptions);
            one_is_plain("state"@, one("subscribe"@, subscriptions));
            one_is_plain("osc"@, one("state"@, one("subscribe"@, subscriptions)));
        }
        json::to_text(&wrap("osc", wrap("state", wrap("subscribe", list))))
    }

    /// What to send to mute a channel, or to unmute it.
    pub fn set_mute(channel: u16, muted: bool) -> (r: String)
        ensures
            r@ == json::spelled(mute_order(channel, muted)),
    {
        let rx = numbered("rx", channel);
        proof {
            reveal_strlit("rx");
            reveal_strlit("mute");
            numbered_is_plain("rx"@, channel as nat);
            one_is_plain("mute"@, JsonModel::Bool(muted));
            one_is_plain(rx@, one("mute"@, JsonModel::Bool(muted)));
        }
        json::to_text(&wrap(rx.as_str(), wrap("mute", json::boolean(muted))))
    }

    /// Whether a query of a channel is over, `polls` looks after its request was sent.
    pub fn get_state(&self, channel: u16, polls: u32) -> (r: Option<Result<MicState, AdapterError>>)
        ensures
            match r {
                Some(Ok(state)) => self.known().channels.contains_key(channel) && state
                    == self.known().channels[channel],
                Some(Err(e)) => !self.known().channels.contains_key(channel) && polls
                    >= mic::MAX_POLLS && e@ == AdapterErrorModel::Protocol(
                    mic::no_reply_text(channel),
                ),
                None => !self.known().channels.contains_key(channel) && polls < mic::MAX_POLLS,
            },
    {
        mic::query_outcome(&self.channels, channel, polls)
    }

    /// Whether a query of the identity is over, `polls` looks after its request was sent.
    pub fn identify(&self, polls: u32) -> (r: Option<Result<DeviceInfo, AdapterError>>)
        ensures
            match r {
                Some(Ok(info)) => self.known().identity is Some && info@ == (DeviceInfoModel {
                    vendor: self.known().identity->Some_0.vendor,
                    model: self.known().identity->Some_0.product,
                    address: self.address(),
                }),
                Some(Err(e)) => self.known().identity is None && polls >= mic::MAX_POLLS && e@
                    == AdapterErrorModel::Protocol("no reply for device identity"@),
                None => self.known().identity is None && polls < mic::MAX_POLLS,
            },
    {
        match &self.identity {
            Some(i) => Some(
                Ok(
                    DeviceInfo {
                        vendor: i.vendor.clone(),
                        model: i.product.clone(),
                        address: self.remote,
                    },
                ),
            ),
            None => {
                if polls < mic::MAX_POLLS {
                    None
                } else {
                    Some(Err(AdapterError::protocol("no reply for device identity")))
                }
            },
        }
    }

    fn apply_identity(&mut self, vendor: &Option<String>, product: &Option<String>)
        ensures
            final(self).name() == old(self).name(),
            final(self).address() == old(self).address(),
            final(self).known() == old(self).known().after(
                UpdateModel::Identity {
                    vendor: text::opt_text(*vendor),
                    product: text::opt_text(*product),
                },
            ),
    {
        let mut entry = match &self.identity {
            Some(i) => Identity { vendor: i.vendor.clone(), product: i.product.clone() },
            None => Identity { vendor: String::new(), product: String::new() },
        };
        assert(self.identity is None ==> entry@ == (IdentityModel {
            vendor: seq![],
            product: seq![],
        }));
        if let Some(v) = clone_opt(vendor) {
            entry.vendor = v;
        }
        if let Some(p) = clone_opt(product) {
            entry.product = p;
        }
        self.identity = Some(entry);
    }

    fn apply_channel(&mut self, channel: u16, update: &Update)
        requires
            update@.of() == Some(channel),
        ensures
            final(self).name() == old(self).name(),
            final(self).address() == old(self).address(),
            final(self).known().identity == old(self).known().identity,
            final(self).known().channels == old(self).known().channels.insert(
                channel,
                update@.on(mic::known(old(self).known().channels, channel)),
            ),
    {
        let mut state = self.channels.get_or_empty(channel);
        match update {
            Update::Mute { muted, .. } => {
                state.muted = *muted;
            },
            Update::Frequency { khz, .. } => {
                state.frequency_khz = Some(*khz);
            },
            Update::Rssi { dbm, .. } => {
                state.rf_level_dbm = Some(*dbm);
            },
            Update::Rsqi { percent, .. } => {
                state.rf_quality_percent = Some(*percent);
            },
            Update::Divi { antenna, .. } => {
                state.antenna = *antenna;
            },
            Update::Af { dbfs, .. } => {
                state.audio_level_dbfs = Some(*dbfs);
            },
            Update::BatteryGauge { percent, .. } => {
                state.battery_percent = *percent;
            },
            Update::BatteryLifetime { minutes, .. } => {
                state.battery_minutes_remaining = *minutes;
            },
            Update::Identity { .. } => {},
        }
        self.channels.set(channel, state);
    }

    fn apply(&mut self, update: &Update, touched: &mut Vec<u16>)
        ensures
            final(self).name() == old(self).name(),
            final(self).address() == old(self).address(),
            (Knowledge { touched: final(touched)@, ..final(self).known() }) == (Knowledge {
                touched: old(touched)@,
                ..old(self).known()
            }).after(update@),
    {
        let channel: u16 = match update {
            Update::Mute { channel, .. } => *channel,
            Update::Frequency { channel, .. } => *channel,
            Update::Rssi { channel, .. } => *channel,
            Update::Rsqi { channel, .. } => *channel,
            Update::Divi { channel, .. } => *channel,
            Update::Af { channel, .. } => *channel,
            Update::BatteryGauge { channel, .. } => *channel,
            Update::BatteryLifetime { channel, .. } => *channel,
            Update::Identity { vendor, product } => {
                self.apply_identity(vendor, product);
                return;
            },
        };
        self.apply_channel(channel, update);
        let mut i: usize = 0;
        let mut seen: bool = false;
        while i < touched.len() && !seen
            invariant
                i <= touched.len(),
                touched@ == old(touched)@,
                seen ==> touched@.contains(channel),
                !seen ==> forall|j: int| 0 <= j < i ==> #[trigger] touched@[j] != channel,
            decreases touched.len() - i,
        {
            if touched[i] == channel {
                assert(touched@[i as int] == channel);
                seen = true;
            }
            i = i + 1;
        }
        if !seen {
            touched.push(channel);
        }
    }

    /// Takes in a reply. Gives the events that it brings, one for each channel that it touches.
    pub fn receive_reply(&mut self, root: &Json) -> (r: Vec<MicEvent>)
        ensures
            final(self).name() == old(self).name(),
            final(self).address() == old(self).address(),
            ({
                let after = old(self).known().after_all(updates_in(root@));
                final(self).known() == (Knowledge { touched: seq![], ..after })
                    && mic::event_models(r@) == after.events(old(self).name())
            }),
    {
        let updates = extract_updates(root);
        let ghost all = updates_in(root@);
        let ghost start = self.known();
        let mut touched: Vec<u16> = Vec::new();
        let mut i: usize = 0;
        assert(all.take(0) =~= seq![]);
        assert((Knowledge { touched: touched@, ..self.known() }) =~= start);
        while i < updates.len()
            invariant
                i <= updates.len(),
                all == update_models(updates@),
                start == old(self).known(),
                self.name() == old(self).name(),
                self.address() == old(self).address(),
                (Knowledge { touched: touched@, ..self.known() }) == start.after_all(
                    all.take(i as int),
                ),
            decreases updates.len() - i,
        {
            assert(all.take(i + 1).drop_last() =~= all.take(i as int));
            assert(all.take(i + 1).last() == updates@[i as int]@);
            self.apply(&updates[i], &mut touched);
            i = i + 1;
        }
        assert(all.take(i as int) =~= all);
        let ghost after = start.after_all(all);
        proof {
            a_touched_channel_is_published_once(start, all);
        }
        let mut events: Vec<MicEvent> = Vec::new();
        let mut n: usize = 0;
        while n < touched.len()
            invariant
                n <= touched.len(),
                after == (Knowledge { touched: touched@, ..self.known() }),
                self.name() == old(self).name(),
                self.address() == old(self).address(),
                forall|j: int|
                    0 <= j < touched@.len() ==> after.channels.contains_key(
                        #[trigger] after.touched[j],
                    ),
                mic::event_models(events@) =~= after.events(self.name()).take(n as int),
            decreases touched.len() - n,
        {
            let channel: u16 = touched[n];
            assert(after.channels.contains_key(after.touched[n as int]));
            let ghost done = mic::event_models(events@);
            let event = MicEvent {
                address: MicAddress::new(self.id.as_str(), channel),
                state: self.channels.get_or_empty(channel),
            };
            events.push(event);
            assert(mic::event_models(events@) =~= done.push(event@));
            n = n + 1;
        }
        assert(after.events(self.name()).take(n as int) =~= after.events(self.name()));
        events
    }

    /// Takes in a datagram. One that is no JSON brings nothing.
    pub fn receive(&mut self, datagram: &[u8]) -> (r: Vec<MicEvent>)
        ensures
            final(self).name() == old(self).name(),
            final(self).address() == old(self).address(),
            match json::json_read(datagram@) {
                Some(root) => {
                    let after = old(self).known().after_all(updates_in(root));
                    final(self).known() == (Knowledge { touched: seq![], ..after })
                        && mic::event_models(r@) == after.events(old(self).name())
                },
                None => *final(self) == *old(self) && r@.len() == 0,
            },
    {
        match parse_json(datagram) {
            Some(root) => self.receive_reply(&root),
            None => Vec::new(),
        }
    }
}

// ---------------------------------------------------------------------------
// Laws
// ---------------------------------------------------------------------------

/// The member of an object under a key is the first that has it; a value that is no object has none.
pub proof fn a_member_is_found_by_its_key(
    members: Seq<(Seq<char>, JsonModel)>,
    key: Seq<char>,
    i: int,
    v: JsonModel,
)
    ensures
        0 <= i < members.len() && members[i].0 == key && (forall|j: int|
            0 <= j < i ==> (#[trigger] members[j]).0 != key) ==> member(
            JsonModel::Object(members),
            key,
        ) == Some(members[i].1),
        (forall|j: int| 0 <= j < members.len() ==> (#[trigger] members[j]).0 != key) ==> member(
            JsonModel::Object(members),
            key,
        ) is None,
        !(v is Object) ==> member(v, key) is None,
    decreases members.len(),
{
    if members.len() > 0 {
        let rest = members.skip(1);
        a_member_is_found_by_its_key(rest, key, i - 1, v);
        if forall|j: int| 0 <= j < members.len() ==> (#[trigger] members[j]).0 != key {
            assert(members[0].0 != key);
            assert forall|j: int| 0 <= j < rest.len() implies (#[trigger] rest[j]).0 != key by {
                assert(rest[j] == members[j + 1]);
            }
        }
        if 0 < i < members.len() && members[i].0 == key && (forall|j: int|
            0 <= j < i ==> (#[trigger] members[j]).0 != key) {
            assert(members[0].0 != key);
            assert(rest[i - 1] == members[i]);
            assert forall|j: int| 0 <= j < i - 1 implies (#[trigger] rest[j]).0 != key by {
                assert(rest[j] == members[j + 1]);
            }
        }
    }
}

/// A member is told by its key and its type: what is of another type is not taken.
pub proof fn values_are_taken_by_their_type(v: JsonModel, key: Seq<char>, b: bool, n: u64, x: Reading, t: Seq<char>)
    ensures
        member(v, key) == Some(JsonModel::Bool(b)) ==> bool_at(v, key) == Some(b) && number_at(
            v,
            key,
        ) is None && count_at(v, key) is None && text_at(v, key) is None,
        member(v, key) == Some(JsonModel::Number(x)) ==> number_at(v, key) == Some(x) && bool_at(
            v,
            key,
        ) is None && text_at(v, key) is None,
        member(v, key) == Some(JsonModel::Number(Reading::Unsigned(n))) ==> count_at(v, key) == Some(
            n,
        ),
        member(v, key) == Some(JsonModel::Number(x)) && !(x is Unsigned) ==> count_at(v, key)
            is None,
        member(v, key) == Some(JsonModel::Text(t)) ==> text_at(v, key) == Some(t) && number_at(
            v,
            key,
        ) is None && bool_at(v, key) is None && count_at(v, key) is None,
        member(v, key) is None || member(v, key) == Some(JsonModel::Null) ==> bool_at(v, key)
            is None && number_at(v, key) is None && count_at(v, key) is None && text_at(v, key)
            is None,
{
}

/// A key with a number behind it gives that number; one without, or with another front, gives none.
pub proof fn a_key_gives_its_number(prefix: Seq<char>, n: u16, key: Seq<char>)
    ensures
        index_in(prefix + text::decimal(n as nat), prefix) == Some(n),
        !text::has_prefix(key, prefix) ==> index_in(key, prefix) is None,
        index_in(prefix, prefix) is None,
{
    let d = text::decimal(n as nat);
    let whole = prefix + d;
    text::decimal_reads_back(n as nat, 0xffff);
    text::prefixes_and_suffixes(prefix, d, whole);
    assert(whole.skip(prefix.len() as int) =~= d);
    assert(prefix.skip(prefix.len() as int) =~= Seq::<char>::empty());
    text::signs_are_read(0, 0xffff, seq![]);
}

/// The codes of the antennas.
pub proof fn antennas_have_their_codes(n: int)
    ensures
        antenna_of(0) == Some(AntennaDiversity::Inactive),
        antenna_of(1) == Some(AntennaDiversity::A),
        antenna_of(2) == Some(AntennaDiversity::B),
        n < 0 || n > 2 ==> antenna_of(n) is None,
{
}

/// What is known after an update of a channel: the value that it is of, all else of the channel as it
/// was, and nothing of another channel. The channel is then touched.
pub proof fn an_update_is_then_known(
    k: Knowledge,
    channel: u16,
    muted: bool,
    x: Reading,
    percent: u8,
    antenna: Option<AntennaDiversity>,
    charge: Option<u8>,
    minutes: Option<u16>,
)
    ensures
        ({
            let before = mic::known(k.channels, channel);
            &&& k.after(UpdateModel::Mute { channel, muted }).channels == k.channels.insert(
                channel,
                MicState { muted, ..before },
            )
            &&& k.after(UpdateModel::Frequency { channel, khz: x }).channels == k.channels.insert(
                channel,
                MicState { frequency_khz: Some(x), ..before },
            )
            &&& k.after(UpdateModel::Rssi { channel, dbm: x }).channels == k.channels.insert(
                channel,
                MicState { rf_level_dbm: Some(x), ..before },
            )
            &&& k.after(UpdateModel::Rsqi { channel, percent }).channels == k.channels.insert(
                channel,
                MicState { rf_quality_percent: Some(percent), ..before },
            )
            &&& k.after(UpdateModel::Divi { channel, antenna }).channels == k.channels.insert(
                channel,
                MicState { antenna, ..before },
            )
            &&& k.after(UpdateModel::Af { channel, dbfs: x }).channels == k.channels.insert(
                channel,
                MicState { audio_level_dbfs: Some(x), ..before },
            )
            &&& k.after(UpdateModel::BatteryGauge { channel, percent: charge }).channels
                == k.channels.insert(channel, MicState { battery_percent: charge, ..before })
            &&& k.after(UpdateModel::BatteryLifetime { channel, minutes }).channels
                == k.channels.insert(
                channel,
                MicState { battery_minutes_remaining: minutes, ..before },
            )
        }),
        k.after(UpdateModel::Mute { channel, muted }).touched.contains(channel),
        k.after(UpdateModel::Mute { channel, muted }).identity == k.identity,
        k.touched.contains(channel) ==> k.after(UpdateModel::Mute { channel, muted }).touched
            == k.touched,
{
    let now = k.after(UpdateModel::Mute { channel, muted }).touched;
    if !k.touched.contains(channel) {
        assert(now[now.len() - 1] == channel);
    }
}

/// What a reply tells of the identity replaces what it tells of, and leaves the other part; of a device
/// that never told a part, that part is empty.
pub proof fn an_identity_is_then_known(
    k: Knowledge,
    vendor: Option<Seq<char>>,
    product: Option<Seq<char>>,
)
    ensures
        ({
            let now = k.after(UpdateModel::Identity { vendor, product });
            &&& now.identity is Some
            &&& vendor is Some ==> now.identity->Some_0.vendor == vendor->Some_0
            &&& product is Some ==> now.identity->Some_0.product == product->Some_0
            &&& vendor is None && k.identity is Some ==> now.identity->Some_0.vendor
                == k.identity->Some_0.vendor
            &&& product is None && k.identity is Some ==> now.identity->Some_0.product
                == k.identity->Some_0.product
            &&& vendor is None && k.identity is None ==> now.identity->Some_0.vendor.len() == 0
            &&& product is None && k.identity is None ==> now.identity->Some_0.product.len() == 0
            &&& now.channels == k.channels
            &&& now.touched == k.touched
        }),
{
}

/// Updates take effect in order.
pub proof fn updates_take_effect_in_order(
    k: Knowledge,
    first: Seq<UpdateModel>,
    second: Seq<UpdateModel>,
    u: UpdateModel,
)
    ensures
        k.after_all(first + second) == k.after_all(first).after_all(second),
        k.after_all(seq![u]) == k.after(u),
        k.after_all(seq![]) == k,
    decreases second.len(),
{
    assert(seq![u].drop_last() =~= Seq::<UpdateModel>::empty());
    assert(k.after_all(seq![u].drop_last()) == k);
    if second.len() == 0 {
        assert(first + second =~= first);
    } else {
        assert((first + second).drop_last() =~= first + second.drop_last());
        updates_take_effect_in_order(k, first, second.drop_last(), u);
    }
}

/// The members of a reply, of the meters and of the transmitters are taken in order, all of them.
pub proof fn members_are_taken_in_order(
    first: Seq<(Seq<char>, JsonModel)>,
    second: Seq<(Seq<char>, JsonModel)>,
    key: Seq<char>,
    v: JsonModel,
)
    ensures
        updates_in(JsonModel::Object(first + second)) == updates_in(JsonModel::Object(first))
            + updates_in(JsonModel::Object(second)),
        all_meter_updates(first + second) == all_meter_updates(first) + all_meter_updates(second),
        all_battery_updates(first + second) == all_battery_updates(first) + all_battery_updates(
            second,
        ),
        updates_in(one(key, v)) == member_updates(key, v),
        index_in(key, "rx"@) is Some ==> all_meter_updates(seq![(key, v)]) == meter_updates(
            index_in(key, "rx"@)->Some_0,
            v,
        ),
        index_in(key, "tx"@) is Some ==> all_battery_updates(seq![(key, v)]) == battery_updates(
            index_in(key, "tx"@)->Some_0,
            v,
        ),
        index_in(key, "rx"@) is None ==> all_meter_updates(seq![(key, v)]).len() == 0,
        index_in(key, "tx"@) is None ==> all_battery_updates(seq![(key, v)]).len() == 0,
    decreases second.len(),
{
    let single = seq![(key, v)];
    assert(single.drop_last() =~= Seq::<(Seq<char>, JsonModel)>::empty());
    reveal_with_fuel(reply_updates, 2);
    reveal_with_fuel(all_meter_updates, 2);
    reveal_with_fuel(all_battery_updates, 2);
    assert(reply_updates(single) =~= member_updates(key, v));
    if index_in(key, "rx"@) is Some {
        assert(all_meter_updates(single) =~= meter_updates(index_in(key, "rx"@)->Some_0, v));
    }
    if index_in(key, "tx"@) is Some {
        assert(all_battery_updates(single) =~= battery_updates(index_in(key, "tx"@)->Some_0, v));
    }
    if second.len() == 0 {
        assert(first + second =~= first);
        assert(reply_updates(first) + reply_updates(second) =~= reply_updates(first));
        assert(all_meter_updates(first) + all_meter_updates(second) =~= all_meter_updates(first));
        assert(all_battery_updates(first) + all_battery_updates(second) =~= all_battery_updates(
            first,
        ));
    } else {
        let less = second.drop_last();
        assert((first + second).drop_last() =~= first + less);
        members_are_taken_in_order(first, less, key, v);
        assert(reply_updates(first + second) =~= reply_updates(first) + reply_updates(second));
        assert(all_meter_updates(first + second) =~= all_meter_updates(first) + all_meter_updates(
            second,
        ));
        assert(all_battery_updates(first + second) =~= all_battery_updates(first)
            + all_battery_updates(second));
    }
}

proof fn lemma_keys(channel: u16)
    ensures
        index_in("rx"@ + text::decimal(channel as nat), "rx"@) == Some(channel),
        index_in("tx"@ + text::decimal(channel as nat), "tx"@) == Some(channel),
        index_in("m"@, "rx"@) is None,
        index_in("mates"@, "rx"@) is None,
        index_in("device"@, "rx"@) is None,
        "m"@ != "mates"@ && "m"@ != "device"@ && "mates"@ != "device"@,
{
    reveal_strlit("rx");
    reveal_strlit("tx");
    reveal_strlit("m");
    reveal_strlit("mates");
    reveal_strlit("device");
    a_key_gives_its_number("rx"@, channel, seq![]);
    a_key_gives_its_number("tx"@, channel, seq![]);
    assert("mates"@.subrange(0, 2)[0] == 'm');
    assert("device"@.subrange(0, 2)[0] == 'd');
    assert("rx"@[0] == 'r');
    assert("mates"@.len() == 5 && "device"@.len() == 6 && "m"@.len() == 1);
}

proof fn lemma_one_member(key: Seq<char>, v: JsonModel, other: Seq<char>)
    ensures
        member(one(key, v), key) == Some(v),
        other != key ==> member(one(key, v), other) is None,
{
    let members = seq![(key, v)];
    a_member_is_found_by_its_key(members, key, 0, v);
    a_member_is_found_by_its_key(members, other, 0, v);
}

/// A reply about a receiver channel makes its mute and its frequency known: the mute if it is a truth
/// value, the frequency if it is a number. So the request that mutes a channel, come back, makes the
/// mute known that it asked for.
pub proof fn a_receivers_reply_is_then_known(
    k: Knowledge,
    channel: u16,
    muted: bool,
    khz: Reading,
)
    ensures
        k.after_all(updates_in(mute_order(channel, muted))).channels == k.channels.insert(
            channel,
            MicState { muted, ..mic::known(k.channels, channel) },
        ),
        k.after_all(
            updates_in(
                one(
                    "rx"@ + text::decimal(channel as nat),
                    one("frequency"@, JsonModel::Number(khz)),
                ),
            ),
        ).channels == k.channels.insert(
            channel,
            MicState { frequency_khz: Some(khz), ..mic::known(k.channels, channel) },
        ),
{
    let key = "rx"@ + text::decimal(channel as nat);
    lemma_keys(channel);
    reveal_strlit("mute");
    reveal_strlit("frequency");
    assert("mute"@.len() != "frequency"@.len());
    let mute = one("mute"@, JsonModel::Bool(muted));
    let frequency = one("frequency"@, JsonModel::Number(khz));
    lemma_one_member("mute"@, JsonModel::Bool(muted), "frequency"@);
    lemma_one_member("frequency"@, JsonModel::Number(khz), "mute"@);
    members_are_taken_in_order(seq![], seq![], key, mute);
    members_are_taken_in_order(seq![], seq![], key, frequency);
    assert(receiver_updates(channel, mute) =~= seq![UpdateModel::Mute { channel, muted }]);
    assert(receiver_updates(channel, frequency) =~= seq![UpdateModel::Frequency { channel, khz }]);
    updates_take_effect_in_order(k, seq![], seq![], UpdateModel::Mute { channel, muted });
    updates_take_effect_in_order(k, seq![], seq![], UpdateModel::Frequency { channel, khz });
}

/// A reply about a channel's meters makes each reading known under its own name: the level, the quality,
/// the antenna, the audio level. A quality keeps the low eight bits of the number.
pub proof fn a_meter_is_then_known(k: Knowledge, channel: u16, x: Reading, n: u64)
    ensures
        ({
            let rx = "rx"@ + text::decimal(channel as nat);
            let before = mic::known(k.channels, channel);
            let count = JsonModel::Number(Reading::Unsigned(n));
            &&& k.after_all(
                updates_in(one("m"@, one(rx, one("rssi"@, JsonModel::Number(x))))),
            ).channels == k.channels.insert(
                channel,
                MicState { rf_level_dbm: Some(x), ..before },
            )
            &&& k.after_all(updates_in(one("m"@, one(rx, one("rsqi"@, count))))).channels
                == k.channels.insert(
                channel,
                MicState { rf_quality_percent: Some((n % 256) as u8), ..before },
            )
            &&& k.after_all(updates_in(one("m"@, one(rx, one("divi"@, count))))).channels
                == k.channels.insert(
                channel,
                MicState {
                    antenna: if n == 0 {
                        Some(AntennaDiversity::Inactive)
                    } else if n == 1 {
                        Some(AntennaDiversity::A)
                    } else if n == 2 {
                        Some(AntennaDiversity::B)
                    } else {
                        None
                    },
                    ..before
                },
            )
            &&& k.after_all(
                updates_in(one("m"@, one(rx, one("af"@, JsonModel::Number(x))))),
            ).channels == k.channels.insert(
                channel,
                MicState { audio_level_dbfs: Some(x), ..before },
            )
        }),
{
    let count = JsonModel::Number(Reading::Unsigned(n));
    lemma_meter(k, channel, "rssi"@, JsonModel::Number(x), UpdateModel::Rssi { channel, dbm: x });
    lemma_meter(
        k,
        channel,
        "rsqi"@,
        count,
        UpdateModel::Rsqi { channel, percent: (n % 256) as u8 },
    );
    lemma_meter(
        k,
        channel,
        "divi"@,
        count,
        UpdateModel::Divi { channel, antenna: antenna_of(n as int) },
    );
    lemma_meter(k, channel, "af"@, JsonModel::Number(x), UpdateModel::Af { channel, dbfs: x });
}

proof fn lemma_meter(k: Knowledge, channel: u16, name: Seq<char>, v: JsonModel, u: UpdateModel)
    requires
        v is Number,
        ({
            ||| name == "rssi"@ && u == (UpdateModel::Rssi { channel, dbm: v->Number_0 })
            ||| name == "af"@ && u == (UpdateModel::Af { channel, dbfs: v->Number_0 })
            ||| name == "rsqi"@ && v->Number_0 is Unsigned && u == (UpdateModel::Rsqi {
                channel,
                percent: (v->Number_0->Unsigned_0 % 256) as u8,
            })
            ||| name == "divi"@ && v->Number_0 is Unsigned && u == (UpdateModel::Divi {
                channel,
                antenna: antenna_of(v->Number_0->Unsigned_0 as int),
            })
        }),
    ensures
        k.after_all(
            updates_in(one("m"@, one("rx"@ + text::decimal(channel as nat), one(name, v)))),
        ) == k.after(u),
{
    reveal_strlit("rssi");
    reveal_strlit("rsqi");
    reveal_strlit("divi");
    reveal_strlit("af");
    assert("rssi"@[2] == 's' && "rsqi"@[2] == 'q' && "divi"@[2] == 'v' && "af"@.len() == 2);
    let key = "rx"@ + text::decimal(channel as nat);
    let inner = one(name, v);
    lemma_keys(channel);
    lemma_one_member(name, v, "rssi"@);
    lemma_one_member(name, v, "rsqi"@);
    lemma_one_member(name, v, "divi"@);
    lemma_one_member(name, v, "af"@);
    assert(meter_updates(channel, inner) =~= seq![u]);
    members_are_taken_in_order(seq![], seq![], key, inner);
    members_are_taken_in_order(seq![], seq![], "m"@, one(key, inner));
    updates_take_effect_in_order(k, seq![], seq![], u);
}

/// A reply about the transmitter of a channel makes the charge and the run time of its battery known,
/// each by the low bits of its number, and unknown where it is no count.
pub proof fn a_battery_is_then_known(k: Knowledge, channel: u16, battery: JsonModel)
    ensures
        k.after_all(
            updates_in(
                one(
                    "mates"@,
                    one("tx"@ + text::decimal(channel as nat), one("battery"@, battery)),
                ),
            ),
        ).channels == k.channels.insert(
            channel,
            MicState {
                battery_percent: match member(battery, "gauge"@) {
                    Some(JsonModel::Number(Reading::Unsigned(n))) => Some((n % 256) as u8),
                    _ => None,
                },
                battery_minutes_remaining: match member(battery, "lifetime"@) {
                    Some(JsonModel::Number(Reading::Unsigned(n))) => Some((n % 65536) as u16),
                    _ => None,
                },
                ..mic::known(k.channels, channel)
            },
        ),
{
    let key = "tx"@ + text::decimal(channel as nat);
    let inner = one("battery"@, battery);
    lemma_keys(channel);
    lemma_one_member("battery"@, battery, seq![]);
    members_are_taken_in_order(seq![], seq![], key, inner);
    members_are_taken_in_order(seq![], seq![], "mates"@, one(key, inner));
    let list = battery_updates(channel, inner);
    assert(list =~= seq![list[0]] + seq![list[1]]);
    updates_take_effect_in_order(k, seq![list[0]], seq![list[1]], list[0]);
    let mid = k.after(list[0]);
    updates_take_effect_in_order(mid, seq![], seq![], list[1]);
    assert(k.after_all(list) == mid.after(list[1]));
    assert(k.after_all(list).channels =~= k.channels.insert(
        channel,
        list[1].on(list[0].on(mic::known(k.channels, channel))),
    ));
}

/// A reply about the device makes its vendor and its product known, as far as they are texts.
pub proof fn an_identity_reply_is_then_known(k: Knowledge, identity: JsonModel)
    ensures
        ({
            let now = k.after_all(updates_in(one("device"@, one("identity"@, identity))));
            let vendor = text_at(identity, "vendor"@);
            let product = text_at(identity, "product"@);
            &&& vendor is Some ==> now.identity is Some && now.identity->Some_0.vendor
                == vendor->Some_0
            &&& product is Some ==> now.identity is Some && now.identity->Some_0.product
                == product->Some_0
            &&& vendor is None && product is None ==> now == k
            &&& now.channels == k.channels
        }),
{
    let inner = one("identity"@, identity);
    lemma_keys(0);
    lemma_one_member("identity"@, identity, seq![]);
    members_are_taken_in_order(seq![], seq![], "device"@, inner);
    let vendor = text_at(identity, "vendor"@);
    let product = text_at(identity, "product"@);
    updates_take_effect_in_order(k, seq![], seq![], UpdateModel::Identity { vendor, product });
}

/// A subscription asks for a channel's mute and frequency, for its four meters and for the battery of
/// the transmitter with its number.
pub proof fn a_subscription_asks_for_everything(channel: u16)
    ensures
        ({
            let s = subscription(channel);
            let rx = "rx"@ + text::decimal(channel as nat);
            let tx = "tx"@ + text::decimal(channel as nat);
            &&& s is Object && s->Object_0.len() == 4
            &&& s->Object_0[1] == ("m"@, one(
                rx,
                JsonModel::Object(
                    seq![
                        ("af"@, JsonModel::Null),
                        ("divi"@, JsonModel::Null),
                        ("rsqi"@, JsonModel::Null),
                        ("rssi"@, JsonModel::Null),
                    ],
                ),
            ))
            &&& s->Object_0[2].0 == "mates"@
            &&& s->Object_0[2].1 == one(
                tx,
                one(
                    "battery"@,
                    JsonModel::Object(
                        seq![("gauge"@, JsonModel::Null), ("lifetime"@, JsonModel::Null)],
                    ),
                ),
            )
            &&& s->Object_0[3] == (rx, JsonModel::Object(
                seq![("frequency"@, JsonModel::Null), ("mute"@, JsonModel::Null)],
            ))
            &&& s->Object_0[0].0 == "#"@
        }),
{
}

/// Every touched channel is told of in one event, with what is known of it.
pub proof fn touched_channels_are_told_of(k: Knowledge, id: Seq<char>, i: int)
    requires
        0 <= i < k.touched.len(),
    ensures
        k.events(id).len() == k.touched.len(),
        k.events(id)[i].address.device_id == id,
        k.events(id)[i].address.channel == k.touched[i],
        k.events(id)[i].state == k.channels[k.touched[i]],
{
}

/// The requests: muting names the channel and the setting, the identity is asked for by product and
/// vendor, and a subscription lasts 3600 seconds.
pub proof fn requests_name_what_they_ask_for(channel: u16, muted: bool)
    ensures
        mute_order(channel, muted) == JsonModel::Object(
            seq![
                (
                    "rx"@ + text::decimal(channel as nat),
                    JsonModel::Object(seq![("mute"@, JsonModel::Bool(muted))]),
                ),
            ],
        ),
        identity_query() == JsonModel::Object(
            seq![
                (
                    "device"@,
                    JsonModel::Object(
                        seq![
                            (
                                "identity"@,
                                JsonModel::Object(
                                    seq![
                                        ("product"@, JsonModel::Null),
                                        ("vendor"@, JsonModel::Null),
                                    ],
                                ),
                            ),
                        ],
                    ),
                ),
            ],
        ),
        subscription(channel)->Object_0[0].1 == JsonModel::Object(
            seq![("lifetime"@, JsonModel::Number(Reading::Unsigned(3600)))],
        ),
        ({
            let list = JsonModel::List(seq![subscription(channel)]);
            let state = JsonModel::Object(seq![("subscribe"@, list)]);
            let osc = JsonModel::Object(seq![("state"@, state)]);
            subscribe_order(channel) == JsonModel::Object(seq![("osc"@, osc)])
        }),
{
}

} // verus!
