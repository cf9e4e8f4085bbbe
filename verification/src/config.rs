//! The configuration of the bridge: its devices, and the channels that are linked.
use vstd::prelude::*;

use crate::address::IpAddress;
use crate::bridge::channel_mapping::ChannelMapping;
use crate::text;
use crate::text::{among, find_repeated};

verus! {

/// The kinds of device.
#[derive(Debug, Clone, Copy, PartialEq, Eq, Structural)]
pub enum DeviceKind {
    OscX32,
    OscWing,
    AhTcp,
    DliveTcp,
    AhMidi,
    YamahaDm3,
    Yamaha,
}

/// One device.
#[derive(Debug, Clone)]
pub struct DeviceConfig {
    pub id: String,
    pub kind: DeviceKind,
    pub address: IpAddress,
    pub port: Option<u16>,
}

/// A whole configuration.
#[derive(Debug, Clone)]
pub struct Config {
    pub devices: Vec<DeviceConfig>,
    pub mappings: Vec<ChannelMapping>,
}

/// The ids of a list of devices.
pub open spec fn device_ids(v: Seq<DeviceConfig>) -> Seq<Seq<char>> {
    v.map_values(|d: DeviceConfig| d.id@)
}

/// Why a mapping is refused: the first of its two ends that names no device.
pub open spec fn mapping_fault(m: ChannelMapping, ids: Seq<Seq<char>>) -> Option<Seq<char>> {
    if !ids.contains(m.from.device_id@) {
        Some("mapping references unknown device id '"@ + m.from.device_id@ + "'"@)
    } else if !ids.contains(m.to.device_id@) {
        Some("mapping references unknown device id '"@ + m.to.device_id@ + "'"@)
    } else {
        None
    }
}

/// Why the first mapping that is refused, from `i` on, is.
pub open spec fn mappings_fault(v: Seq<ChannelMapping>, ids: Seq<Seq<char>>, i: int) -> Option<
    Seq<char>,
>
    decreases v.len() - i,
{
    if i >= v.len() {
        None
    } else {
        match mapping_fault(v[i], ids) {
            Some(why) => Some(why),
            None => mappings_fault(v, ids, i + 1),
        }
    }
}

/// Why a configuration is refused: an id that two devices have, or else a mapping that names a
/// device which is not there.
pub open spec fn fault(c: Config) -> Option<Seq<char>> {
    let ids = device_ids(c.devices@);
    match text::first_repeated(ids, 0) {
        Some(k) => Some("duplicate device id '"@ + ids[k] + "' in config"@),
        None => mappings_fault(c.mappings@, ids, 0),
    }
}

fn quoted(before: &str, id: &str, after: &str) -> (r: String)
    ensures
        r@ == before@ + id@ + after@,
{
    let mut out: String = before.to_owned();
    out.append(id);
    out.append(after);
    out
}

impl Config {
    /// Checks that no two devices have one id, and that the mappings name devices.
    pub fn validate(&self) -> (r: Result<(), String>)
        ensures
            match r {
                Ok(_) => fault(*self) is None,
                Err(why) => fault(*self) == Some(why@),
            },
    {
        let mut ids: Vec<String> = Vec::new();
        let mut i: usize = 0;
        while i < self.devices.len()
            invariant
                i <= self.devices.len(),
                text::texts(ids@) =~= device_ids(self.devices@).take(i as int),
            decreases self.devices.len() - i,
        {
            let ghost before = text::texts(ids@);
            let id = self.devices[i].id.clone();
            ids.push(id);
            assert(text::texts(ids@) =~= before.push(id@));
            i = i + 1;
        }
        let ghost names = device_ids(self.devices@);
        assert(names.take(i as int) =~= names);
        if let Some(k) = find_repeated(ids.as_slice()) {
            assert(text::texts(ids@)[k as int] == ids@[k as int]@);
            return Err(quoted("duplicate device id '", ids[k].as_str(), "' in config"));
        }
        let count: usize = ids.len();
        let mut n: usize = 0;
        assert(text::texts(ids@).take(count as int) =~= text::texts(ids@));
        while n < self.mappings.len()
            invariant
                n <= self.mappings.len(),
                count == ids@.len(),
                names == device_ids(self.devices@),
                text::texts(ids@) == names,
                text::texts(ids@).take(count as int) == text::texts(ids@),
                text::first_repeated(names, 0) is None,
                mappings_fault(self.mappings@, names, n as int) == mappings_fault(
                    self.mappings@,
                    names,
                    0,
                ),
            decreases self.mappings.len() - n,
        {
            let from = self.mappings[n].from.device_id.as_str();
            if !among(ids.as_slice(), count, from) {
                return Err(quoted("mapping references unknown device id '", from, "'"));
            }
            let to = self.mappings[n].to.device_id.as_str();
            if !among(ids.as_slice(), count, to) {
                return Err(quoted("mapping references unknown device id '", to, "'"));
            }
            n = n + 1;
        }
        Ok(())
    }

    /// Puts what was read of a changed file in force. Where it did not read, or is refused, what was
    /// in force stays so, and the reason is given.
    pub fn reload(&mut self, read: Result<Config, String>) -> (r: Result<(), String>)
        ensures
            match read {
                Ok(c) => match fault(c) {
                    None => r is Ok && *final(self) == c,
                    Some(why) => r is Err && r->Err_0@ == why && *final(self) == *old(self),
                },
                Err(why) => r is Err && r->Err_0@ == why@ && *final(self) == *old(self),
            },
            fault(*old(self)) is None ==> fault(*final(self)) is None,
    {
        match read {
            Ok(c) => match c.validate() {
                Ok(_) => {
                    *self = c;
                    Ok(())
                },
                Err(why) => Err(why),
            },
            Err(why) => Err(why),
        }
    }
}

proof fn lemma_no_mapping_fault(v: Seq<ChannelMapping>, ids: Seq<Seq<char>>, i: int)
    requires
        0 <= i <= v.len(),
    ensures
        mappings_fault(v, ids, i) is None <==> forall|j: int|
            i <= j < v.len() ==> ids.contains((#[trigger] v[j]).from.device_id@) && ids.contains(
                v[j].to.device_id@,
            ),
    decreases v.len() - i,
{
    if i < v.len() {
        lemma_no_mapping_fault(v, ids, i + 1);
        if mapping_fault(v[i], ids) is Some {
            assert(!(ids.contains(v[i].from.device_id@) && ids.contains(v[i].to.device_id@)));
        }
    }
}

/// A configuration is accepted exactly if its ids are distinct and its mappings name devices of
/// it.
pub proof fn what_is_accepted(c: Config)
    ensures
        fault(c) is None <==> device_ids(c.devices@).no_duplicates() && forall|j: int|
            0 <= j < c.mappings@.len() ==> device_ids(c.devices@).contains(
                (#[trigger] c.mappings@[j]).from.device_id@,
            ) && device_ids(c.devices@).contains(c.mappings@[j].to.device_id@),
{
    let ids = device_ids(c.devices@);
    assert(ids.take(0).no_duplicates());
    text::a_repeat_is_a_duplicate(ids, 0);
    lemma_no_mapping_fault(c.mappings@, ids, 0);
}

/// A refusal names what is wrong: an id that another device before it has, the first there is; or the
/// end of the first wrong mapping that names no device, its source before its target.
pub proof fn a_refusal_names_what_is_wrong(c: Config, k: int)
    ensures
        fault(c) is Some && !device_ids(c.devices@).no_duplicates() ==> exists|i: int, j: int|
            0 <= j < i < c.devices@.len() && (#[trigger] c.devices@[i]).id@ == (
            #[trigger] c.devices@[j]).id@ && fault(c) == Some(
                "duplicate device id '"@ + c.devices@[i].id@ + "' in config"@,
            ),
        device_ids(c.devices@).no_duplicates() && 0 <= k < c.mappings@.len() && (forall|j: int|
            0 <= j < k ==> device_ids(c.devices@).contains(
                (#[trigger] c.mappings@[j]).from.device_id@,
            ) && device_ids(c.devices@).contains(c.mappings@[j].to.device_id@)) ==> {
            &&& !device_ids(c.devices@).contains(c.mappings@[k].from.device_id@) ==> fault(c)
                == Some(
                "mapping references unknown device id '"@ + c.mappings@[k].from.device_id@ + "'"@,
            )
            &&& device_ids(c.devices@).contains(c.mappings@[k].from.device_id@) && !device_ids(
                c.devices@,
            ).contains(c.mappings@[k].to.device_id@) ==> fault(c) == Some(
                "mapping references unknown device id '"@ + c.mappings@[k].to.device_id@ + "'"@,
            )
        },
{
    let ids = device_ids(c.devices@);
    assert(ids.take(0) =~= Seq::<Seq<char>>::empty());
    text::a_repeat_is_a_duplicate(ids, 0);
    if text::first_repeated(ids, 0) is Some {
        text::the_first_repeat_is_first(ids, 0);
        let i = text::first_repeated(ids, 0)->0;
        let j = choose|j: int| 0 <= j < i && #[trigger] ids[j] == ids[i];
        assert(c.devices@[i].id@ == c.devices@[j].id@);
    } else if 0 <= k < c.mappings@.len() && (forall|j: int|
        0 <= j < k ==> ids.contains((#[trigger] c.mappings@[j]).from.device_id@) && ids.contains(
            c.mappings@[j].to.device_id@,
        )) {
        lemma_first_mapping_fault(c.mappings@, ids, 0, k);
    }
}

proof fn lemma_first_mapping_fault(v: Seq<ChannelMapping>, ids: Seq<Seq<char>>, i: int, k: int)
    requires
        0 <= i <= k < v.len(),
        forall|j: int|
            i <= j < k ==> ids.contains((#[trigger] v[j]).from.device_id@) && ids.contains(
                v[j].to.device_id@,
            ),
    ensures
        mapping_fault(v[k], ids) is Some ==> mappings_fault(v, ids, i) == mapping_fault(v[k], ids),
    decreases k - i,
{
    if i < k {
        assert(ids.contains(v[i].from.device_id@));
        lemma_first_mapping_fault(v, ids, i + 1, k);
    }
}

} // verus!
