//! Dante devices on the network: who advertises, and what they say of their routing.
use vstd::prelude::*;

use crate::address::IpAddress;
use crate::text;
use crate::text::{chars_of, find_from, match_at, text_eq};

pub mod dante_control;

verus! {

pub const DANTE_ARC_SERVICE: &'static str = "_netaudio-arc._udp.local.";

pub const DANTE_CHAN_SERVICE: &'static str = "_netaudio-chan._udp.local.";

/// A device that advertises itself. That says only that it exists; who made it and how its
/// preamps are controlled is unknown until an adapter has identified it.
#[derive(Debug, Clone, PartialEq, Eq)]
pub struct DanteDevice {
    /// The service instance's full name, which ends with the service type.
    pub name: String,
    pub addresses: Vec<IpAddress>,
    pub port: u16,
}

/// The names of a list of devices.
pub open spec fn names(v: Seq<DanteDevice>) -> Seq<Seq<char>> {
    v.map_values(|d: DanteDevice| d.name@)
}

/// Takes in a resolved advertisement. One whose name was heard already changes nothing.
pub fn add_resolved(found: &mut Vec<DanteDevice>, device: DanteDevice)
    ensures
        final(found)@ == (if names(old(found)@).contains(device.name@) {
            old(found)@
        } else {
            old(found)@.push(device)
        }),
{
    let mut i: usize = 0;
    let ghost before = found@;
    while i < found.len()
        invariant
            i <= found.len(),
            found@ == before,
            before == old(found)@,
            forall|j: int| 0 <= j < i ==> #[trigger] before[j].name@ != device.name@,
        decreases found.len() - i,
    {
        if text_eq(found[i].name.as_str(), device.name.as_str()) {
            assert(names(before)[i as int] == device.name@);
            return;
        }
        i = i + 1;
    }
    proof {
        if names(before).contains(device.name@) {
            let j = names(before).index_of(device.name@);
            assert(before[j].name@ == device.name@);
        }
    }
    found.push(device);
}

/// `ports` with a port recorded for each of `addresses`.
pub open spec fn with_addresses(
    ports: Map<IpAddress, u16>,
    addresses: Seq<IpAddress>,
    port: u16,
) -> Map<IpAddress, u16>
    decreases addresses.len(),
{
    if addresses.len() == 0 {
        ports
    } else {
        with_addresses(ports, addresses.drop_last(), port).insert(addresses.last(), port)
    }
}

/// Whether an advertisement is of the control service: its name has that service in it, and is not
/// just the name that a user gave to a device whose other service this is.
pub open spec fn is_arc(d: DanteDevice) -> bool {
    text::first_match(d.name@, "_netaudio-arc"@, 0) is Some && !text::has_suffix(
        d.name@,
        DANTE_CHAN_SERVICE@,
    )
}

fn has_arc_name(name: &str) -> (r: bool)
    ensures
        r == (text::first_match(name@, "_netaudio-arc"@, 0) is Some && !text::has_suffix(
            name@,
            DANTE_CHAN_SERVICE@,
        )),
{
    proof {
        reveal_strlit("_netaudio-arc");
    }
    let name = chars_of(name);
    let other = chars_of(DANTE_CHAN_SERVICE);
    if name.len() >= other.len() && match_at(
        name.as_slice(),
        other.as_slice(),
        name.len() - other.len(),
    ) {
        return false;
    }
    find_from(name.as_slice(), chars_of("_netaudio-arc").as_slice(), 0).is_some()
}

/// The control port at each address, the advertisements taken in order.
pub open spec fn control_ports(devices: Seq<DanteDevice>) -> Map<IpAddress, u16>
    decreases devices.len(),
{
    if devices.len() == 0 {
        Map::empty()
    } else {
        let before = control_ports(devices.drop_last());
        let d = devices.last();
        if is_arc(d) {
            with_addresses(before, d.addresses@, d.port)
        } else {
            before
        }
    }
}

/// The control port at each address.
#[derive(Debug, Clone)]
pub struct ArcPorts {
    entries: Vec<(IpAddress, u16)>,
}

spec fn port_map(entries: Seq<(IpAddress, u16)>) -> Map<IpAddress, u16>
    decreases entries.len(),
{
    if entries.len() == 0 {
        Map::empty()
    } else {
        port_map(entries.drop_last()).insert(entries.last().0, entries.last().1)
    }
}

spec fn distinct(entries: Seq<(IpAddress, u16)>) -> bool {
    forall|i: int, j: int|
        0 <= i < j < entries.len() ==> (#[trigger] entries[i]).0 != (#[trigger] entries[j]).0
}

impl View for ArcPorts {
    type V = Map<IpAddress, u16>;

    closed spec fn view(&self) -> Map<IpAddress, u16> {
        port_map(self.entries@)
    }
}

proof fn lemma_port_map(entries: Seq<(IpAddress, u16)>, address: IpAddress, i: int)
    requires
        -1 <= i < entries.len(),
        forall|j: int| i < j < entries.len() ==> (#[trigger] entries[j]).0 != address,
        i >= 0 ==> entries[i].0 == address,
    ensures
        port_map(entries).contains_key(address) == (i >= 0),
        i >= 0 ==> port_map(entries)[address] == entries[i].1,
    decreases entries.len(),
{
    if entries.len() > 0 && i < entries.len() - 1 {
        let before = entries.drop_last();
        assert forall|j: int| i < j < before.len() implies (#[trigger] before[j]).0 != address by {
            assert(entries[j].0 != address);
        }
        assert(entries[entries.len() - 1].0 != address);
        lemma_port_map(before, address, i);
    }
}

proof fn lemma_port_map_len(entries: Seq<(IpAddress, u16)>)
    requires
        distinct(entries),
    ensures
        port_map(entries).dom().finite(),
        port_map(entries).dom().len() == entries.len(),
    decreases entries.len(),
{
    if entries.len() > 0 {
        let before = entries.drop_last();
        assert(distinct(before)) by {
            assert forall|i: int, j: int| 0 <= i < j < before.len() implies (
            #[trigger] before[i]).0 != (#[trigger] before[j]).0 by {
                assert(entries[i].0 != entries[j].0);
            }
        }
        lemma_port_map_len(before);
        let address = entries.last().0;
        assert forall|j: int| -1 < j < before.len() implies (#[trigger] before[j]).0
            != address by {
            assert(entries[j].0 != entries[entries.len() - 1].0);
        }
        lemma_port_map(before, address, -1);
        assert(port_map(entries).dom() =~= port_map(before).dom().insert(address));
    }
}

proof fn lemma_port_map_set(entries: Seq<(IpAddress, u16)>, i: int, port: u16)
    requires
        distinct(entries),
        0 <= i < entries.len(),
    ensures
        port_map(entries.update(i, (entries[i].0, port))) == port_map(entries).insert(
            entries[i].0,
            port,
        ),
    decreases entries.len(),
{
    let after = entries.update(i, (entries[i].0, port));
    let before = entries.drop_last();
    let last = entries.len() - 1;
    if i == last {
        assert(after.drop_last() =~= before);
        assert(port_map(after) =~= port_map(entries).insert(entries[i].0, port));
    } else {
        assert(after.drop_last() =~= before.update(i, (before[i].0, port)));
        assert(distinct(before)) by {
            assert forall|a: int, b: int| 0 <= a < b < before.len() implies (
            #[trigger] before[a]).0 != (#[trigger] before[b]).0 by {
                assert(entries[a].0 != entries[b].0);
            }
        }
        lemma_port_map_set(before, i, port);
        assert(entries[i].0 != entries[last].0);
        assert(port_map(after) =~= port_map(entries).insert(entries[i].0, port));
    }
}

impl ArcPorts {
    /// No address occurs twice.
    pub closed spec fn wf(&self) -> bool {
        distinct(self.entries@)
    }

    fn find(&self, address: IpAddress) -> (r: Option<usize>)
        ensures
            match r {
                Some(i) => i < self.entries@.len() && self.entries@[i as int].0 == address
                    && self@.contains_key(address) && self@[address] == self.entries@[i as int].1,
                None => !self@.contains_key(address) && forall|j: int|
                    0 <= j < self.entries@.len() ==> (#[trigger] self.entries@[j]).0 != address,
            },
    {
        let mut i: usize = self.entries.len();
        while i > 0
            invariant
                i <= self.entries.len(),
                forall|j: int|
                    i <= j < self.entries@.len() ==> (#[trigger] self.entries@[j]).0 != address,
            decreases i,
        {
            if self.entries[i - 1].0 == address {
                proof {
                    lemma_port_map(self.entries@, address, i - 1);
                }
                return Some(i - 1);
            }
            i = i - 1;
        }
        proof {
            lemma_port_map(self.entries@, address, -1);
        }
        None
    }

    fn insert(&mut self, address: IpAddress, port: u16)
        requires
            old(self).wf(),
        ensures
            final(self).wf(),
            final(self)@ == old(self)@.insert(address, port),
    {
        match self.find(address) {
            Some(i) => {
                proof {
                    lemma_port_map_set(self.entries@, i as int, port);
                }
                let ghost before = self.entries@;
                self.entries.set(i, (address, port));
                assert forall|a: int, b: int| 0 <= a < b < self.entries@.len() implies (
                #[trigger] self.entries@[a]).0 != (#[trigger] self.entries@[b]).0 by {
                    assert(before[a].0 != before[b].0);
                }
            },
            None => {
                let ghost before = self.entries@;
                self.entries.push((address, port));
                assert(self.entries@.drop_last() =~= before);
                assert forall|a: int, b: int| 0 <= a < b < self.entries@.len() implies (
                #[trigger] self.entries@[a]).0 != (#[trigger] self.entries@[b]).0 by {
                    assert(before[a].0 != address);
                    if b < before.len() {
                        assert(before[a].0 != before[b].0);
                    }
                }
            },
        }
    }

    /// The control port at an address.
    pub fn get(&self, address: IpAddress) -> (r: Option<u16>)
        ensures
            match r {
                Some(p) => self@.contains_key(address) && self@[address] == p,
                None => !self@.contains_key(address),
            },
    {
        match self.find(address) {
            Some(i) => Some(self.entries[i].1),
            None => None,
        }
    }

    /// How many addresses there are.
    pub fn len(&self) -> (r: usize)
        requires
            self.wf(),
        ensures
            r == self@.dom().len(),
    {
        proof {
            lemma_port_map_len(self.entries@);
        }
        self.entries.len()
    }
}

/// The control port at each address that advertises one. Channels are advertised too, under a
/// service of their own, and those ports are something else.
pub fn arc_ports(devices: &[DanteDevice]) -> (r: ArcPorts)
    ensures
        r.wf(),
        r@ == control_ports(devices@),
{
    let mut ports = ArcPorts { entries: Vec::new() };
    let mut i: usize = 0;
    while i < devices.len()
        invariant
            i <= devices.len(),
            ports.wf(),
            ports@ == control_ports(devices@.take(i as int)),
        decreases devices.len() - i,
    {
        let d = &devices[i];
        assert(devices@.take(i + 1).drop_last() =~= devices@.take(i as int));
        assert(devices@.take(i + 1).last() == *d);
        if has_arc_name(d.name.as_str()) {
            let ghost before = ports@;
            let mut k: usize = 0;
            assert(d.addresses@.take(0) =~= seq![]);
            while k < d.addresses.len()
                invariant
                    k <= d.addresses.len(),
                    ports.wf(),
                    ports@ == with_addresses(
                        before,
                        d.addresses@.take(k as int),
                        d.port,
                    ),
                decreases d.addresses.len() - k,
            {
                assert(d.addresses@.take(k + 1).drop_last() =~= d.addresses@.take(k as int));
                ports.insert(d.addresses[k], d.port);
                k = k + 1;
            }
            assert(d.addresses@.take(k as int) =~= d.addresses@);
        }
        i = i + 1;
    }
    assert(devices@.take(i as int) =~= devices@);
    ports
}

// ---------------------------------------------------------------------------
// Laws
// ---------------------------------------------------------------------------

/// A device's port is recorded for each of its addresses, and for no other.
pub proof fn a_port_is_recorded_for_each_address(
    ports: Map<IpAddress, u16>,
    addresses: Seq<IpAddress>,
    port: u16,
    address: IpAddress,
)
    ensures
        ({
            let now = with_addresses(ports, addresses, port);
            if exists|i: int| 0 <= i < addresses.len() && #[trigger] addresses[i] == address {
                now.contains_key(address) && now[address] == port
            } else {
                now.contains_key(address) == ports.contains_key(address) && (ports.contains_key(
                    address,
                ) ==> now[address] == ports[address])
            }
        }),
    decreases addresses.len(),
{
    if addresses.len() > 0 {
        let less = addresses.drop_last();
        a_port_is_recorded_for_each_address(ports, less, port, address);
        if exists|i: int| 0 <= i < less.len() && #[trigger] less[i] == address {
            let i = choose|i: int| 0 <= i < less.len() && #[trigger] less[i] == address;
            assert(addresses[i] == address);
        }
        if exists|i: int| 0 <= i < addresses.len() && #[trigger] addresses[i] == address {
            let i = choose|i: int| 0 <= i < addresses.len() && #[trigger] addresses[i] == address;
            if i < less.len() {
                assert(less[i] == address);
            }
        }
        assert(addresses[addresses.len() - 1] == addresses.last());
    }
}

/// The control port at an address is the one of the last advertisement of the control service that has
/// the address; an advertisement of anything else changes nothing.
pub proof fn the_last_control_service_counts(
    devices: Seq<DanteDevice>,
    d: DanteDevice,
    address: IpAddress,
)
    ensures
        ({
            let before = control_ports(devices);
            let now = control_ports(devices.push(d));
            &&& is_arc(d) && d.addresses@.contains(address) ==> now.contains_key(address)
                && now[address] == d.port
            &&& is_arc(d) && !d.addresses@.contains(address) ==> now.contains_key(address)
                == before.contains_key(address) && (before.contains_key(address) ==> now[address]
                == before[address])
            &&& !is_arc(d) ==> now == before
        }),
        control_ports(seq![]) == Map::<IpAddress, u16>::empty(),
{
    assert(devices.push(d).drop_last() =~= devices);
    a_port_is_recorded_for_each_address(control_ports(devices), d.addresses@, d.port, address);
    if d.addresses@.contains(address) {
        let i = d.addresses@.index_of(address);
        assert(d.addresses@[i] == address);
    }
}

/// An advertisement is of the control service if its name has that service in it, unless it ends as one
/// of the channels' service.
pub proof fn a_control_service_is_known_by_its_name(d: DanteDevice)
    ensures
        is_arc(d) <==> (exists|k: int|
            0 <= k && k + 13 <= d.name@.len() && #[trigger] d.name@.subrange(k, k + 13)
                == "_netaudio-arc"@) && !text::has_suffix(d.name@, DANTE_CHAN_SERVICE@),
{
    reveal_strlit("_netaudio-arc");
    text::a_first_match_is_first(d.name@, "_netaudio-arc"@, 0);
    assert("_netaudio-arc"@.len() == 13);
}

} // verus!
