//! Fans value changes out to mapped peers.
//!
//! The router tracks the value that it last saw at every address, updated from the events that
//! come in and from its own pushes, and never sets a peer to a value that it already holds. That
//! single rule is what stops a bidirectional mapping from looping: a device's confirmation of a
//! command that the router just sent resolves to "the peer already holds this".
use vstd::prelude::*;

use crate::oca::object::{AddressModel, OcaAddress, OcaEvent};
use crate::oca::value::{OcaValue, ValueModel};
use crate::text::text_eq;

verus! {

/// A link between two objects, in one direction or in both.
#[derive(Debug, Clone)]
pub struct Mapping {
    pub from: OcaAddress,
    pub to: OcaAddress,
    pub bidirectional: bool,
}

/// A [`Mapping`], its addresses as models.
#[verifier::ext_equal]
pub struct MappingModel {
    pub from: AddressModel,
    pub to: AddressModel,
    pub bidirectional: bool,
}

impl View for Mapping {
    type V = MappingModel;

    open spec fn view(&self) -> MappingModel {
        MappingModel { from: self.from@, to: self.to@, bidirectional: self.bidirectional }
    }
}

impl Mapping {
    /// A copy.
    pub fn duplicate(&self) -> (r: Mapping)
        ensures
            r@ == self@,
    {
        Mapping {
            from: self.from.duplicate(),
            to: self.to.duplicate(),
            bidirectional: self.bidirectional,
        }
    }
}

/// The models of a mapping table.
pub open spec fn mapping_models(v: Seq<Mapping>) -> Seq<MappingModel> {
    v.map_values(|m: Mapping| m@)
}

/// The models of a list of addresses.
pub open spec fn address_models(v: Seq<OcaAddress>) -> Seq<AddressModel> {
    v.map_values(|a: OcaAddress| a@)
}

/// The addresses that a change at `address` goes to, in the order of the mapping table.
pub open spec fn peers(mappings: Seq<MappingModel>, address: AddressModel) -> Seq<AddressModel>
    decreases mappings.len(),
{
    if mappings.len() == 0 {
        seq![]
    } else {
        let before = peers(mappings.drop_last(), address);
        let m = mappings.last();
        if m.from == address {
            before.push(m.to)
        } else if m.bidirectional && m.to == address {
            before.push(m.from)
        } else {
            before
        }
    }
}

/// Whether `address` is known to hold a value that is the same as `value`.
pub open spec fn holds(
    held: Map<AddressModel, ValueModel>,
    address: AddressModel,
    value: ValueModel,
) -> bool {
    held.contains_key(address) && held[address].same(value)
}

/// Which of `peers` are set to `value`, in order, and what is held afterwards: those on a
/// registered device that do not hold it already.
pub open spec fn pushed(
    devices: Set<Seq<char>>,
    peers: Seq<AddressModel>,
    value: ValueModel,
    held: Map<AddressModel, ValueModel>,
) -> (Seq<AddressModel>, Map<AddressModel, ValueModel>)
    decreases peers.len(),
{
    if peers.len() == 0 {
        (seq![], held)
    } else {
        let (out, now) = pushed(devices, peers.drop_last(), value, held);
        let peer = peers.last();
        if !devices.contains(peer.device_id) || holds(now, peer, value) {
            (out, now)
        } else {
            (out.push(peer), now.insert(peer, value))
        }
    }
}

/// A router: the devices that it knows, its mapping table, and what is held where.
#[verifier::ext_equal]
pub struct RouterModel {
    pub devices: Set<Seq<char>>,
    pub mappings: Seq<MappingModel>,
    pub held: Map<AddressModel, ValueModel>,
}

impl RouterModel {
    /// What a report that `address` now has `value` leads to: the peers that are set to it, and
    /// the router afterwards.
    pub open spec fn reported(self, address: AddressModel, value: ValueModel) -> (
        Seq<AddressModel>,
        RouterModel,
    ) {
        let (out, held) = pushed(
            self.devices,
            peers(self.mappings, address),
            value,
            self.held.insert(address, value),
        );
        (out, RouterModel { devices: self.devices, mappings: self.mappings, held })
    }
}

/// Fans events out to every mapped peer.
pub struct Router {
    devices: Vec<String>,
    mappings: Vec<Mapping>,
    held: Vec<(OcaAddress, OcaValue)>,
}

impl View for Router {
    type V = RouterModel;

    closed spec fn view(&self) -> RouterModel {
        RouterModel {
            devices: id_set(self.devices@),
            mappings: mapping_models(self.mappings@),
            held: held_map(self.held@),
        }
    }
}

spec fn id_set(ids: Seq<String>) -> Set<Seq<char>> {
    Set::new(|id: Seq<char>| exists|i: int| 0 <= i < ids.len() && #[trigger] ids[i]@ == id)
}

spec fn held_map(entries: Seq<(OcaAddress, OcaValue)>) -> Map<AddressModel, ValueModel>
    decreases entries.len(),
{
    if entries.len() == 0 {
        Map::empty()
    } else {
        held_map(entries.drop_last()).insert(entries.last().0@, entries.last().1@)
    }
}

spec fn distinct_addresses(entries: Seq<(OcaAddress, OcaValue)>) -> bool {
    forall|i: int, j: int|
        0 <= i < j < entries.len() ==> (#[trigger] entries[i]).0@ != (#[trigger] entries[j]).0@
}

/// What is recorded of an address in a table where none is recorded twice.
proof fn lemma_held_map(entries: Seq<(OcaAddress, OcaValue)>)
    requires
        distinct_addresses(entries),
    ensures
        forall|i: int|
            0 <= i < entries.len() ==> held_map(entries).contains_key((#[trigger] entries[i]).0@)
                && held_map(entries)[entries[i].0@] == entries[i].1@,
        forall|a: AddressModel| #[trigger]
            held_map(entries).contains_key(a) ==> exists|i: int|
                0 <= i < entries.len() && (#[trigger] entries[i]).0@ == a,
    decreases entries.len(),
{
    if entries.len() > 0 {
        let before = entries.drop_last();
        assert(distinct_addresses(before)) by {
            assert forall|i: int, j: int| 0 <= i < j < before.len() implies (#[trigger] before[i]).0@
                != (#[trigger] before[j]).0@ by {
                assert(entries[i].0@ != entries[j].0@);
            }
        }
        lemma_held_map(before);
        assert forall|i: int| 0 <= i < entries.len() implies held_map(entries).contains_key(
            (#[trigger] entries[i]).0@,
        ) && held_map(entries)[entries[i].0@] == entries[i].1@ by {
            if i < before.len() {
                assert(before[i] == entries[i]);
                assert(entries[i].0@ != entries[entries.len() - 1].0@);
            }
        }
        assert forall|a: AddressModel| #[trigger]
            held_map(entries).contains_key(a) implies exists|i: int|
            0 <= i < entries.len() && (#[trigger] entries[i]).0@ == a by {
            if held_map(before).contains_key(a) {
                let i = choose|i: int| 0 <= i < before.len() && (#[trigger] before[i]).0@ == a;
                assert(entries[i].0@ == a);
            } else {
                assert(entries[entries.len() - 1].0@ == a);
            }
        }
    }
}

impl Router {
    /// No address is recorded twice.
    pub closed spec fn wf(&self) -> bool {
        distinct_addresses(self.held@)
    }

    /// A router with a mapping table, no devices, and nothing held.
    pub fn new(mappings: Vec<Mapping>) -> (r: Self)
        ensures
            r.wf(),
            r@ == (RouterModel {
                devices: Set::empty(),
                mappings: mapping_models(mappings@),
                held: Map::empty(),
            }),
    {
        let r = Router { devices: Vec::new(), mappings, held: Vec::new() };
        assert(r@.devices =~= Set::empty());
        r
    }

    /// The position of a device.
    fn device_position(&self, id: &str) -> (r: Option<usize>)
        ensures
            match r {
                Some(i) => i < self.devices@.len() && self.devices@[i as int]@ == id@,
                None => !self@.devices.contains(id@),
            },
    {
        let mut i: usize = 0;
        while i < self.devices.len()
            invariant
                i <= self.devices.len(),
                forall|j: int| 0 <= j < i ==> #[trigger] self.devices@[j]@ != id@,
            decreases self.devices.len() - i,
        {
            if text_eq(self.devices[i].as_str(), id) {
                return Some(i);
            }
            i = i + 1;
        }
        None
    }

    /// Makes a device known. Registering an id that is known already replaces the device and
    /// changes nothing here.
    pub fn register_device(&mut self, id: &str)
        requires
            old(self).wf(),
        ensures
            final(self).wf(),
            final(self)@ == (RouterModel {
                devices: old(self)@.devices.insert(id@),
                ..old(self)@
            }),
    {
        match self.device_position(id) {
            Some(i) => {
                assert(self@.devices =~= self@.devices.insert(id@));
            },
            None => {
                let ghost before = self.devices@;
                let ghost known = self@.devices;
                self.devices.push(id.to_owned());
                assert forall|d: Seq<char>| self@.devices.contains(d) == known.insert(
                    id@,
                ).contains(d) by {
                    if known.contains(d) {
                        let i = choose|i: int| 0 <= i < before.len() && #[trigger] before[i]@ == d;
                        assert(self.devices@[i]@ == d);
                    }
                    if d == id@ {
                        assert(self.devices@[before.len() as int]@ == d);
                    }
                }
                assert(self@.devices =~= known.insert(id@));
            },
        }
    }

    /// Forgets a device, and says whether it was known.
    pub fn deregister_device(&mut self, id: &str) -> (r: bool)
        requires
            old(self).wf(),
        ensures
            final(self).wf(),
            r == old(self)@.devices.contains(id@),
            final(self)@ == (RouterModel {
                devices: old(self)@.devices.remove(id@),
                ..old(self)@
            }),
    {
        let ghost known = self@.devices;
        let mut kept: Vec<String> = Vec::new();
        let mut found: bool = false;
        let mut i: usize = 0;
        while i < self.devices.len()
            invariant
                i <= self.devices.len(),
                *self == *old(self),
                self.wf(),
                found == exists|j: int| 0 <= j < i && #[trigger] self.devices@[j]@ == id@,
                forall|j: int|
                    0 <= j < i && self.devices@[j]@ != id@ ==> id_set(kept@).contains(
                        #[trigger] self.devices@[j]@,
                    ),
                forall|k: int|
                    0 <= k < kept@.len() ==> #[trigger] kept@[k]@ != id@ && self@.devices.contains(
                        kept@[k]@,
                    ),
            decreases self.devices.len() - i,
        {
            if text_eq(self.devices[i].as_str(), id) {
                found = true;
            } else {
                let ghost before = kept@;
                kept.push(self.devices[i].clone());
                assert forall|d: Seq<char>| id_set(before).contains(d) implies id_set(
                    kept@,
                ).contains(d) by {
                    let k = choose|k: int| 0 <= k < before.len() && #[trigger] before[k]@ == d;
                    assert(kept@[k]@ == d);
                }
                assert(kept@[before.len() as int]@ == self.devices@[i as int]@);
            }
            i = i + 1;
        }
        assert(found == known.contains(id@));
        self.devices = kept;
        assert(self@.devices =~= known.remove(id@));
        found
    }

    /// Replaces the mapping table.
    pub fn update_mappings(&mut self, mappings: Vec<Mapping>)
        requires
            old(self).wf(),
        ensures
            final(self).wf(),
            final(self)@ == (RouterModel { mappings: mapping_models(mappings@), ..old(self)@ }),
    {
        self.mappings = mappings;
    }

    /// A copy of the mapping table.
    pub fn mappings(&self) -> (r: Vec<Mapping>)
        ensures
            mapping_models(r@) == self@.mappings,
    {
        let mut out: Vec<Mapping> = Vec::new();
        let mut i: usize = 0;
        while i < self.mappings.len()
            invariant
                i <= self.mappings.len(),
                out@.len() == i,
                forall|j: int| 0 <= j < i ==> #[trigger] out@[j]@ == self.mappings@[j]@,
            decreases self.mappings.len() - i,
        {
            out.push(self.mappings[i].duplicate());
            i = i + 1;
        }
        assert(mapping_models(out@) =~= self@.mappings);
        out
    }

    /// Adds one mapping at the end of the table.
    pub fn add_mapping(&mut self, mapping: Mapping)
        requires
            old(self).wf(),
        ensures
            final(self).wf(),
            final(self)@ == (RouterModel {
                mappings: old(self)@.mappings.push(mapping@),
                ..old(self)@
            }),
    {
        self.mappings.push(mapping);
        assert(self@.mappings =~= old(self)@.mappings.push(mapping@));
    }

    /// Removes the first mapping of this very pair, in this direction, and says whether there
    /// was one.
    pub fn remove_mapping(&mut self, from: &OcaAddress, to: &OcaAddress) -> (r: bool)
        requires
            old(self).wf(),
        ensures
            final(self).wf(),
            ({
                let table = old(self)@.mappings;
                if r {
                    exists|i: int|
                        0 <= i < table.len() && #[trigger] links(table[i], from@, to@) && (forall|
                            j: int,
                        |
                            0 <= j < i ==> !#[trigger] links(table[j], from@, to@)) && final(self)@
                            == (RouterModel { mappings: table.remove(i), ..old(self)@ })
                } else {
                    &&& forall|j: int|
                        0 <= j < table.len() ==> !#[trigger] links(table[j], from@, to@)
                    &&& final(self)@ == old(self)@
                }
            }),
    {
        let ghost table = self@.mappings;
        let mut i: usize = 0;
        while i < self.mappings.len()
            invariant
                i <= self.mappings.len(),
                *self == *old(self),
                self.wf(),
                table == self@.mappings,
                forall|j: int| 0 <= j < i ==> !#[trigger] links(table[j], from@, to@),
            decreases self.mappings.len() - i,
        {
            if self.mappings[i].from.same_as(from) && self.mappings[i].to.same_as(to) {
                assert(links(table[i as int], from@, to@));
                let _ = self.mappings.remove(i);
                assert(self@.mappings =~= table.remove(i as int));
                return true;
            }
            assert(!links(table[i as int], from@, to@));
            i = i + 1;
        }
        false
    }

    /// Where a change at `address` goes.
    fn peers_of(&self, address: &OcaAddress) -> (r: Vec<OcaAddress>)
        ensures
            address_models(r@) == peers(self@.mappings, address@),
    {
        let mut out: Vec<OcaAddress> = Vec::new();
        let ghost table = self@.mappings;
        let mut i: usize = 0;
        assert(address_models(out@) =~= peers(table.take(0), address@));
        while i < self.mappings.len()
            invariant
                i <= self.mappings.len(),
                table == self@.mappings,
                address_models(out@) == peers(table.take(i as int), address@),
            decreases self.mappings.len() - i,
        {
            let m = &self.mappings[i];
            let ghost before = address_models(out@);
            assert(table.take(i + 1).drop_last() =~= table.take(i as int));
            assert(table.take(i + 1).last() == m@);
            if m.from.same_as(address) {
                let peer = m.to.duplicate();
                out.push(peer);
                assert(address_models(out@) =~= before.push(m.to@));
            } else if m.bidirectional && m.to.same_as(address) {
                let peer = m.from.duplicate();
                out.push(peer);
                assert(address_models(out@) =~= before.push(m.from@));
            }
            i = i + 1;
        }
        assert(table.take(i as int) =~= table);
        out
    }

    /// The position of the record of an address.
    fn held_position(&self, address: &OcaAddress) -> (r: Option<usize>)
        requires
            self.wf(),
        ensures
            match r {
                Some(i) => i < self.held@.len() && self.held@[i as int].0@ == address@
                    && self@.held.contains_key(address@) && self@.held[address@]
                    == self.held@[i as int].1@,
                None => !self@.held.contains_key(address@),
            },
    {
        proof {
            lemma_held_map(self.held@);
        }
        let mut i: usize = 0;
        while i < self.held.len()
            invariant
                i <= self.held.len(),
                forall|j: int| 0 <= j < i ==> (#[trigger] self.held@[j]).0@ != address@,
                forall|j: int|
                    0 <= j < self.held@.len() ==> self@.held.contains_key(
                        (#[trigger] self.held@[j]).0@,
                    ) && self@.held[self.held@[j].0@] == self.held@[j].1@,
            decreases self.held.len() - i,
        {
            if self.held[i].0.same_as(address) {
                return Some(i);
            }
            i = i + 1;
        }
        None
    }

    /// Records what an address holds.
    fn record(&mut self, address: &OcaAddress, value: &OcaValue)
        requires
            old(self).wf(),
        ensures
            final(self).wf(),
            final(self)@ == (RouterModel {
                held: old(self)@.held.insert(address@, value@),
                ..old(self)@
            }),
    {
        let ghost before = self.held@;
        proof {
            lemma_held_map(before);
        }
        match self.held_position(address) {
            Some(i) => {
                self.held.set(i, (address.duplicate(), value.duplicate()));
                let ghost after = self.held@;
                assert(distinct_addresses(after)) by {
                    assert forall|j: int, k: int| 0 <= j < k < after.len() implies (
                    #[trigger] after[j]).0@ != (#[trigger] after[k]).0@ by {
                        assert(before[j].0@ != before[k].0@);
                    }
                }
                proof {
                    lemma_held_map(after);
                    assert forall|a: AddressModel| #[trigger]
                        held_map(after).contains_key(a) == held_map(before).insert(
                            address@,
                            value@,
                        ).contains_key(a) by {
                        if held_map(after).contains_key(a) {
                            let j = choose|j: int|
                                0 <= j < after.len() && (#[trigger] after[j]).0@ == a;
                            assert(before[j].0@ == a);
                        }
                        if held_map(before).contains_key(a) {
                            let j = choose|j: int|
                                0 <= j < before.len() && (#[trigger] before[j]).0@ == a;
                            assert(after[j].0@ == a);
                        }
                        assert(after[i as int].0@ == address@);
                    }
                    assert forall|a: AddressModel| #[trigger]
                        held_map(after).contains_key(a) implies held_map(after)[a] == held_map(
                        before,
                    ).insert(address@, value@)[a] by {
                        let j = choose|j: int|
                            0 <= j < after.len() && (#[trigger] after[j]).0@ == a;
                        assert(before[j].0@ == a);
                    }
                }
                assert(held_map(after) =~= held_map(before).insert(address@, value@));
            },
            None => {
                self.held.push((address.duplicate(), value.duplicate()));
                let ghost after = self.held@;
                assert(after.drop_last() =~= before);
                assert(distinct_addresses(after)) by {
                    assert forall|j: int, k: int| 0 <= j < k < after.len() implies (
                    #[trigger] after[j]).0@ != (#[trigger] after[k]).0@ by {
                        assert(before[j].0@ == after[j].0@);
                        if k < before.len() {
                            assert(before[j].0@ != before[k].0@);
                        }
                    }
                }
            },
        }
    }

    /// Takes in a report that an object has a value. Returns the addresses that are to be set
    /// to that value, in order; they are recorded as holding it.
    pub fn handle_event(&mut self, event: &OcaEvent) -> (r: Vec<OcaAddress>)
        requires
            old(self).wf(),
        ensures
            final(self).wf(),
            (address_models(r@), final(self)@) == old(self)@.reported(
                event.address@,
                event.object.value@,
            ),
    {
        let value = &event.object.value;
        self.record(&event.address, value);
        let targets = self.peers_of(&event.address);
        let ghost all = address_models(targets@);
        let ghost devices = self@.devices;
        let ghost mappings = self@.mappings;
        let ghost held = self@.held;
        let mut out: Vec<OcaAddress> = Vec::new();
        let mut i: usize = 0;
        assert(address_models(out@) =~= seq![]);
        while i < targets.len()
            invariant
                i <= targets.len(),
                self.wf(),
                self@.devices == devices,
                self@.mappings == mappings,
                all == address_models(targets@),
                value == event.object.value,
                pushed(devices, all.take(i as int), value@, held) == (
                    address_models(out@),
                    self@.held,
                ),
            decreases targets.len() - i,
        {
            let peer = &targets[i];
            let ghost before = address_models(out@);
            assert(all.take(i + 1).drop_last() =~= all.take(i as int));
            assert(all.take(i + 1).last() == peer@);
            let known: bool = match self.device_position(peer.device_id.as_str()) {
                Some(k) => {
                    assert(self.devices@[k as int]@ == peer.device_id@);
                    true
                },
                None => false,
            };
            let held_already: bool = match self.held_position(peer) {
                Some(k) => self.held[k].1.same_as(value),
                None => false,
            };
            if known && !held_already {
                self.record(peer, value);
                out.push(peer.duplicate());
                assert(address_models(out@) =~= before.push(peer@));
            }
            i = i + 1;
        }
        assert(all.take(i as int) =~= all);
        out
    }
}

/// Whether a mapping leads from `from` to `to`.
pub open spec fn links(m: MappingModel, from: AddressModel, to: AddressModel) -> bool {
    m.from == from && m.to == to
}

// ---------------------------------------------------------------------------
// Laws
// ---------------------------------------------------------------------------

/// What is held after a round of pushes, of each address.
proof fn lemma_pushed(
    devices: Set<Seq<char>>,
    peers: Seq<AddressModel>,
    value: ValueModel,
    held: Map<AddressModel, ValueModel>,
)
    ensures
        ({
            let (out, now) = pushed(devices, peers, value, held);
            &&& forall|a: AddressModel|
                #![trigger now.contains_key(a)]
                #![trigger held.contains_key(a)]
                if out.contains(a) {
                    now.contains_key(a) && now[a] == value
                } else {
                    now.contains_key(a) == held.contains_key(a) && (held.contains_key(a) ==> now[a]
                        == held[a])
                }
            &&& forall|a: AddressModel| #[trigger]
                out.contains(a) ==> peers.contains(a) && devices.contains(a.device_id) && !holds(
                    held,
                    a,
                    value,
                )
            &&& forall|a: AddressModel| #[trigger]
                peers.contains(a) && devices.contains(a.device_id) && !holds(held, a, value)
                    ==> out.contains(a)
        }),
    decreases peers.len(),
{
    let (out, now) = pushed(devices, peers, value, held);
    if peers.len() > 0 {
        let before = peers.drop_last();
        let peer = peers.last();
        lemma_pushed(devices, before, value, held);
        let (out1, now1) = pushed(devices, before, value, held);
        assert forall|a: AddressModel| peers.contains(a) == (before.contains(a) || a == peer) by {
            if before.contains(a) {
                assert(peers[before.index_of(a)] == a);
            }
            if a == peer {
                assert(peers[peers.len() - 1] == a);
            }
            if peers.contains(a) && a != peer {
                assert(before[peers.index_of(a)] == a);
            }
        }
        assert forall|a: AddressModel| out1.push(peer).contains(a) == (out1.contains(a) || a
            == peer) by {
            if out1.contains(a) {
                assert(out1.push(peer)[out1.index_of(a)] == a);
            }
            if a == peer {
                assert(out1.push(peer)[out1.len() as int] == a);
            }
            if out1.push(peer).contains(a) && a != peer {
                assert(out1[out1.push(peer).index_of(a)] == a);
            }
        }
        assert forall|a: AddressModel|
            #![trigger now.contains_key(a)]
            #![trigger held.contains_key(a)]
            if out.contains(a) {
                now.contains_key(a) && now[a] == value
            } else {
                now.contains_key(a) == held.contains_key(a) && (held.contains_key(a) ==> now[a]
                    == held[a])
            } by {
            assert(now1.contains_key(a) || !now1.contains_key(a));
        }
        assert forall|a: AddressModel| #[trigger] out.contains(a) implies peers.contains(a)
            && devices.contains(a.device_id) && !holds(held, a, value) by {
            assert(now1.contains_key(a) || !now1.contains_key(a));
            assert(out1.contains(a) || a == peer);
        }
        assert forall|a: AddressModel| #[trigger]
            peers.contains(a) && devices.contains(a.device_id) && !holds(
                held,
                a,
                value,
            ) implies out.contains(a) by {
            assert(now1.contains_key(a) || !now1.contains_key(a));
            assert(before.contains(a) || a == peer);
        }
    }
}

/// A report reaches every registered peer that does not hold the value already, and no other
/// address: no peer is ever set to a value that it holds.
pub proof fn exactly_the_peers_without_the_value_are_set(
    r: RouterModel,
    address: AddressModel,
    value: ValueModel,
    peer: AddressModel,
)
    ensures
        r.reported(address, value).0.contains(peer) == (peers(r.mappings, address).contains(peer)
            && r.devices.contains(peer.device_id) && !holds(
            r.held.insert(address, value),
            peer,
            value,
        )),
{
    lemma_pushed(
        r.devices,
        peers(r.mappings, address),
        value,
        r.held.insert(address, value),
    );
}

/// Once a report was handled, the reporting address and all its registered peers hold the value.
pub proof fn a_report_brings_all_peers_to_the_value(
    r: RouterModel,
    address: AddressModel,
    value: ValueModel,
    peer: AddressModel,
)
    requires
        !value.nan(),
        peer == address || peers(r.mappings, address).contains(peer) && r.devices.contains(
            peer.device_id,
        ),
    ensures
        holds(r.reported(address, value).1.held, peer, value),
{
    let held = r.held.insert(address, value);
    lemma_pushed(r.devices, peers(r.mappings, address), value, held);
    assert(held.contains_key(peer) || !held.contains_key(peer));
}

/// A report of a value that the address's registered peers all hold sets nothing.
proof fn lemma_nothing_to_push(
    devices: Set<Seq<char>>,
    peers: Seq<AddressModel>,
    value: ValueModel,
    held: Map<AddressModel, ValueModel>,
)
    requires
        forall|a: AddressModel| #[trigger]
            peers.contains(a) && devices.contains(a.device_id) ==> holds(held, a, value),
    ensures
        pushed(devices, peers, value, held) == (Seq::<AddressModel>::empty(), held),
    decreases peers.len(),
{
    if peers.len() > 0 {
        let before = peers.drop_last();
        assert forall|a: AddressModel| #[trigger]
            before.contains(a) && devices.contains(a.device_id) implies holds(held, a, value) by {
            assert(peers[before.index_of(a)] == a);
            assert(peers.contains(a));
        }
        lemma_nothing_to_push(devices, before, value, held);
        assert(peers[peers.len() - 1] == peers.last());
        assert(peers.contains(peers.last()));
    }
}

/// A device's own report of a change may reach the router more than once; every copy after the
/// first sets nothing.
pub proof fn a_repeated_report_sets_nothing(
    r: RouterModel,
    address: AddressModel,
    value: ValueModel,
)
    requires
        !value.nan(),
    ensures
        r.reported(address, value).1.reported(address, value).0 == Seq::<AddressModel>::empty(),
{
    let now = r.reported(address, value).1;
    let targets = peers(r.mappings, address);
    assert forall|a: AddressModel| #[trigger]
        targets.contains(a) && r.devices.contains(a.device_id) implies holds(
        now.held.insert(address, value),
        a,
        value,
    ) by {
        a_report_brings_all_peers_to_the_value(r, address, value, a);
    }
    lemma_nothing_to_push(r.devices, targets, value, now.held.insert(address, value));
}

/// A peer's confirmation of a value that the router just set it to is not bounced back: it sets
/// nothing, as long as the peer is linked to nothing but the origin of the change and the
/// origin's other peers. However often the confirmation comes, the change settles in one round.
pub proof fn a_confirmation_is_not_bounced(
    r: RouterModel,
    origin: AddressModel,
    value: ValueModel,
    peer: AddressModel,
)
    requires
        !value.nan(),
        forall|a: AddressModel| #[trigger]
            peers(r.mappings, peer).contains(a) ==> a == origin || peers(
                r.mappings,
                origin,
            ).contains(a) || !r.devices.contains(a.device_id),
    ensures
        r.reported(origin, value).1.reported(peer, value).0 == Seq::<AddressModel>::empty(),
{
    let now = r.reported(origin, value).1;
    let targets = peers(r.mappings, peer);
    assert forall|a: AddressModel| #[trigger]
        targets.contains(a) && r.devices.contains(a.device_id) implies holds(
        now.held.insert(peer, value),
        a,
        value,
    ) by {
        a_report_brings_all_peers_to_the_value(r, origin, value, a);
    }
    lemma_nothing_to_push(r.devices, targets, value, now.held.insert(peer, value));
}

/// Two objects linked in both directions and to nothing else: a change of either is set on the
/// other exactly once, and the other's confirmation sets nothing.
pub proof fn a_linked_pair_settles_in_one_set(
    a: AddressModel,
    b: AddressModel,
    devices: Set<Seq<char>>,
    held: Map<AddressModel, ValueModel>,
    value: ValueModel,
)
    requires
        a != b,
        devices.contains(a.device_id),
        devices.contains(b.device_id),
        !value.nan(),
        !holds(held, b, value),
    ensures
        ({
            let r = RouterModel {
                devices,
                mappings: seq![MappingModel { from: a, to: b, bidirectional: true }],
                held,
            };
            &&& r.reported(a, value).0 == seq![b]
            &&& r.reported(a, value).1.reported(b, value).0 == Seq::<AddressModel>::empty()
        }),
{
    let m = MappingModel { from: a, to: b, bidirectional: true };
    let table = seq![m];
    let r = RouterModel { devices, mappings: table, held };
    assert(table.drop_last() =~= Seq::<MappingModel>::empty());
    reveal_with_fuel(peers, 2);
    assert(peers(table, a) =~= seq![b]);
    assert(peers(table, b) =~= seq![a]);
    assert(seq![b].drop_last() =~= Seq::<AddressModel>::empty());
    reveal_with_fuel(pushed, 2);
    assert(r.reported(a, value).0 =~= seq![b]);
    a_confirmation_is_not_bounced(r, a, value, b);
}

/// A device that is not registered is never set.
pub proof fn an_unregistered_device_is_never_set(
    r: RouterModel,
    address: AddressModel,
    value: ValueModel,
    peer: AddressModel,
)
    requires
        !r.devices.contains(peer.device_id),
    ensures
        !r.reported(address, value).0.contains(peer),
{
    exactly_the_peers_without_the_value_are_set(r, address, value, peer);
}

/// Where a change goes is decided link by link: an address that is the source of a link has its target
/// among the peers, and one that is the target of a link in both directions has its source there.
pub proof fn every_link_leads_to_its_peer(
    mappings: Seq<MappingModel>,
    address: AddressModel,
    i: int,
)
    requires
        0 <= i < mappings.len(),
    ensures
        mappings[i].from == address ==> peers(mappings, address).contains(mappings[i].to),
        mappings[i].bidirectional && mappings[i].to == address && mappings[i].from != address
            ==> peers(mappings, address).contains(mappings[i].from),
    decreases mappings.len(),
{
    let all = peers(mappings, address);
    let before = peers(mappings.drop_last(), address);
    let m = mappings[i];
    if i == mappings.len() - 1 {
        if m.from == address || m.bidirectional && m.to == address {
            assert(all[all.len() - 1] == all.last());
        }
    } else {
        assert(mappings.drop_last()[i] == m);
        every_link_leads_to_its_peer(mappings.drop_last(), address, i);
        if before.contains(m.to) {
            assert(all[before.index_of(m.to)] == m.to);
        }
        if before.contains(m.from) {
            assert(all[before.index_of(m.from)] == m.from);
        }
    }
}

/// A peer is the other end of some link of the address, followed forwards or, where the link allows
/// it, backwards.
pub proof fn every_peer_is_linked(mappings: Seq<MappingModel>, address: AddressModel, k: int)
    requires
        0 <= k < peers(mappings, address).len(),
    ensures
        exists|i: int|
            0 <= i < mappings.len() && ({
                ||| (#[trigger] mappings[i]).from == address && mappings[i].to == peers(
                    mappings,
                    address,
                )[k]
                ||| mappings[i].bidirectional && mappings[i].to == address && mappings[i].from
                    != address && mappings[i].from == peers(mappings, address)[k]
            }),
    decreases mappings.len(),
{
    let all = peers(mappings, address);
    let before = peers(mappings.drop_last(), address);
    let last = mappings.len() - 1;
    if k < before.len() {
        every_peer_is_linked(mappings.drop_last(), address, k);
        let i = choose|i: int|
            0 <= i < mappings.drop_last().len() && ({
                ||| (#[trigger] mappings.drop_last()[i]).from == address
                    && mappings.drop_last()[i].to == before[k]
                ||| mappings.drop_last()[i].bidirectional && mappings.drop_last()[i].to == address
                    && mappings.drop_last()[i].from != address && mappings.drop_last()[i].from
                    == before[k]
            });
        assert(mappings[i] == mappings.drop_last()[i]);
        assert(all[k] == before[k]);
    } else {
        assert(mappings[last] == mappings.last());
    }
}

/// The peers come in the order of the table, one for each link that leads away from the address.
pub proof fn peers_come_in_the_order_of_the_links(
    first: Seq<MappingModel>,
    second: Seq<MappingModel>,
    m: MappingModel,
    address: AddressModel,
)
    ensures
        peers(first + second, address) == peers(first, address) + peers(second, address),
        m.from == address ==> peers(seq![m], address) == seq![m.to],
        m.from != address && m.to == address && m.bidirectional ==> peers(seq![m], address)
            == seq![m.from],
        m.from != address && (m.to != address || !m.bidirectional) ==> peers(
            seq![m],
            address,
        ).len() == 0,
    decreases second.len(),
{
    assert(seq![m].drop_last() =~= Seq::<MappingModel>::empty());
    reveal_with_fuel(peers, 2);
    assert(peers(seq![m], address) =~= peers(seq![m], address));
    if second.len() == 0 {
        assert(first + second =~= first);
    } else {
        assert((first + second).drop_last() =~= first + second.drop_last());
        peers_come_in_the_order_of_the_links(first, second.drop_last(), m, address);
    }
}

/// A report sets the other end of every link that leads away from the address, if its device is
/// registered and it is not known to hold the value; it holds the value from then on. One that holds
/// it is left alone.
pub proof fn a_report_follows_every_link(
    r: RouterModel,
    address: AddressModel,
    value: ValueModel,
    i: int,
)
    requires
        0 <= i < r.mappings.len(),
    ensures
        ({
            let m = r.mappings[i];
            let (set, now) = r.reported(address, value);
            &&& m.from == address && m.to != address && r.devices.contains(m.to.device_id) && (
            !r.held.contains_key(m.to) || !r.held[m.to].same(value)) ==> set.contains(m.to)
                && now.held.contains_key(m.to) && now.held[m.to] == value
            &&& m.bidirectional && m.to == address && m.from != address && r.devices.contains(
                m.from.device_id,
            ) && (!r.held.contains_key(m.from) || !r.held[m.from].same(value)) ==> set.contains(
                m.from,
            ) && now.held.contains_key(m.from) && now.held[m.from] == value
            &&& m.to != address && r.held.contains_key(m.to) && r.held[m.to].same(value)
                ==> !set.contains(m.to) && now.held.contains_key(m.to) && now.held[m.to]
                == r.held[m.to]
            &&& m.from != address && r.held.contains_key(m.from) && r.held[m.from].same(value)
                ==> !set.contains(m.from) && now.held.contains_key(m.from) && now.held[m.from]
                == r.held[m.from]
        }),
{
    let m = r.mappings[i];
    let held = r.held.insert(address, value);
    let all = peers(r.mappings, address);
    every_link_leads_to_its_peer(r.mappings, address, i);
    lemma_pushed(r.devices, all, value, held);
    assert(held.contains_key(m.to) || !held.contains_key(m.to));
    assert(held.contains_key(m.from) || !held.contains_key(m.from));
}

/// A report sets nothing but other ends of links of the address, each on a registered device; what it
/// does not set keeps what it held, the reporting address has the value, and neither the table nor
/// the devices change.
pub proof fn a_report_changes_nothing_else(
    r: RouterModel,
    address: AddressModel,
    value: ValueModel,
    other: AddressModel,
)
    ensures
        ({
            let (set, now) = r.reported(address, value);
            &&& now.devices == r.devices
            &&& now.mappings == r.mappings
            &&& now.held.contains_key(address) && now.held[address] == value
            &&& set.contains(other) ==> r.devices.contains(other.device_id)
            &&& set.contains(other) ==> exists|i: int|
                0 <= i < r.mappings.len() && ({
                    ||| (#[trigger] r.mappings[i]).from == address && r.mappings[i].to == other
                    ||| r.mappings[i].bidirectional && r.mappings[i].to == address
                        && r.mappings[i].from == other
                })
            &&& other != address && !set.contains(other) ==> now.held.contains_key(other)
                == r.held.contains_key(other) && (r.held.contains_key(other) ==> now.held[other]
                == r.held[other])
        }),
{
    let held = r.held.insert(address, value);
    let all = peers(r.mappings, address);
    let (set, now) = r.reported(address, value);
    lemma_pushed(r.devices, all, value, held);
    assert(held.contains_key(other) || !held.contains_key(other));
    assert(held.contains_key(address));
    if set.contains(other) {
        let k = all.index_of(other);
        every_peer_is_linked(r.mappings, address, k);
        let i = choose|i: int|
            0 <= i < r.mappings.len() && ({
                ||| (#[trigger] r.mappings[i]).from == address && r.mappings[i].to == all[k]
                ||| r.mappings[i].bidirectional && r.mappings[i].to == address
                    && r.mappings[i].from != address && r.mappings[i].from == all[k]
            });
        assert(all[k] == other);
        assert(r.mappings[i].from == address && r.mappings[i].to == other
            || r.mappings[i].bidirectional && r.mappings[i].to == address && r.mappings[i].from
            == other);
    }
}

/// However many links lead to it, no address is set twice by one report.
pub proof fn nothing_is_set_twice(
    r: RouterModel,
    address: AddressModel,
    value: ValueModel,
    i: int,
    j: int,
)
    requires
        !value.nan(),
        0 <= i < j < r.reported(address, value).0.len(),
    ensures
        r.reported(address, value).0[i] != r.reported(address, value).0[j],
{
    lemma_set_once(
        r.devices,
        peers(r.mappings, address),
        value,
        r.held.insert(address, value),
        i,
        j,
    );
}

proof fn lemma_set_once(
    devices: Set<Seq<char>>,
    peers: Seq<AddressModel>,
    value: ValueModel,
    held: Map<AddressModel, ValueModel>,
    i: int,
    j: int,
)
    requires
        !value.nan(),
        0 <= i < j < pushed(devices, peers, value, held).0.len(),
    ensures
        pushed(devices, peers, value, held).0[i] != pushed(devices, peers, value, held).0[j],
    decreases peers.len(),
{
    let before = peers.drop_last();
    let (out1, now1) = pushed(devices, before, value, held);
    if j < out1.len() {
        lemma_set_once(devices, before, value, held, i, j);
    } else {
        lemma_pushed(devices, before, value, held);
        assert(out1.contains(out1[i]));
        assert(now1.contains_key(out1[i]));
    }
}

/// A link is told by its two ends, in this order, whether or not it leads back.
pub proof fn a_link_is_told_by_its_ends(m: MappingModel, other: AddressModel)
    ensures
        links(m, m.from, m.to),
        other != m.from ==> !links(m, other, m.to),
        other != m.to ==> !links(m, m.from, other),
{
}

} // verus!
