//! Internal object numbers.
use vstd::prelude::*;

use crate::oca::value::OcaClass;
use crate::text;
use crate::text::{push_hex, text_eq};

verus! {

/// An internal object identity. It is allocated, not packed from any vendor's bit layout.
#[derive(Debug, Clone, Copy, PartialEq, Eq, PartialOrd, Ord, Hash, Structural)]
pub struct Ono(pub u32);

impl vstd::std_specs::convert::FromSpecImpl<u32> for Ono {
    open spec fn obeys_from_spec() -> bool {
        true
    }

    open spec fn from_spec(v: u32) -> Self {
        Ono(v)
    }
}

impl From<u32> for Ono {
    fn from(v: u32) -> Self {
        Ono(v)
    }
}

impl vstd::std_specs::convert::FromSpecImpl<Ono> for u32 {
    open spec fn obeys_from_spec() -> bool {
        true
    }

    open spec fn from_spec(v: Ono) -> Self {
        v.0
    }
}

impl From<Ono> for u32 {
    fn from(v: Ono) -> Self {
        v.0
    }
}

impl Ono {
    /// The number as padded hexadecimal.
    pub open spec fn text(self) -> Seq<char> {
        "0x"@ + text::hex(self.0 as nat, 8)
    }

    /// The number as padded hexadecimal.
    pub fn to_text(&self) -> (r: String)
        ensures
            r@ == self.text(),
    {
        let mut out: String = String::new();
        out.append("0x");
        push_hex(&mut out, self.0, 8);
        assert(out@ =~= self.text());
        out
    }
}

/// What an object means on a device.
struct Key {
    device_id: String,
    channel: u16,
    class: OcaClass,
    role: String,
}

/// What an object means on a device: which device and channel, what class and what role.
#[verifier::ext_equal]
pub struct KeyModel {
    pub device_id: Seq<char>,
    pub channel: u16,
    pub class: OcaClass,
    pub role: Seq<char>,
}

/// Hands out object numbers: the same one for the same meaning, and different ones for different
/// meanings, in the order in which they are asked for.
pub struct OnoAllocator {
    assigned: Vec<Key>,
}

impl OnoAllocator {
    spec fn key_at(&self, i: int) -> KeyModel {
        KeyModel {
            device_id: self.assigned@[i].device_id@,
            channel: self.assigned@[i].channel,
            class: self.assigned@[i].class,
            role: self.assigned@[i].role@,
        }
    }

    /// The meanings that have a number, in the order in which they got it: the first has 1, the
    /// next 2, and so on.
    pub closed spec fn keys(&self) -> Seq<KeyModel> {
        Seq::new(self.assigned@.len(), |i: int| self.key_at(i))
    }

    /// No meaning has two numbers, and there is a number after the last one.
    pub open spec fn wf(&self) -> bool {
        self.keys().no_duplicates() && self.keys().len() <= 0xffff_fffe
    }

    /// An allocator that has handed out nothing yet. 0 is reserved, so that an unset number is
    /// never mistaken for an allocated one.
    pub fn new() -> (r: Self)
        ensures
            r.wf(),
            r.keys() == Seq::<KeyModel>::empty(),
    {
        let r = OnoAllocator { assigned: Vec::new() };
        assert(r.keys() =~= Seq::empty());
        r
    }

    /// The number of what is meant: the one it has, or the next one. The last number is never
    /// handed out.
    pub fn allocate(&mut self, device_id: &str, channel: u16, class: OcaClass, role: &str) -> (r:
        Ono)
        requires
            old(self).wf(),
            old(self).keys().contains(
                KeyModel { device_id: device_id@, channel, class, role: role@ },
            ) || old(self).keys().len() < 0xffff_fffe,
        ensures
            final(self).wf(),
            ({
                let key = KeyModel { device_id: device_id@, channel, class, role: role@ };
                let keys = old(self).keys();
                if keys.contains(key) {
                    &&& final(self).keys() == keys
                    &&& keys[r.0 - 1] == key
                    &&& 1 <= r.0 <= keys.len()
                } else {
                    &&& final(self).keys() == keys.push(key)
                    &&& r.0 == keys.len() + 1
                }
            }),
            ({
                let key = KeyModel { device_id: device_id@, channel, class, role: role@ };
                &&& final(self).keys() == with_key(old(self).keys(), key)
                &&& r.0 == number_of(final(self).keys(), key)
            }),
    {
        let ghost key = KeyModel { device_id: device_id@, channel, class, role: role@ };
        let mut i: usize = 0;
        while i < self.assigned.len()
            invariant
                i <= self.assigned.len(),
                *self == *old(self),
                self.wf(),
                old(self).keys().contains(key) || old(self).keys().len() < 0xffff_fffe,
                key == (KeyModel { device_id: device_id@, channel, class, role: role@ }),
                forall|j: int| 0 <= j < i ==> #[trigger] self.keys()[j] != key,
            decreases self.assigned.len() - i,
        {
            let k = &self.assigned[i];
            if k.channel == channel && k.class == class && text_eq(k.device_id.as_str(), device_id)
                && text_eq(k.role.as_str(), role) {
                assert(self.keys()[i as int] == key);
                assert(self.keys().index_of(key) == i);
                return Ono(i as u32 + 1);
            }
            assert(self.keys()[i as int] != key);
            i = i + 1;
        }
        let ghost before = self.keys();
        assert(!before.contains(key));
        let number: u32 = self.assigned.len() as u32 + 1;
        self.assigned.push(
            Key { device_id: device_id.to_owned(), channel, class, role: role.to_owned() },
        );
        assert(self.keys() =~= before.push(key));
        assert(self.keys()[before.len() as int] == key);
        assert(self.keys().index_of(key) == before.len());
        Ono(number)
    }
}

/// The number that a meaning has: numbers are handed out in order, starting after the reserved 0.
pub open spec fn number_of(keys: Seq<KeyModel>, key: KeyModel) -> int
    recommends
        keys.contains(key),
{
    keys.index_of(key) + 1
}

/// The meanings that have a number once one more was asked for.
pub open spec fn with_key(keys: Seq<KeyModel>, key: KeyModel) -> Seq<KeyModel> {
    if keys.contains(key) {
        keys
    } else {
        keys.push(key)
    }
}

/// The meanings that have a number once a new allocator was asked for those in `calls`, in order.
pub open spec fn keys_after(calls: Seq<KeyModel>) -> Seq<KeyModel>
    decreases calls.len(),
{
    if calls.len() == 0 {
        seq![]
    } else {
        with_key(keys_after(calls.drop_last()), calls.last())
    }
}

/// The number that a new allocator answers the call `i` of `calls` with.
pub open spec fn answer(calls: Seq<KeyModel>, i: int) -> int {
    number_of(keys_after(calls.take(i + 1)), calls[i])
}

proof fn lemma_keys_after(calls: Seq<KeyModel>, i: int)
    requires
        0 <= i < calls.len(),
    ensures
        keys_after(calls).no_duplicates(),
        keys_after(calls).len() <= calls.len(),
        keys_after(calls).contains(calls[i]),
        number_of(keys_after(calls), calls[i]) == answer(calls, i),
    decreases calls.len(),
{
    let before = calls.drop_last();
    let keys = keys_after(before);
    let after = keys_after(calls);
    if before.len() > 0 {
        lemma_keys_after(before, 0);
    }
    assert(after.no_duplicates());
    assert(calls.take(calls.len() as int) =~= calls);
    if i == calls.len() - 1 {
        if !keys.contains(calls[i]) {
            assert(after[keys.len() as int] == calls[i]);
        }
    } else {
        lemma_keys_after(before, i);
        assert(before.take(i + 1) =~= calls.take(i + 1));
        let k = keys.index_of(calls[i]);
        assert(after[k] == calls[i]);
        assert(after[after.index_of(calls[i])] == calls[i]);
    }
}

/// Of a sequence of calls on a new allocator, two get the same number exactly if they mean the
/// same, and none gets 0. Which numbers they are depends on the sequence alone.
pub proof fn calls_get_one_number_for_one_meaning(calls: Seq<KeyModel>, i: int, j: int)
    requires
        0 <= i < calls.len(),
        0 <= j < calls.len(),
    ensures
        answer(calls, i) == answer(calls, j) <==> calls[i] == calls[j],
        1 <= answer(calls, i) <= calls.len(),
{
    lemma_keys_after(calls, i);
    lemma_keys_after(calls, j);
    let keys = keys_after(calls);
    assert(keys[keys.index_of(calls[i])] == calls[i]);
    assert(keys[keys.index_of(calls[j])] == calls[j]);
}

/// Different meanings have different numbers, none of them 0, and a number stays the same when
/// more are handed out.
pub proof fn numbers_are_distinct_and_stable(
    keys: Seq<KeyModel>,
    more: Seq<KeyModel>,
    a: KeyModel,
    b: KeyModel,
)
    requires
        (keys + more).no_duplicates(),
        keys.contains(a),
        keys.contains(b),
    ensures
        number_of(keys, a) > 0,
        a != b ==> number_of(keys, a) != number_of(keys, b),
        number_of(keys + more, a) == number_of(keys, a),
{
    let all = keys + more;
    let i = keys.index_of(a);
    assert(all[i] == a);
    let j = all.index_of(a);
    assert(all[j] == a);
}

proof fn lemma_keys_were_asked_for(calls: Seq<KeyModel>, k: int)
    requires
        0 <= k < keys_after(calls).len(),
    ensures
        exists|j: int| 0 <= j < calls.len() && #[trigger] calls[j] == keys_after(calls)[k],
    decreases calls.len(),
{
    let before = calls.drop_last();
    if k < keys_after(before).len() {
        lemma_keys_were_asked_for(before, k);
        let j = choose|j: int|
            0 <= j < before.len() && #[trigger] before[j] == keys_after(before)[k];
        assert(calls[j] == keys_after(calls)[k]);
    } else {
        assert(calls[calls.len() - 1] == keys_after(calls)[k]);
    }
}

/// A meaning that was not asked for before gets the number after all that were handed out; the first
/// gets 1.
pub proof fn numbers_are_handed_out_in_order(calls: Seq<KeyModel>, i: int)
    requires
        0 <= i < calls.len(),
        forall|j: int| 0 <= j < i ==> #[trigger] calls[j] != calls[i],
    ensures
        i == 0 ==> answer(calls, i) == 1,
        forall|j: int| 0 <= j < i ==> #[trigger] answer(calls, j) < answer(calls, i),
        i > 0 ==> exists|j: int|
            0 <= j < i && #[trigger] answer(calls, j) + 1 == answer(calls, i),
{
    let before = calls.take(i);
    let keys = keys_after(before);
    let upto = calls.take(i + 1);
    assert(upto.drop_last() =~= before);
    assert(upto.last() == calls[i]);
    if keys.contains(calls[i]) {
        let k = keys.index_of(calls[i]);
        lemma_keys_were_asked_for(before, k);
        let j = choose|j: int| 0 <= j < before.len() && #[trigger] before[j] == keys[k];
        assert(calls[j] == calls[i]);
    }
    let after = keys_after(upto);
    assert(after == keys.push(calls[i]));
    lemma_keys_after(upto, i);
    assert(upto[i] == calls[i]);
    assert(after[keys.len() as int] == calls[i]);
    assert(after[after.index_of(calls[i])] == calls[i]);
    assert(answer(calls, i) == keys.len() + 1);
    assert forall|j: int| 0 <= j < i implies #[trigger] answer(calls, j) < answer(calls, i) by {
        lemma_keys_after(before, j);
        assert(before.take(j + 1) =~= calls.take(j + 1));
        assert(before[j] == calls[j]);
        assert(answer(before, j) == answer(calls, j));
        assert(keys[keys.index_of(calls[j])] == calls[j]);
    }
    if i > 0 {
        lemma_keys_after(before, 0);
        let last = keys.len() - 1;
        assert(keys.contains(before[0]));
        lemma_keys_were_asked_for(before, last);
        let j = choose|j: int| 0 <= j < before.len() && #[trigger] before[j] == keys[last];
        lemma_keys_after(before, j);
        assert(before.take(j + 1) =~= calls.take(j + 1));
        assert(before[j] == calls[j]);
        assert(keys[keys.index_of(calls[j])] == calls[j]);
        assert(answer(calls, j) == keys.len());
    }
}

/// A number is written as eight hexadecimal digits behind a prefix that says so.
pub proof fn a_number_is_spelled_out(ono: Ono)
    ensures
        ono.text().len() == 10,
        ono.text()[0] == '0' && ono.text()[1] == 'x',
        text::hex_value(ono.text().skip(2)) == ono.0,
{
    reveal_strlit("0x");
    text::hex_spells_the_number(ono.0 as nat, 8);
    assert(ono.text().skip(2) =~= text::hex(ono.0 as nat, 8));
}

} // verus!
