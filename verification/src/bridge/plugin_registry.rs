//! The open set of device kinds that the bridge can build adapters for.
use vstd::prelude::*;

use crate::bridge::device;
use crate::bridge::device::DeviceConfig;
use crate::plugin::abi::RDeviceConfig;
use crate::text;
use crate::text::{chars_of, match_at, text_eq};

verus! {

/// Where the adapters of a kind come from: the place of a constructor that is linked in, or of a
/// plugin that was loaded.
#[derive(Debug, Clone, Copy, PartialEq, Eq, Structural)]
pub enum RegisteredKind {
    Static(usize),
    Dylib(usize),
}

/// The kinds that are registered. Registering a kind again replaces what was registered.
pub struct PluginRegistry {
    entries: Vec<(String, RegisteredKind)>,
}

spec fn entry_map(entries: Seq<(String, RegisteredKind)>) -> Map<Seq<char>, RegisteredKind>
    decreases entries.len(),
{
    if entries.len() == 0 {
        Map::empty()
    } else {
        entry_map(entries.drop_last()).insert(entries.last().0@, entries.last().1)
    }
}

spec fn distinct_kinds(entries: Seq<(String, RegisteredKind)>) -> bool {
    forall|i: int, j: int|
        0 <= i < j < entries.len() ==> (#[trigger] entries[i]).0@ != (#[trigger] entries[j]).0@
}

proof fn lemma_entry_map(entries: Seq<(String, RegisteredKind)>)
    requires
        distinct_kinds(entries),
    ensures
        forall|i: int|
            0 <= i < entries.len() ==> entry_map(entries).contains_key((#[trigger] entries[i]).0@)
                && entry_map(entries)[entries[i].0@] == entries[i].1,
        forall|k: Seq<char>| #[trigger]
            entry_map(entries).contains_key(k) ==> exists|i: int|
                0 <= i < entries.len() && (#[trigger] entries[i]).0@ == k,
    decreases entries.len(),
{
    if entries.len() > 0 {
        let before = entries.drop_last();
        assert(distinct_kinds(before)) by {
            assert forall|i: int, j: int| 0 <= i < j < before.len() implies (#[trigger] before[i]).0@
                != (#[trigger] before[j]).0@ by {
                assert(entries[i].0@ != entries[j].0@);
            }
        }
        lemma_entry_map(before);
        assert forall|i: int| 0 <= i < entries.len() implies entry_map(entries).contains_key(
            (#[trigger] entries[i]).0@,
        ) && entry_map(entries)[entries[i].0@] == entries[i].1 by {
            if i < before.len() {
                assert(before[i] == entries[i]);
                assert(entries[i].0@ != entries[entries.len() - 1].0@);
            }
        }
        assert forall|k: Seq<char>| #[trigger]
            entry_map(entries).contains_key(k) implies exists|i: int|
            0 <= i < entries.len() && (#[trigger] entries[i]).0@ == k by {
            if entry_map(before).contains_key(k) {
                let i = choose|i: int| 0 <= i < before.len() && (#[trigger] before[i]).0@ == k;
                assert(entries[i].0@ == k);
            } else {
                assert(entries[entries.len() - 1].0@ == k);
            }
        }
    }
}

impl View for PluginRegistry {
    type V = Map<Seq<char>, RegisteredKind>;

    closed spec fn view(&self) -> Map<Seq<char>, RegisteredKind> {
        entry_map(self.entries@)
    }
}

/// Why a device of an unregistered kind cannot be built.
pub open spec fn unregistered(kind: Seq<char>) -> Seq<char> {
    "no plugin registered for kind '"@ + kind + "'"@
}

/// `registered` with all of `kinds` registered for a plugin.
pub open spec fn with_kinds(
    registered: Map<Seq<char>, RegisteredKind>,
    kinds: Seq<Seq<char>>,
    plugin: usize,
) -> Map<Seq<char>, RegisteredKind>
    decreases kinds.len(),
{
    if kinds.len() == 0 {
        registered
    } else {
        with_kinds(registered, kinds.drop_last(), plugin).insert(
            kinds.last(),
            RegisteredKind::Dylib(plugin),
        )
    }
}

impl PluginRegistry {
    /// No kind is registered twice.
    pub closed spec fn wf(&self) -> bool {
        distinct_kinds(self.entries@)
    }

    /// A registry without kinds.
    pub fn new() -> (r: Self)
        ensures
            r.wf(),
            r@ == Map::<Seq<char>, RegisteredKind>::empty(),
    {
        PluginRegistry { entries: Vec::new() }
    }

    fn position(&self, kind: &str) -> (r: Option<usize>)
        requires
            self.wf(),
        ensures
            match r {
                Some(i) => i < self.entries@.len() && self.entries@[i as int].0@ == kind@
                    && self@.contains_key(kind@) && self@[kind@] == self.entries@[i as int].1,
                None => !self@.contains_key(kind@),
            },
    {
        proof {
            lemma_entry_map(self.entries@);
        }
        let mut i: usize = 0;
        while i < self.entries.len()
            invariant
                i <= self.entries.len(),
                forall|j: int| 0 <= j < i ==> (#[trigger] self.entries@[j]).0@ != kind@,
                forall|j: int|
                    0 <= j < self.entries@.len() ==> self@.contains_key(
                        (#[trigger] self.entries@[j]).0@,
                    ) && self@[self.entries@[j].0@] == self.entries@[j].1,
            decreases self.entries.len() - i,
        {
            if text_eq(self.entries[i].0.as_str(), kind) {
                return Some(i);
            }
            i = i + 1;
        }
        None
    }

    fn register(&mut self, kind: &str, source: RegisteredKind)
        requires
            old(self).wf(),
        ensures
            final(self).wf(),
            final(self)@ == old(self)@.insert(kind@, source),
    {
        let ghost before = self.entries@;
        proof {
            lemma_entry_map(before);
        }
        match self.position(kind) {
            Some(i) => {
                self.entries.set(i, (kind.to_owned(), source));
                let ghost after = self.entries@;
                assert(distinct_kinds(after)) by {
                    assert forall|j: int, k: int| 0 <= j < k < after.len() implies (
                    #[trigger] after[j]).0@ != (#[trigger] after[k]).0@ by {
                        assert(before[j].0@ != before[k].0@);
                    }
                }
                proof {
                    lemma_entry_map(after);
                    assert forall|a: Seq<char>| #[trigger]
                        entry_map(after).contains_key(a) == entry_map(before).insert(
                            kind@,
                            source,
                        ).contains_key(a) by {
                        if entry_map(after).contains_key(a) {
                            let j = choose|j: int|
                                0 <= j < after.len() && (#[trigger] after[j]).0@ == a;
                            assert(before[j].0@ == a);
                        }
                        if entry_map(before).contains_key(a) {
                            let j = choose|j: int|
                                0 <= j < before.len() && (#[trigger] before[j]).0@ == a;
                            assert(after[j].0@ == a);
                        }
                        assert(after[i as int].0@ == kind@);
                    }
                    assert forall|a: Seq<char>| #[trigger]
                        entry_map(after).contains_key(a) implies entry_map(after)[a] == entry_map(
                        before,
                    ).insert(kind@, source)[a] by {
                        let j = choose|j: int|
                            0 <= j < after.len() && (#[trigger] after[j]).0@ == a;
                        assert(before[j].0@ == a);
                    }
                }
                assert(entry_map(after) =~= entry_map(before).insert(kind@, source));
            },
            None => {
                self.entries.push((kind.to_owned(), source));
                let ghost after = self.entries@;
                assert(after.drop_last() =~= before);
                assert(distinct_kinds(after)) by {
                    assert forall|j: int, k: int| 0 <= j < k < after.len() implies (
                    #[trigger] after[j]).0@ != (#[trigger] after[k]).0@ by {
                        assert(before[j].0@ == after[j].0@);
                        if k < before.len() {
                            assert(before[j].0@ != before[k].0@);
                        }
                    }
                }
            },
        }
    }

    /// Registers a kind whose constructor is linked in.
    pub fn register_static(&mut self, kind_id: &str, ctor: usize)
        requires
            old(self).wf(),
        ensures
            final(self).wf(),
            final(self)@ == old(self)@.insert(kind_id@, RegisteredKind::Static(ctor)),
    {
        self.register(kind_id, RegisteredKind::Static(ctor));
    }

    /// Registers every kind that a loaded plugin declares.
    pub fn register_dylib(&mut self, plugin: usize, kinds: &Vec<String>)
        requires
            old(self).wf(),
        ensures
            final(self).wf(),
            final(self)@ == with_kinds(old(self)@, text::texts(kinds@), plugin),
    {
        let ghost all = text::texts(kinds@);
        let ghost before = self@;
        let mut i: usize = 0;
        while i < kinds.len()
            invariant
                i <= kinds.len(),
                self.wf(),
                all == text::texts(kinds@),
                self@ == with_kinds(before, all.take(i as int), plugin),
            decreases kinds.len() - i,
        {
            assert(all.take(i + 1).drop_last() =~= all.take(i as int));
            assert(all.take(i + 1).last() == kinds@[i as int]@);
            self.register(kinds[i].as_str(), RegisteredKind::Dylib(plugin));
            i = i + 1;
        }
        assert(all.take(i as int) =~= all);
    }

    /// Every kind that is registered, each once.
    pub fn known_kinds(&self) -> (r: Vec<String>)
        requires
            self.wf(),
        ensures
            text::texts(r@).no_duplicates(),
            text::texts(r@).to_set() == self@.dom(),
    {
        proof {
            lemma_entry_map(self.entries@);
        }
        let mut out: Vec<String> = Vec::new();
        let mut i: usize = 0;
        while i < self.entries.len()
            invariant
                i <= self.entries.len(),
                out@.len() == i,
                forall|j: int| 0 <= j < i ==> #[trigger] out@[j]@ == self.entries@[j].0@,
            decreases self.entries.len() - i,
        {
            out.push(self.entries[i].0.clone());
            i = i + 1;
        }
        let ghost kinds = text::texts(out@);
        proof {
            assert forall|a: int, b: int| 0 <= a < b < kinds.len() implies kinds[a] != kinds[b] by {
                assert(self.entries@[a].0@ != self.entries@[b].0@);
            }
            assert forall|k: Seq<char>| kinds.to_set().contains(k) == self@.dom().contains(k) by {
                if self@.contains_key(k) {
                    let j = choose|j: int|
                        0 <= j < self.entries@.len() && (#[trigger] self.entries@[j]).0@ == k;
                    assert(kinds[j] == k);
                }
                if kinds.contains(k) {
                    let j = kinds.index_of(k);
                    assert(self.entries@[j].0@ == k);
                }
            }
            assert(kinds.to_set() =~= self@.dom());
        }
        out
    }

    /// Where the adapter of a device of that kind comes from.
    pub fn create(&self, kind: &str) -> (r: Result<RegisteredKind, String>)
        requires
            self.wf(),
        ensures
            match r {
                Ok(source) => self@.contains_key(kind@) && self@[kind@] == source,
                Err(e) => !self@.contains_key(kind@) && e@ == unregistered(kind@),
            },
    {
        match self.position(kind) {
            Some(i) => Ok(self.entries[i].1),
            None => {
                let mut why: String = String::new();
                why.append("no plugin registered for kind '");
                why.append(kind);
                why.append("'");
                assert(why@ =~= unregistered(kind@));
                Err(why)
            },
        }
    }
}

/// Whether a file is named like a dynamic library: something, a dot, and one of the extensions.
pub open spec fn is_library_name(name: Seq<char>) -> bool {
    has_extension(name, ".so"@) || has_extension(name, ".dylib"@) || has_extension(name, ".dll"@)
}

/// Whether `name` is more than `extension` and ends with it.
pub open spec fn has_extension(name: Seq<char>, extension: Seq<char>) -> bool {
    name.len() > extension.len() && text::stands_at(
        name,
        extension,
        name.len() - extension.len(),
    )
}

fn ends_with(name: &Vec<char>, extension: &str) -> (r: bool)
    ensures
        r == has_extension(name@, extension@),
{
    let e = chars_of(extension);
    if name.len() <= e.len() {
        return false;
    }
    match_at(name.as_slice(), e.as_slice(), name.len() - e.len())
}

/// Whether the file with the given name, without its directory, may be a plugin.
pub fn is_dylib_candidate(file_name: &str) -> (r: bool)
    ensures
        r == is_library_name(file_name@),
{
    let name = chars_of(file_name);
    ends_with(&name, ".so") || ends_with(&name, ".dylib") || ends_with(&name, ".dll")
}

/// What a plugin is told of a configured device, its address already written out as text.
pub fn to_ffi_config(config: &DeviceConfig, address: Option<String>) -> (r: RDeviceConfig)
    ensures
        r.id@ == config.id@,
        r.address == address,
        r.port == config.port,
        r.channels == (match config.channels {
            Some(n) => Some(n),
            None => device::known_channel_count(config.kind@),
        }),
{
    RDeviceConfig {
        id: config.id.clone(),
        address,
        port: config.port,
        channels: config.channel_count(),
    }
}

/// A plugin that is loaded gets every kind that it declares, and no other kind changes hands.
pub proof fn a_plugin_gets_the_kinds_it_declares(
    registered: Map<Seq<char>, RegisteredKind>,
    kinds: Seq<Seq<char>>,
    plugin: usize,
    kind: Seq<char>,
)
    ensures
        ({
            let now = with_kinds(registered, kinds, plugin);
            if exists|i: int| 0 <= i < kinds.len() && #[trigger] kinds[i] == kind {
                now.contains_key(kind) && now[kind] == RegisteredKind::Dylib(plugin)
            } else {
                now.contains_key(kind) == registered.contains_key(kind) && (
                registered.contains_key(kind) ==> now[kind] == registered[kind])
            }
        }),
    decreases kinds.len(),
{
    if kinds.len() > 0 {
        let less = kinds.drop_last();
        a_plugin_gets_the_kinds_it_declares(registered, less, plugin, kind);
        if exists|i: int| 0 <= i < less.len() && #[trigger] less[i] == kind {
            let i = choose|i: int| 0 <= i < less.len() && #[trigger] less[i] == kind;
            assert(kinds[i] == kind);
        }
        if exists|i: int| 0 <= i < kinds.len() && #[trigger] kinds[i] == kind {
            let i = choose|i: int| 0 <= i < kinds.len() && #[trigger] kinds[i] == kind;
            if i < less.len() {
                assert(less[i] == kind);
            }
        }
        assert(kinds[kinds.len() - 1] == kinds.last());
    }
}

/// A library's name is something and one of the three extensions; a name that ends otherwise is none.
pub proof fn a_library_is_known_by_its_extension(stem: Seq<char>, name: Seq<char>)
    ensures
        stem.len() > 0 ==> is_library_name(stem + ".so"@) && is_library_name(stem + ".dylib"@)
            && is_library_name(stem + ".dll"@),
        is_library_name(name) ==> exists|s: Seq<char>|
            s.len() > 0 && (name == #[trigger] (s + ".so"@) || name == s + ".dylib"@ || name == s
                + ".dll"@),
        !is_library_name(".so"@),
{
    reveal_strlit(".so");
    reveal_strlit(".dylib");
    reveal_strlit(".dll");
    let so = stem + ".so"@;
    let dylib = stem + ".dylib"@;
    let dll = stem + ".dll"@;
    assert(so.subrange(stem.len() as int, so.len() as int) =~= ".so"@);
    assert(dylib.subrange(stem.len() as int, dylib.len() as int) =~= ".dylib"@);
    assert(dll.subrange(stem.len() as int, dll.len() as int) =~= ".dll"@);
    if has_extension(name, ".so"@) {
        let s = name.take(name.len() - 3);
        assert(name =~= s + ".so"@);
    } else if has_extension(name, ".dylib"@) {
        let s = name.take(name.len() - 6);
        assert(s + ".so"@ == s + ".so"@);
        assert(name =~= s + ".dylib"@);
    } else if has_extension(name, ".dll"@) {
        let s = name.take(name.len() - 4);
        assert(s + ".so"@ == s + ".so"@);
        assert(name =~= s + ".dll"@);
    }
}

/// A refusal names the kind that no plugin is registered for.
pub proof fn a_refusal_names_the_kind(kind: Seq<char>)
    ensures
        unregistered(kind) == "no plugin registered for kind '"@ + kind + "'"@,
{
}

} // verus!
