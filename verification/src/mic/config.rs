//! The configuration of the microphone monitor.
use vstd::prelude::*;

use crate::address::IpAddress;
use crate::text;
use crate::text::find_repeated;

verus! {

pub const DEFAULT_SHURE_PORT: u16 = 2202;

pub const DEFAULT_SENNHEISER_PORT: u16 = 45;

/// The channels that are asked for once after connecting, from 1 on. No receiver in scope has
/// more.
pub const CHANNELS_TO_PRIME: u16 = 4;

/// The kinds of receiver.
#[derive(Debug, Clone, Copy, PartialEq, Eq, Structural)]
pub enum MicKind {
    ShureUlxd,
    ShureAxient,
    SennheiserEwdx,
}

/// One receiver.
#[derive(Debug, Clone)]
pub struct MicConfig {
    pub id: String,
    pub kind: MicKind,
    pub address: IpAddress,
    pub port: Option<u16>,
}

/// A whole configuration.
#[derive(Debug, Clone)]
pub struct Config {
    pub mics: Vec<MicConfig>,
}

impl MicConfig {
    /// The port to connect to: the one that is given, or the default of the kind.
    pub fn remote_port(&self) -> (r: u16)
        ensures
            r == (match self.port {
                Some(p) => p,
                None => if self.kind == MicKind::SennheiserEwdx {
                    45
                } else {
                    2202
                },
            }),
    {
        match self.port {
            Some(p) => p,
            None => match self.kind {
                MicKind::ShureUlxd => DEFAULT_SHURE_PORT,
                MicKind::ShureAxient => DEFAULT_SHURE_PORT,
                MicKind::SennheiserEwdx => DEFAULT_SENNHEISER_PORT,
            },
        }
    }
}

/// The ids of a list of receivers.
pub open spec fn mic_ids(v: Seq<MicConfig>) -> Seq<Seq<char>> {
    v.map_values(|m: MicConfig| m.id@)
}

/// Why a configuration is refused: an id that two receivers have.
pub open spec fn fault(c: Config) -> Option<Seq<char>> {
    let ids = mic_ids(c.mics@);
    match text::first_repeated(ids, 0) {
        Some(k) => Some("duplicate mic id '"@ + ids[k] + "' in config"@),
        None => None,
    }
}

impl Config {
    /// Checks that no two receivers have one id.
    pub fn validate(&self) -> (r: Result<(), String>)
        ensures
            match r {
                Ok(_) => fault(*self) is None,
                Err(why) => fault(*self) == Some(why@),
            },
    {
        let mut ids: Vec<String> = Vec::new();
        let mut i: usize = 0;
        while i < self.mics.len()
            invariant
                i <= self.mics.len(),
                text::texts(ids@) =~= mic_ids(self.mics@).take(i as int),
            decreases self.mics.len() - i,
        {
            let ghost before = text::texts(ids@);
            let id = self.mics[i].id.clone();
            ids.push(id);
            assert(text::texts(ids@) =~= before.push(id@));
            i = i + 1;
        }
        assert(mic_ids(self.mics@).take(i as int) =~= mic_ids(self.mics@));
        if let Some(k) = find_repeated(ids.as_slice()) {
            assert(text::texts(ids@)[k as int] == ids@[k as int]@);
            let mut why: String = "duplicate mic id '".to_owned();
            why.append(ids[k].as_str());
            why.append("' in config");
            return Err(why);
        }
        Ok(())
    }
}

/// A configuration is accepted exactly if its ids are distinct.
pub proof fn what_is_accepted(c: Config)
    ensures
        fault(c) is None <==> mic_ids(c.mics@).no_duplicates(),
{
    assert(mic_ids(c.mics@).take(0).no_duplicates());
    text::a_repeat_is_a_duplicate(mic_ids(c.mics@), 0);
}

/// A refusal names an id that another receiver before it has, the first there is.
pub proof fn a_refusal_names_the_repeated_id(c: Config)
    requires
        fault(c) is Some,
    ensures
        exists|i: int, j: int|
            0 <= j < i < c.mics@.len() && (#[trigger] c.mics@[i]).id@ == (
            #[trigger] c.mics@[j]).id@ && fault(c) == Some(
                "duplicate mic id '"@ + c.mics@[i].id@ + "' in config"@,
            ) && mic_ids(c.mics@).take(i).no_duplicates(),
{
    let ids = mic_ids(c.mics@);
    text::the_first_repeat_is_first(ids, 0);
    let i = text::first_repeated(ids, 0)->0;
    let j = choose|j: int| 0 <= j < i && #[trigger] ids[j] == ids[i];
    assert(c.mics@[i].id@ == c.mics@[j].id@);
    let before = ids.take(i);
    assert forall|a: int, b: int|
        0 <= a < before.len() && 0 <= b < before.len() && a != b implies before[a] != before[b] by {
        if a < b {
            assert(ids[a] != ids[b]);
        } else {
            assert(ids[b] != ids[a]);
        }
    }
}

} // verus!
