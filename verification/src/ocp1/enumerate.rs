//! Runtime discovery of a device's object tree.
//!
//! AES70 leaves the allocation of object numbers to the vendor, so the vendor-neutral way to
//! find a control is to ask the device: walk the block tree down from the root block and read
//! each object's class and role.
//!
//! The method index of `GetMembers` and the form of its reply vary between devices. Candidates
//! for the first are tried in order; the second is read as a list of object identifications
//! and, where that does not account for the whole reply, as a list of bare object numbers. A
//! block that answers neither is a dead end, not an error.
use vstd::prelude::*;

use crate::bytes;
use crate::idset::IdSet;
use crate::ocp1::classes;
use crate::ocp1::classes::block;
use crate::ocp1::classes::{root, ClassIdentification, ClassModel};
use crate::ocp1::client;
use crate::ocp1::client::{read_class, read_role};
use crate::ocp1::error::Error;
use crate::ocp1::ono::Ono;
use crate::ocp1::pdu::MemberId;
use crate::ocp1::value;
use crate::ocp1::value::{Element, Reader};
use crate::text;

verus! {

/// How many blocks may be nested. A real tree is two or three levels deep; anything deeper is a
/// malformed reply or a loop.
pub const MAX_DEPTH: usize = 8;

/// Ceiling on the number of objects, so that a garbled length cannot spin forever.
pub const MAX_OBJECTS: usize = 4096;

/// One object found on a device.
#[derive(Debug, Clone, PartialEq, Eq)]
pub struct DiscoveredObject {
    pub ono: Ono,
    pub class: ClassIdentification,
    /// The object's own role, or its number in hexadecimal where the device gave none.
    pub role: String,
    /// Roles of the blocks that contain the object, outermost first.
    pub path: Vec<String>,
}

/// A [`DiscoveredObject`], its texts as sequences.
#[verifier::ext_equal]
pub struct ObjectModel {
    pub ono: u32,
    pub class: ClassModel,
    pub role: Seq<char>,
    pub path: Seq<Seq<char>>,
}

impl View for DiscoveredObject {
    type V = ObjectModel;

    open spec fn view(&self) -> ObjectModel {
        ObjectModel {
            ono: self.ono.0,
            class: self.class@,
            role: self.role@,
            path: text::texts(self.path@),
        }
    }
}

/// `path` with a slash after each of its parts.
pub open spec fn slashed(path: Seq<Seq<char>>) -> Seq<char>
    decreases path.len(),
{
    if path.len() == 0 {
        seq![]
    } else {
        slashed(path.drop_last()) + path.last() + seq!['/']
    }
}

impl DiscoveredObject {
    /// The role behind the path of its containers, all joined by slashes.
    pub fn qualified_role(&self) -> (r: String)
        ensures
            r@ == slashed(text::texts(self.path@)) + self.role@,
    {
        let mut out: String = String::new();
        let mut i: usize = 0;
        let ghost all = text::texts(self.path@);
        while i < self.path.len()
            invariant
                i <= self.path.len(),
                all == text::texts(self.path@),
                out@ == slashed(all.take(i as int)),
            decreases self.path.len() - i,
        {
            out.append(self.path[i].as_str());
            out.push('/');
            i = i + 1;
            assert(all.take(i as int).drop_last() =~= all.take(i - 1));
            assert(out@ =~= slashed(all.take(i as int)));
        }
        assert(all.take(i as int) =~= all);
        out.append(self.role.as_str());
        out
    }
}

/// A member of a block as the block lists it, its class where the list gives one.
#[derive(Debug, Clone)]
pub struct Member {
    pub ono: Ono,
    pub class: Option<ClassIdentification>,
}

/// A [`Member`], its class as a model.
#[verifier::ext_equal]
pub struct MemberModel {
    pub ono: u32,
    pub class: Option<ClassModel>,
}

impl View for Member {
    type V = MemberModel;

    open spec fn view(&self) -> MemberModel {
        MemberModel {
            ono: self.ono.0,
            class: match self.class {
                Some(c) => Some(c@),
                None => None,
            },
        }
    }
}

/// The models of a list of members.
pub open spec fn member_models(v: Seq<Member>) -> Seq<MemberModel> {
    v.map_values(|m: Member| m@)
}

// ---------------------------------------------------------------------------
// Replies
// ---------------------------------------------------------------------------

/// An object number and a class, as the richer form of the reply lists them.
pub struct ObjectIdentification {
    pub ono: u32,
    pub class: ClassIdentification,
}

impl View for ObjectIdentification {
    type V = MemberModel;

    open spec fn view(&self) -> MemberModel {
        MemberModel { ono: self.ono, class: Some(self.class@) }
    }
}

impl Element for ObjectIdentification {
    /// An object number, a counted list of class fields and a version. No class has no fields:
    /// that reading has drifted out of alignment.
    open spec fn parsed(s: Seq<u8>) -> (Result<MemberModel, Error>, Seq<u8>) {
        if s.len() < 4 {
            (Err(Error::Truncated), s)
        } else {
            let (fields, rest) = value::parsed_list::<u16>(s.skip(4));
            match fields {
                Err(e) => (Err(e), rest),
                Ok(fields) => if rest.len() < 4 {
                    (Err(Error::Truncated), rest)
                } else if fields.len() == 0 {
                    (Err(Error::Truncated), rest.skip(4))
                } else {
                    (
                        Ok(
                            MemberModel {
                                ono: bytes::u32_at(s, 0) as u32,
                                class: Some(
                                    ClassModel {
                                        fields,
                                        version: bytes::u32_at(rest, 0) as u32,
                                    },
                                ),
                            },
                        ),
                        rest.skip(4),
                    )
                },
            }
        }
    }

    fn read(r: &mut Reader<'_>) -> (res: Result<Self, Error>) {
        let ghost start = r@;
        let ono: u32 = match r.u32() {
            Ok(n) => n,
            Err(e) => return Err(e),
        };
        let fields: Vec<u16> = match r.list::<u16>() {
            Ok(f) => f,
            Err(e) => return Err(e),
        };
        assert(fields@.map_values(|x: u16| x@) =~= fields@);
        let version: u32 = match r.u32() {
            Ok(n) => n,
            Err(e) => return Err(e),
        };
        if fields.len() == 0 {
            return Err(Error::Truncated);
        }
        let item = ObjectIdentification { ono, class: ClassIdentification { fields, version } };
        assert(Self::parsed(start).0->Ok_0 == item@);
        Ok(item)
    }
}

/// The members that a reply lists with their classes, where that reading accounts for all of it.
pub open spec fn identified_members(params: Seq<u8>) -> Option<Seq<MemberModel>> {
    let (items, rest) = value::parsed_list::<ObjectIdentification>(params);
    if items is Ok && rest.len() == 0 {
        Some(items->Ok_0)
    } else {
        None
    }
}

/// The members that a reply lists by number alone, where that reading accounts for all of it.
pub open spec fn bare_members(params: Seq<u8>) -> Option<Seq<MemberModel>> {
    let (items, rest) = value::parsed_list::<u32>(params);
    if items is Ok && rest.len() == 0 {
        Some(items->Ok_0.map_values(|ono: u32| MemberModel { ono, class: None }))
    } else {
        None
    }
}

/// The members that a reply lists, the richer form preferred; none where neither form fits.
pub open spec fn members_reply(params: Seq<u8>) -> Seq<MemberModel> {
    match identified_members(params) {
        Some(members) => members,
        None => match bare_members(params) {
            Some(members) => members,
            None => seq![],
        },
    }
}

/// Reads a reply as a list of object identifications.
pub fn parse_object_identifications(params: &[u8]) -> (r: Option<Vec<Member>>)
    ensures
        match r {
            Some(v) => identified_members(params@) == Some(member_models(v@)),
            None => identified_members(params@) is None,
        },
{
    let mut r = Reader::new(params);
    let items: Vec<ObjectIdentification> = match r.list::<ObjectIdentification>() {
        Ok(v) => v,
        Err(_) => return None,
    };
    if !r.is_empty() {
        return None;
    }
    let mut out: Vec<Member> = Vec::new();
    let mut i: usize = 0;
    while i < items.len()
        invariant
            i <= items.len(),
            out@.len() == i,
            forall|j: int| 0 <= j < i ==> #[trigger] out@[j]@ == items@[j]@,
        decreases items.len() - i,
    {
        out.push(Member { ono: Ono(items[i].ono), class: Some(items[i].class.duplicate()) });
        i = i + 1;
    }
    assert(member_models(out@) =~= items@.map_values(|x: ObjectIdentification| x@));
    Some(out)
}

/// Reads a reply as a list of object numbers.
pub fn parse_bare_onos(params: &[u8]) -> (r: Option<Vec<Member>>)
    ensures
        match r {
            Some(v) => bare_members(params@) == Some(member_models(v@)),
            None => bare_members(params@) is None,
        },
{
    let mut r = Reader::new(params);
    let items: Vec<u32> = match r.list::<u32>() {
        Ok(v) => v,
        Err(_) => return None,
    };
    if !r.is_empty() {
        return None;
    }
    let mut out: Vec<Member> = Vec::new();
    let mut i: usize = 0;
    while i < items.len()
        invariant
            i <= items.len(),
            out@.len() == i,
            forall|j: int|
                0 <= j < i ==> #[trigger] out@[j]@ == (MemberModel {
                    ono: items@[j],
                    class: None,
                }),
        decreases items.len() - i,
    {
        out.push(Member { ono: Ono(items[i]), class: None });
        i = i + 1;
    }
    assert(member_models(out@) =~= items@.map_values(|x: u32| x@).map_values(
        |ono: u32| MemberModel { ono, class: None },
    ));
    Some(out)
}

/// Reads a `GetMembers` reply.
pub fn parse_members(params: &[u8]) -> (r: Vec<Member>)
    ensures
        member_models(r@) == members_reply(params@),
{
    if let Some(members) = parse_object_identifications(params) {
        return members;
    }
    match parse_bare_onos(params) {
        Some(members) => members,
        None => {
            let none: Vec<Member> = Vec::new();
            assert(member_models(none@) =~= seq![]);
            none
        },
    }
}

// ---------------------------------------------------------------------------
// The walk, as one would do it with the device at hand
// ---------------------------------------------------------------------------

/// What a device answers when a method of one of its objects is called without parameters.
pub type Answers = spec_fn(u32, MemberId) -> Result<Seq<u8>, Error>;

/// Whether a refusal says that the method is not there, so that another may be tried.
pub open spec fn is_unknown_method(e: Error) -> bool {
    e matches Error::Status { code, .. } && (code == 8 || code == 11)
}

/// The members of a block, the candidates for the method tried from `attempt` on; `None` where
/// the block does not enumerate.
pub open spec fn members_from(device: Answers, container: u32, attempt: nat) -> Option<
    Seq<MemberModel>,
>
    decreases 3 - attempt,
{
    if attempt >= 3 {
        None
    } else {
        match device(container, block::members_candidates()[attempt as int]) {
            Ok(params) => Some(members_reply(params)),
            Err(e) => if is_unknown_method(e) {
                members_from(device, container, attempt + 1)
            } else {
                None
            },
        }
    }
}

/// The class that an object gives for itself.
pub open spec fn class_from(device: Answers, ono: u32) -> Option<ClassModel> {
    match device(ono, MemberId { def_level: 1, index: 1 }) {
        Ok(params) => client::class_reply(params),
        Err(_) => None,
    }
}

/// The role that an object gives for itself, or its number.
pub open spec fn role_from(device: Answers, ono: u32) -> Seq<char> {
    match device(ono, MemberId { def_level: 1, index: 5 }) {
        Ok(params) => match value::counted_bytes(params) {
            Some(b) => text::utf8_lossy(b),
            None => Ono(ono).text(),
        },
        Err(_) => Ono(ono).text(),
    }
}

/// Walks a block, where `room` more blocks may be opened: the objects seen and those found.
pub open spec fn walked(
    device: Answers,
    container: u32,
    path: Seq<Seq<char>>,
    room: nat,
    seen: Set<u32>,
    found: Seq<ObjectModel>,
) -> (Set<u32>, Seq<ObjectModel>)
    decreases room, 0nat,
{
    if room == 0 || found.len() >= MAX_OBJECTS {
        (seen, found)
    } else {
        match members_from(device, container, 0) {
            Some(members) => walked_members(
                device,
                members,
                path,
                (room - 1) as nat,
                seen,
                found,
            ),
            None => (seen, found),
        }
    }
}

/// Walks the members of a block whose path is `path`, where `room` more blocks may be opened.
pub open spec fn walked_members(
    device: Answers,
    members: Seq<MemberModel>,
    path: Seq<Seq<char>>,
    room: nat,
    seen: Set<u32>,
    found: Seq<ObjectModel>,
) -> (Set<u32>, Seq<ObjectModel>)
    decreases room, members.len() + 1,
{
    if members.len() == 0 || found.len() >= MAX_OBJECTS {
        (seen, found)
    } else {
        let ono = members[0].ono;
        let rest = members.skip(1);
        if seen.contains(ono) {
            walked_members(device, rest, path, room, seen, found)
        } else {
            let class = match members[0].class {
                Some(c) => Some(c),
                None => class_from(device, ono),
            };
            match class {
                None => walked_members(device, rest, path, room, seen.insert(ono), found),
                Some(c) => {
                    let (seen2, found2) = walked_object(
                        device,
                        ono,
                        c,
                        path,
                        room,
                        seen.insert(ono),
                        found,
                    );
                    walked_members(device, rest, path, room, seen2, found2)
                },
            }
        }
    }
}

/// Walks one object of a known class: a block is opened, anything else is found.
pub open spec fn walked_object(
    device: Answers,
    ono: u32,
    class: ClassModel,
    path: Seq<Seq<char>>,
    room: nat,
    seen: Set<u32>,
    found: Seq<ObjectModel>,
) -> (Set<u32>, Seq<ObjectModel>)
    decreases room, 1nat,
{
    let role = role_from(device, ono);
    if classes::is_block_class(class.fields) {
        walked(device, ono, path.push(role), room, seen, found)
    } else {
        (seen, found.push(ObjectModel { ono, class, role, path }))
    }
}

/// The objects that a device has below `root`.
pub open spec fn objects_below(device: Answers, root: u32) -> Seq<ObjectModel> {
    walked(device, root, seq![], 8, set![root], seq![]).1
}

// ---------------------------------------------------------------------------
// The walk, one question at a time
// ---------------------------------------------------------------------------

/// What a walk waits for.
enum Waiting {
    /// The members of a block, asked for with one of the candidate methods.
    Members { container: u32, attempt: usize },
    /// An object's class.
    Class { ono: u32 },
    /// An object's role, its class being known.
    Role { ono: u32, class: ClassIdentification },
    /// Nothing: the walk is over.
    Nothing,
}

/// What a walk waits for, the class as a model.
pub enum WaitingModel {
    Members { container: u32, attempt: nat },
    Class { ono: u32 },
    Role { ono: u32, class: ClassModel },
    Nothing,
}

/// How many questions may still be put about the object that is being asked about: its class, its
/// role, and its members in each of the three ways.
pub open spec fn questions_left(w: WaitingModel) -> int {
    match w {
        WaitingModel::Class { .. } => 5,
        WaitingModel::Role { .. } => 4,
        WaitingModel::Members { attempt, .. } => 3 - attempt,
        WaitingModel::Nothing => 0,
    }
}

/// A walk in progress: for each open block, outermost first, the members not yet looked at; the
/// roles on the way to the innermost; the objects seen and those found.
#[verifier::ext_equal]
pub struct WalkModel {
    pub open: Seq<Seq<MemberModel>>,
    pub path: Seq<Seq<char>>,
    pub seen: Set<u32>,
    pub found: Seq<ObjectModel>,
    pub waiting: WaitingModel,
}

/// Finishes the walk of the open blocks, innermost first.
pub open spec fn unwound(
    device: Answers,
    open: Seq<Seq<MemberModel>>,
    path: Seq<Seq<char>>,
    seen: Set<u32>,
    found: Seq<ObjectModel>,
) -> Seq<ObjectModel>
    decreases open.len(),
{
    if open.len() == 0 {
        found
    } else {
        let (seen2, found2) = walked_members(
            device,
            open.last(),
            path.take(open.len() - 1),
            (8 - open.len()) as nat,
            seen,
            found,
        );
        unwound(device, open.drop_last(), path, seen2, found2)
    }
}

/// The objects that a walk in progress will have found once it is over.
pub open spec fn outcome(device: Answers, w: WalkModel) -> Seq<ObjectModel> {
    match w.waiting {
        WaitingModel::Nothing => w.found,
        WaitingModel::Members { container, attempt } => {
            let (seen, found) = match members_from(device, container, attempt) {
                Some(members) => walked_members(
                    device,
                    members,
                    w.path.take(w.open.len() as int),
                    (7 - w.open.len()) as nat,
                    w.seen,
                    w.found,
                ),
                None => (w.seen, w.found),
            };
            unwound(device, w.open, w.path, seen, found)
        },
        WaitingModel::Class { ono } => match class_from(device, ono) {
            Some(class) => {
                let (seen, found) = walked_object(
                    device,
                    ono,
                    class,
                    w.path.take(w.open.len() - 1),
                    (8 - w.open.len()) as nat,
                    w.seen,
                    w.found,
                );
                unwound(device, w.open, w.path, seen, found)
            },
            None => unwound(device, w.open, w.path, w.seen, w.found),
        },
        WaitingModel::Role { ono, class } => {
            let (seen, found) = walked_object(
                device,
                ono,
                class,
                w.path.take(w.open.len() - 1),
                (8 - w.open.len()) as nat,
                w.seen,
                w.found,
            );
            unwound(device, w.open, w.path, seen, found)
        },
    }
}

/// The question that a walk waits to have answered: an object and one of its methods.
pub open spec fn question(w: WaitingModel) -> Option<(u32, MemberId)> {
    match w {
        WaitingModel::Nothing => None,
        WaitingModel::Members { container, attempt } => Some(
            (container, block::members_candidates()[attempt as int]),
        ),
        WaitingModel::Class { ono } => Some((ono, MemberId { def_level: 1, index: 1 })),
        WaitingModel::Role { ono, .. } => Some((ono, MemberId { def_level: 1, index: 5 })),
    }
}

/// A walk over a device's object tree that asks one question at a time.
pub struct Walk {
    open: Vec<Vec<Member>>,
    path: Vec<String>,
    seen: IdSet,
    found: Vec<DiscoveredObject>,
    waiting: Waiting,
}

/// The models of the members of each open block.
pub open spec fn open_models(open: Seq<Vec<Member>>) -> Seq<Seq<MemberModel>> {
    open.map_values(|v: Vec<Member>| member_models(v@))
}

/// The models of a list of objects.
pub open spec fn object_models(v: Seq<DiscoveredObject>) -> Seq<ObjectModel> {
    v.map_values(|o: DiscoveredObject| o@)
}

impl View for Walk {
    type V = WalkModel;

    closed spec fn view(&self) -> WalkModel {
        WalkModel {
            open: open_models(self.open@),
            path: text::texts(self.path@),
            seen: self.seen@,
            found: object_models(self.found@),
            waiting: match self.waiting {
                Waiting::Members { container, attempt } => WaitingModel::Members {
                    container,
                    attempt: attempt as nat,
                },
                Waiting::Class { ono } => WaitingModel::Class { ono },
                Waiting::Role { ono, class } => WaitingModel::Role { ono, class: class@ },
                Waiting::Nothing => WaitingModel::Nothing,
            },
        }
    }
}

impl Walk {
    /// No more blocks are open than may be, and the path leads to the innermost of them, or to
    /// the one that is being opened.
    pub closed spec fn wf(&self) -> bool {
        &&& self.seen.wf()
        &&& self.open@.len() <= 8
        &&& match self.waiting {
            Waiting::Members { attempt, .. } => self.path@.len() == self.open@.len()
                && self.open@.len() < 8 && attempt < 3,
            Waiting::Nothing => self.open@.len() == 0,
            _ => self.open@.len() > 0 && self.path@.len() == self.open@.len() - 1,
        }
    }

    /// Begins a walk at a block.
    pub fn new(root: Ono) -> (r: Self)
        ensures
            r.wf(),
            r@.found == Seq::<ObjectModel>::empty(),
            question(r@.waiting) == Some((root.0, block::members_candidates()[0])),
            forall|device: Answers| #[trigger]
                outcome(device, r@) == objects_below(device, root.0),
    {
        let mut seen = IdSet::new();
        let _ = seen.insert(root.0);
        let r = Walk {
            open: Vec::new(),
            path: Vec::new(),
            seen,
            found: Vec::new(),
            waiting: Waiting::Members { container: root.0, attempt: 0 },
        };
        assert forall|device: Answers| #[trigger]
            outcome(device, r@) == objects_below(device, root.0) by {
            assert(r@.open =~= seq![]);
            assert(r@.path.take(0) =~= seq![]);
            assert(r@.seen =~= set![root.0]);
            assert(r@.found =~= seq![]);
        }
        r
    }

    /// The question that is to be put to the device next: an object and one of its methods, to
    /// be called without parameters. `None` once the walk is over.
    pub fn next_question(&self) -> (r: Option<(Ono, MemberId)>)
        requires
            self.wf(),
        ensures
            match r {
                Some((ono, method)) => question(self@.waiting) == Some((ono.0, method)),
                None => question(self@.waiting) is None,
            },
    {
        match &self.waiting {
            Waiting::Members { container, attempt } => {
                let candidates = block::get_members_candidates();
                Some((Ono(*container), candidates[*attempt]))
            },
            Waiting::Class { ono } => Some((Ono(*ono), root::get_class_identification())),
            Waiting::Role { ono, class: _ } => Some((Ono(*ono), root::get_role())),
            Waiting::Nothing => None,
        }
    }

    /// The objects found so far; all of them, once the walk is over.
    pub fn into_found(self) -> (r: Vec<DiscoveredObject>)
        ensures
            object_models(r@) == self@.found,
            self@.waiting is Nothing ==> forall|device: Answers| #[trigger]
                outcome(device, self@) == object_models(r@),
    {
        self.found
    }

    /// Goes on with the innermost open block, up to the next question.
    fn advance(&mut self)
        requires
            old(self).seen.wf(),
            old(self).open@.len() <= 8,
            old(self).open@.len() > 0 ==> old(self).path@.len() == old(self).open@.len() - 1,
        ensures
            final(self).wf(),
            forall|device: Answers| #[trigger]
                outcome(device, final(self)@) == unwound(
                    device,
                    old(self)@.open,
                    old(self)@.path,
                    old(self)@.seen,
                    old(self)@.found,
                ),
            old(self)@.seen.subset_of(final(self)@.seen),
            final(self)@.waiting is Nothing || final(self)@.seen != old(self)@.seen,
    {
        let ghost start = *self;
        loop
            invariant
                start@.seen.subset_of(self@.seen),
                self.seen.wf(),
                self.open@.len() <= 8,
                self.open@.len() > 0 ==> self.path@.len() == self.open@.len() - 1,
                forall|device: Answers| #[trigger]
                    unwound(device, start@.open, start@.path, start@.seen, start@.found)
                        == unwound(device, self@.open, self@.path, self@.seen, self@.found),
                start == *old(self),
            decreases self.open@.len(), open_total(self@.open),
        {
            let ghost before = self@;
            if self.open.len() == 0 {
                self.waiting = Waiting::Nothing;
                assert(self@.open =~= before.open);
                return;
            }
            let top: usize = self.open.len() - 1;
            if self.open[top].len() == 0 || self.found.len() >= MAX_OBJECTS {
                let ghost opened = self.open@;
                let _ = self.open.pop();
                let ghost closed = self.open@;
                if self.path.len() > 0 {
                    let _ = self.path.pop();
                }
                assert(self@.open =~= before.open.drop_last());
                proof {
                    let n = before.open.len();
                    assert forall|device: Answers| #[trigger]
                        unwound(device, before.open, before.path, before.seen, before.found)
                            == unwound(device, self@.open, self@.path, self@.seen, self@.found) by {
                        assert(open_models(opened).last() == member_models(opened.last()@));
                        lemma_path_prefix(
                            device,
                            before.open.drop_last(),
                            before.path,
                            self@.path,
                            before.seen,
                            before.found,
                        );
                    }
                }
                continue;
            }
            let mut members = match self.open.pop() {
                Some(v) => v,
                None => Vec::new(),
            };
            let ghost listed = members@;
            let member = members.remove(0);
            let ghost rest = members@;
            self.open.push(members);
            let ono: u32 = member.ono.0;
            let ghost now = self@;
            proof {
                assert(member_models(listed)[0] == member@);
                assert(member_models(rest) =~= member_models(listed).skip(1));
                assert(before.open.last() == member_models(listed));
                assert(now.open =~= before.open.drop_last().push(member_models(rest)));
                assert(now.open.drop_last() =~= before.open.drop_last());
                lemma_open_total_last(before.open);
                lemma_open_total_last(now.open);
            }
            if !self.seen.insert(ono) {
                assert(self@.seen =~= before.seen);
                assert(self@.open =~= now.open);
                assert forall|device: Answers| #[trigger]
                    unwound(device, before.open, before.path, before.seen, before.found)
                        == unwound(device, self@.open, self@.path, self@.seen, self@.found) by {
                    lemma_step(device, before, now.open, ono);
                }
                continue;
            }
            match member.class {
                Some(class) => {
                    self.waiting = Waiting::Role { ono, class };
                },
                None => {
                    self.waiting = Waiting::Class { ono };
                },
            }
            assert(self@.open =~= now.open);
            assert forall|device: Answers| #[trigger] outcome(device, self@) == unwound(
                device,
                start@.open,
                start@.path,
                start@.seen,
                start@.found,
            ) by {
                lemma_step(device, before, now.open, ono);
            }
            return;
        }
    }

    /// Takes in the device's answer to the question: what the method returned, or how it was
    /// refused. Whatever device it is that answered so, the walk still ends with the objects of
    /// that device.
    pub fn answer(&mut self, reply: Result<Vec<u8>, Error>)
        requires
            old(self).wf(),
        ensures
            final(self).wf(),
            forall|device: Answers|
                match question(old(self)@.waiting) {
                    Some((ono, method)) => match reply {
                        Ok(params) => device(ono, method) == Ok::<Seq<u8>, Error>(params@),
                        Err(e) => device(ono, method) == Err::<Seq<u8>, Error>(e),
                    },
                    None => true,
                } ==> #[trigger] outcome(device, final(self)@) == outcome(device, old(self)@),
            old(self)@.waiting is Nothing ==> final(self)@ == old(self)@,
            old(self)@.seen.subset_of(final(self)@.seen),
            old(self)@.waiting !is Nothing ==> final(self)@.waiting is Nothing || final(self)@.seen
                != old(self)@.seen || questions_left(final(self)@.waiting) < questions_left(
                old(self)@.waiting,
            ),
    {
        let ghost before = self@;
        let mut waiting = Waiting::Nothing;
        std::mem::swap(&mut waiting, &mut self.waiting);
        match waiting {
            Waiting::Nothing => {
                assert(self@.open =~= before.open);
            },
            Waiting::Members { container, attempt } => match reply {
                Ok(params) => {
                    let members = parse_members(params.as_slice());
                    let ghost opened = self.open@;
                    self.open.push(members);
                    let ghost now = self@;
                    assert(now.open =~= before.open.push(member_models(members@)));
                    assert(now.open.drop_last() =~= before.open);
                    assert(before.path.take(before.open.len() as int) =~= before.path);
                    assert(now.path =~= before.path);
                    self.advance();
                },
                Err(e) => {
                    let unknown: bool = match e {
                        Error::Status { code, name: _ } => code == 8 || code == 11,
                        _ => false,
                    };
                    if unknown && attempt < 2 {
                        self.waiting = Waiting::Members { container, attempt: attempt + 1 };
                        assert(self@.open =~= before.open);
                    } else {
                        proof {
                            reveal_with_fuel(members_from, 2);
                        }
                        if self.path.len() > 0 {
                            let _ = self.path.pop();
                        }
                        let ghost now = self@;
                        assert(now.open =~= before.open);
                        self.advance();
                        assert forall|device: Answers|
                            (match question(before.waiting) {
                                Some((ono, method)) => device(ono, method) == Err::<
                                    Seq<u8>,
                                    Error,
                                >(e),
                                None => true,
                            }) implies #[trigger] outcome(device, self@) == outcome(
                            device,
                            before,
                        ) by {
                            lemma_path_prefix(
                                device,
                                before.open,
                                before.path,
                                now.path,
                                before.seen,
                                before.found,
                            );
                        }
                    }
                },
            },
            Waiting::Class { ono } => {
                let class = match reply {
                    Ok(params) => match read_class(params.as_slice()) {
                        Ok(c) => Some(c),
                        Err(_) => None,
                    },
                    Err(_) => None,
                };
                match class {
                    Some(class) => {
                        self.waiting = Waiting::Role { ono, class };
                        assert(self@.open =~= before.open);
                    },
                    None => {
                        let ghost now = self@;
                        assert(now.open =~= before.open);
                        self.advance();
                    },
                }
            },
            Waiting::Role { ono, class } => {
                let role = match reply {
                    Ok(params) => match read_role(params.as_slice()) {
                        Ok(t) => t,
                        Err(_) => Ono(ono).to_text(),
                    },
                    Err(_) => Ono(ono).to_text(),
                };
                let ghost name = role@;
                assert(before.path.take(before.open.len() - 1) =~= before.path);
                if class.is_block() {
                    self.path.push(role);
                    let ghost now = self@;
                    assert(now.open =~= before.open);
                    assert(now.path =~= before.path.push(name));
                    if self.open.len() >= MAX_DEPTH || self.found.len() >= MAX_OBJECTS {
                        let _ = self.path.pop();
                        assert(text::texts(self.path@) =~= before.path);
                        self.advance();
                    } else {
                        self.waiting = Waiting::Members { container: ono, attempt: 0 };
                        assert(self@.open =~= before.open);
                        assert forall|device: Answers|
                            role_from(device, ono) == name implies #[trigger] outcome(
                            device,
                            self@,
                        ) == outcome(device, before) by {
                            assert(now.path.take(before.open.len() as int) =~= now.path);
                            let (seen, found) = walked(
                                device,
                                ono,
                                before.path.push(name),
                                (8 - before.open.len()) as nat,
                                before.seen,
                                before.found,
                            );
                            lemma_path_prefix(
                                device,
                                before.open,
                                now.path,
                                before.path,
                                seen,
                                found,
                            );
                        }
                    }
                } else {
                    let path = copy_path(&self.path);
                    let object = DiscoveredObject { ono: Ono(ono), class, role, path };
                    let ghost was = self.found@;
                    self.found.push(object);
                    let ghost now = self@;
                    assert(now.open =~= before.open);
                    assert(now.found =~= before.found.push(object@));
                    self.advance();
                }
            },
        }
    }
}

fn copy_path(path: &Vec<String>) -> (r: Vec<String>)
    ensures
        text::texts(r@) == text::texts(path@),
{
    let mut out: Vec<String> = Vec::new();
    let mut i: usize = 0;
    while i < path.len()
        invariant
            i <= path.len(),
            out@.len() == i,
            forall|j: int| 0 <= j < i ==> #[trigger] out@[j]@ == path@[j]@,
        decreases path.len() - i,
    {
        out.push(path[i].clone());
        i = i + 1;
    }
    assert(text::texts(out@) =~= text::texts(path@));
    out
}

/// How many members the open blocks still have.
spec fn open_total(open: Seq<Seq<MemberModel>>) -> nat
    decreases open.len(),
{
    if open.len() == 0 {
        0
    } else {
        open_total(open.drop_last()) + open.last().len()
    }
}

proof fn lemma_open_total_last(open: Seq<Seq<MemberModel>>)
    requires
        open.len() > 0,
    ensures
        open_total(open) == open_total(open.drop_last()) + open.last().len(),
{
}

/// Only the part of the path that leads to the innermost open block matters.
proof fn lemma_path_prefix(
    device: Answers,
    open: Seq<Seq<MemberModel>>,
    path: Seq<Seq<char>>,
    other: Seq<Seq<char>>,
    seen: Set<u32>,
    found: Seq<ObjectModel>,
)
    requires
        open.len() > 0 ==> path.len() >= open.len() - 1 && other.len() >= open.len() - 1,
        forall|k: int| 0 <= k < open.len() - 1 ==> path[k] == other[k],
    ensures
        unwound(device, open, path, seen, found) == unwound(device, open, other, seen, found),
    decreases open.len(),
{
    if open.len() > 0 {
        assert(path.take(open.len() - 1) =~= other.take(open.len() - 1));
        let (seen2, found2) = walked_members(
            device,
            open.last(),
            path.take(open.len() - 1),
            (8 - open.len()) as nat,
            seen,
            found,
        );
        lemma_path_prefix(device, open.drop_last(), path, other, seen2, found2);
    }
}

/// Looking at the first member of the innermost open block.
proof fn lemma_step(device: Answers, before: WalkModel, after: Seq<Seq<MemberModel>>, ono: u32)
    requires
        before.open.len() > 0,
        before.open.last().len() > 0,
        before.open.last()[0].ono == ono,
        before.found.len() < MAX_OBJECTS,
        after.len() == before.open.len(),
        after.drop_last() == before.open.drop_last(),
        after.last() == before.open.last().skip(1),
    ensures
        before.seen.contains(ono) ==> unwound(
            device,
            before.open,
            before.path,
            before.seen,
            before.found,
        ) == unwound(device, after, before.path, before.seen, before.found),
        !before.seen.contains(ono) ==> unwound(
            device,
            before.open,
            before.path,
            before.seen,
            before.found,
        ) == outcome(
            device,
            WalkModel {
                open: after,
                path: before.path,
                seen: before.seen.insert(ono),
                found: before.found,
                waiting: match before.open.last()[0].class {
                    Some(class) => WaitingModel::Role { ono, class },
                    None => WaitingModel::Class { ono },
                },
            },
        ),
{
}

// ---------------------------------------------------------------------------
// Laws
// ---------------------------------------------------------------------------

/// What holds of every list of objects that a walk builds: it is no longer than the ceiling, no
/// object is in it twice, all of them were seen, and none lies deeper than blocks may nest.
pub open spec fn is_sound(seen: Set<u32>, found: Seq<ObjectModel>) -> bool {
    &&& found.len() <= MAX_OBJECTS
    &&& forall|i: int, j: int|
        0 <= i < j < found.len() ==> (#[trigger] found[i]).ono != (#[trigger] found[j]).ono
    &&& forall|i: int|
        0 <= i < found.len() ==> seen.contains((#[trigger] found[i]).ono) && found[i].path.len()
            < MAX_DEPTH
}

proof fn lemma_walked_is_sound(
    device: Answers,
    container: u32,
    path: Seq<Seq<char>>,
    room: nat,
    seen: Set<u32>,
    found: Seq<ObjectModel>,
)
    requires
        is_sound(seen, found),
        path.len() + room <= 8,
    ensures
        is_sound(
            walked(device, container, path, room, seen, found).0,
            walked(device, container, path, room, seen, found).1,
        ),
    decreases room, 0nat,
{
    if room > 0 && found.len() < MAX_OBJECTS {
        if let Some(members) = members_from(device, container, 0) {
            lemma_members_are_sound(device, members, path, (room - 1) as nat, seen, found);
        }
    }
}

proof fn lemma_members_are_sound(
    device: Answers,
    members: Seq<MemberModel>,
    path: Seq<Seq<char>>,
    room: nat,
    seen: Set<u32>,
    found: Seq<ObjectModel>,
)
    requires
        is_sound(seen, found),
        path.len() + room <= 7,
    ensures
        is_sound(
            walked_members(device, members, path, room, seen, found).0,
            walked_members(device, members, path, room, seen, found).1,
        ),
    decreases room, members.len() + 1,
{
    if members.len() > 0 && found.len() < MAX_OBJECTS {
        let ono = members[0].ono;
        let rest = members.skip(1);
        if seen.contains(ono) {
            lemma_members_are_sound(device, rest, path, room, seen, found);
        } else {
            let more = seen.insert(ono);
            let class = match members[0].class {
                Some(c) => Some(c),
                None => class_from(device, ono),
            };
            match class {
                None => lemma_members_are_sound(device, rest, path, room, more, found),
                Some(c) => {
                    let role = role_from(device, ono);
                    if classes::is_block_class(c.fields) {
                        lemma_walked_is_sound(device, ono, path.push(role), room, more, found);
                    }
                    let (seen2, found2) = walked_object(device, ono, c, path, room, more, found);
                    assert(is_sound(seen2, found2));
                    lemma_members_are_sound(device, rest, path, room, seen2, found2);
                },
            }
        }
    }
}

/// Whatever a device answers, even a tree that loops back on itself or lengths that make no
/// sense: no more than [`MAX_OBJECTS`] objects are found, none of them twice, and none below
/// more than [`MAX_DEPTH`] nested blocks.
pub proof fn a_walk_is_bounded_and_visits_nothing_twice(device: Answers, root: u32)
    ensures
        objects_below(device, root).len() <= MAX_OBJECTS,
        forall|i: int, j: int|
            0 <= i < j < objects_below(device, root).len() ==> (#[trigger] objects_below(
                device,
                root,
            )[i]).ono != (#[trigger] objects_below(device, root)[j]).ono,
        forall|i: int|
            0 <= i < objects_below(device, root).len() ==> (#[trigger] objects_below(
                device,
                root,
            )[i]).path.len() < MAX_DEPTH,
{
    lemma_walked_is_sound(device, root, seq![], 8, set![root], seq![]);
}

/// A device whose root block does not enumerate has no objects.
pub proof fn a_silent_device_has_no_objects(device: Answers, root: u32)
    requires
        members_from(device, root, 0) is None,
    ensures
        objects_below(device, root) == Seq::<ObjectModel>::empty(),
{
}

/// Whether a block lists an object, and of which class: the one that stands in the list, or else the
/// one that the object gives for itself.
pub open spec fn lists(device: Answers, container: u32, ono: u32, class: Option<ClassModel>) -> bool {
    match members_from(device, container, 0) {
        Some(members) => exists|i: int|
            0 <= i < members.len() && #[trigger] is_member(device, members[i], ono, class),
        None => false,
    }
}

/// Whether a member of a list is an object of a class.
pub open spec fn is_member(
    device: Answers,
    member: MemberModel,
    ono: u32,
    class: Option<ClassModel>,
) -> bool {
    &&& member.ono == ono
    &&& class == (if member.class is Some {
        member.class
    } else {
        class_from(device, ono)
    })
}

/// Whether `chain` leads from `root` down through blocks, each listed by the one before, and `path`
/// gives the roles of all of them but the root.
pub open spec fn leads_down(
    device: Answers,
    root: u32,
    chain: Seq<u32>,
    path: Seq<Seq<char>>,
) -> bool {
    &&& chain.len() == path.len() + 1
    &&& chain[0] == root
    &&& forall|k: int|
        0 <= k < path.len() ==> #[trigger] path[k] == role_from(device, chain[k + 1])
            && is_listed_block(device, chain[k], chain[k + 1])
}

/// Whether a block lists another block.
pub open spec fn is_listed_block(device: Answers, container: u32, ono: u32) -> bool {
    exists|class: ClassModel|
        classes::is_block_class(class.fields) && #[trigger] lists(
            device,
            container,
            ono,
            Some(class),
        )
}

/// Whether an object lies where it says: in the last block of a chain whose roles are its path.
pub open spec fn lies_in_its_path(device: Answers, root: u32, o: ObjectModel) -> bool {
    exists|chain: Seq<u32>| #[trigger]
        leads_down(device, root, chain, o.path) && lists(device, chain.last(), o.ono, Some(o.class))
            && o.role == role_from(device, o.ono) && !classes::is_block_class(o.class.fields)
}

spec fn all_lie(device: Answers, root: u32, found: Seq<ObjectModel>) -> bool {
    forall|i: int| 0 <= i < found.len() ==> lies_in_its_path(device, root, #[trigger] found[i])
}

proof fn lemma_walked_lies(
    device: Answers,
    root: u32,
    chain: Seq<u32>,
    path: Seq<Seq<char>>,
    room: nat,
    seen: Set<u32>,
    found: Seq<ObjectModel>,
)
    requires
        leads_down(device, root, chain, path),
        all_lie(device, root, found),
    ensures
        all_lie(device, root, walked(device, chain.last(), path, room, seen, found).1),
    decreases room, 0nat,
{
    if room > 0 && found.len() < MAX_OBJECTS {
        if let Some(members) = members_from(device, chain.last(), 0) {
            assert forall|i: int| 0 <= i < members.len() implies #[trigger] members.contains(
                members[i],
            ) by {}
            lemma_members_lie(
                device,
                root,
                chain,
                members,
                path,
                (room - 1) as nat,
                seen,
                found,
            );
        }
    }
}

proof fn lemma_members_lie(
    device: Answers,
    root: u32,
    chain: Seq<u32>,
    members: Seq<MemberModel>,
    path: Seq<Seq<char>>,
    room: nat,
    seen: Set<u32>,
    found: Seq<ObjectModel>,
)
    requires
        leads_down(device, root, chain, path),
        all_lie(device, root, found),
        members_from(device, chain.last(), 0) is Some,
        forall|i: int|
            0 <= i < members.len() ==> members_from(
                device,
                chain.last(),
                0,
            )->Some_0.contains(#[trigger] members[i]),
    ensures
        all_lie(device, root, walked_members(device, members, path, room, seen, found).1),
    decreases room, members.len() + 1,
{
    if members.len() > 0 && found.len() < MAX_OBJECTS {
        let m = members[0];
        let ono = m.ono;
        let rest = members.skip(1);
        let all = members_from(device, chain.last(), 0)->Some_0;
        assert forall|i: int| 0 <= i < rest.len() implies all.contains(#[trigger] rest[i]) by {
            assert(rest[i] == members[i + 1]);
        }
        if seen.contains(ono) {
            lemma_members_lie(device, root, chain, rest, path, room, seen, found);
        } else {
            let more = seen.insert(ono);
            let class = match m.class {
                Some(c) => Some(c),
                None => class_from(device, ono),
            };
            match class {
                None => lemma_members_lie(device, root, chain, rest, path, room, more, found),
                Some(c) => {
                    assert(all.contains(m));
                    let at = all.index_of(m);
                    assert(is_member(device, all[at], ono, Some(c)));
                    assert(lists(device, chain.last(), ono, Some(c)));
                    let role = role_from(device, ono);
                    let (seen2, found2) = walked_object(device, ono, c, path, room, more, found);
                    if classes::is_block_class(c.fields) {
                        let longer = chain.push(ono);
                        let further = path.push(role);
                        assert(is_listed_block(device, chain.last(), ono));
                        assert(leads_down(device, root, longer, further)) by {
                            assert forall|k: int| 0 <= k < further.len() implies #[trigger] further[k]
                                == role_from(device, longer[k + 1]) && is_listed_block(
                                device,
                                longer[k],
                                longer[k + 1],
                            ) by {
                                if k < path.len() {
                                    assert(path[k] == role_from(device, chain[k + 1]));
                                }
                            }
                        }
                        lemma_walked_lies(device, root, longer, further, room, more, found);
                    } else {
                        let o = ObjectModel { ono, class: c, role, path };
                        assert(leads_down(device, root, chain, o.path));
                        assert(lies_in_its_path(device, root, o));
                    }
                    lemma_members_lie(device, root, chain, rest, path, room, seen2, found2);
                },
            }
        }
    }
}

/// Every object that is found lies where its path says. There is a chain of blocks from the root
/// down, each listed by the one before it; the object is listed by the last of them; and the path has
/// one entry for each block of the chain but the root: that block's role, outermost first.
pub proof fn an_objects_path_names_the_blocks_around_it(device: Answers, root: u32, i: int)
    requires
        0 <= i < objects_below(device, root).len(),
    ensures
        ({
            let o = objects_below(device, root)[i];
            exists|chain: Seq<u32>|
                {
                    &&& chain.len() == o.path.len() + 1
                    &&& chain[0] == root
                    &&& #[trigger] leads_down(device, root, chain, o.path)
                    &&& forall|k: int|
                        0 <= k < o.path.len() ==> #[trigger] o.path[k] == role_from(
                            device,
                            chain[k + 1],
                        ) && is_listed_block(device, chain[k], chain[k + 1])
                    &&& lists(device, chain.last(), o.ono, Some(o.class))
                    &&& o.role == role_from(device, o.ono)
                    &&& !classes::is_block_class(o.class.fields)
                }
        }),
{
    let chain = seq![root];
    assert(leads_down(device, root, chain, seq![]));
    lemma_walked_lies(device, root, chain, seq![], 8, set![root], seq![]);
    assert(chain.last() == root);
    let found = objects_below(device, root);
    assert(lies_in_its_path(device, root, found[i]));
}

/// A device whose listings agree on each object's class, and whose blocks are not nested in
/// themselves: `rank` falls from each block to those that it lists.
pub open spec fn is_tree(
    device: Answers,
    class_of: spec_fn(u32) -> Option<ClassModel>,
    rank: spec_fn(u32) -> nat,
) -> bool {
    forall|container: u32, ono: u32, class: Option<ClassModel>| #[trigger]
        lists(device, container, ono, class) ==> class == class_of(ono) && (match class {
            Some(c) => classes::is_block_class(c.fields) ==> rank(ono) < rank(container),
            None => true,
        })
}

spec fn is_found(found: Seq<ObjectModel>, ono: u32) -> bool {
    exists|i: int| 0 <= i < found.len() && (#[trigger] found[i]).ono == ono
}

/// What was seen since `before` is done with: of a block all members were seen, and any other object
/// was found.
spec fn is_settled(
    device: Answers,
    class_of: spec_fn(u32) -> Option<ClassModel>,
    before: Set<u32>,
    seen: Set<u32>,
    found: Seq<ObjectModel>,
) -> bool {
    forall|x: u32| #[trigger]
        seen.contains(x) && !before.contains(x) ==> match class_of(x) {
            None => true,
            Some(c) => if classes::is_block_class(c.fields) {
                all_seen(device, x, seen)
            } else {
                is_found(found, x)
            },
        }
}

spec fn all_seen(device: Answers, container: u32, seen: Set<u32>) -> bool {
    forall|ono: u32, class: Option<ClassModel>| #[trigger]
        lists(device, container, ono, class) ==> seen.contains(ono)
}

proof fn lemma_walked_grows(
    device: Answers,
    container: u32,
    path: Seq<Seq<char>>,
    room: nat,
    seen: Set<u32>,
    found: Seq<ObjectModel>,
)
    ensures
        ({
            let (seen2, found2) = walked(device, container, path, room, seen, found);
            seen.subset_of(seen2) && found.is_prefix_of(found2)
        }),
    decreases room, 0nat,
{
    if room > 0 && found.len() < MAX_OBJECTS {
        if let Some(members) = members_from(device, container, 0) {
            lemma_members_grow(device, members, path, (room - 1) as nat, seen, found);
        }
    }
}

proof fn lemma_members_grow(
    device: Answers,
    members: Seq<MemberModel>,
    path: Seq<Seq<char>>,
    room: nat,
    seen: Set<u32>,
    found: Seq<ObjectModel>,
)
    ensures
        ({
            let (seen2, found2) = walked_members(device, members, path, room, seen, found);
            seen.subset_of(seen2) && found.is_prefix_of(found2)
        }),
    decreases room, members.len() + 1,
{
    if members.len() > 0 && found.len() < MAX_OBJECTS {
        let ono = members[0].ono;
        let rest = members.skip(1);
        if seen.contains(ono) {
            lemma_members_grow(device, rest, path, room, seen, found);
        } else {
            let more = seen.insert(ono);
            let class = match members[0].class {
                Some(c) => Some(c),
                None => class_from(device, ono),
            };
            match class {
                None => lemma_members_grow(device, rest, path, room, more, found),
                Some(c) => {
                    let role = role_from(device, ono);
                    if classes::is_block_class(c.fields) {
                        lemma_walked_grows(device, ono, path.push(role), room, more, found);
                    }
                    let (seen2, found2) = walked_object(device, ono, c, path, room, more, found);
                    lemma_members_grow(device, rest, path, room, seen2, found2);
                },
            }
        }
    }
}

proof fn lemma_walked_settles(
    device: Answers,
    class_of: spec_fn(u32) -> Option<ClassModel>,
    rank: spec_fn(u32) -> nat,
    container: u32,
    path: Seq<Seq<char>>,
    room: nat,
    seen: Set<u32>,
    found: Seq<ObjectModel>,
)
    requires
        is_tree(device, class_of, rank),
        rank(container) < room,
        walked(device, container, path, room, seen, found).1.len() < MAX_OBJECTS,
    ensures
        ({
            let (seen2, found2) = walked(device, container, path, room, seen, found);
            is_settled(device, class_of, seen, seen2, found2) && all_seen(device, container, seen2)
        }),
    decreases room, 0nat,
{
    lemma_walked_grows(device, container, path, room, seen, found);
    let (seen2, found2) = walked(device, container, path, room, seen, found);
    match members_from(device, container, 0) {
        Some(members) => {
            lemma_members_settle(
                device,
                class_of,
                rank,
                container,
                members,
                members,
                path,
                (room - 1) as nat,
                seen,
                found,
            );
            assert forall|ono: u32, class: Option<ClassModel>| #[trigger]
                lists(device, container, ono, class) implies seen2.contains(ono) by {
                let i = choose|i: int|
                    0 <= i < members.len() && #[trigger] is_member(device, members[i], ono, class);
                assert(members[i].ono == ono);
            }
        },
        None => {},
    }
}

proof fn lemma_members_settle(
    device: Answers,
    class_of: spec_fn(u32) -> Option<ClassModel>,
    rank: spec_fn(u32) -> nat,
    container: u32,
    all: Seq<MemberModel>,
    members: Seq<MemberModel>,
    path: Seq<Seq<char>>,
    room: nat,
    seen: Set<u32>,
    found: Seq<ObjectModel>,
)
    requires
        is_tree(device, class_of, rank),
        rank(container) <= room,
        members_from(device, container, 0) == Some(all),
        forall|i: int| 0 <= i < members.len() ==> all.contains(#[trigger] members[i]),
        walked_members(device, members, path, room, seen, found).1.len() < MAX_OBJECTS,
    ensures
        ({
            let (seen2, found2) = walked_members(device, members, path, room, seen, found);
            &&& is_settled(device, class_of, seen, seen2, found2)
            &&& forall|i: int| 0 <= i < members.len() ==> seen2.contains((#[trigger] members[i]).ono)
        }),
    decreases room, members.len() + 1,
{
    lemma_members_grow(device, members, path, room, seen, found);
    let (last_seen, last_found) = walked_members(device, members, path, room, seen, found);
    if members.len() > 0 {
        let m = members[0];
        let ono = m.ono;
        let rest = members.skip(1);
        assert forall|i: int| 0 <= i < rest.len() implies all.contains(#[trigger] rest[i]) by {
            assert(rest[i] == members[i + 1]);
        }
        assert forall|i: int| 0 < i < members.len() implies #[trigger] members[i] == rest[i - 1] by {}
        if seen.contains(ono) {
            lemma_members_settle(
                device,
                class_of,
                rank,
                container,
                all,
                rest,
                path,
                room,
                seen,
                found,
            );
        } else {
            let more = seen.insert(ono);
            let class = match m.class {
                Some(c) => Some(c),
                None => class_from(device, ono),
            };
            assert(all.contains(m));
            let at = all.index_of(m);
            let listed = members_from(device, container, 0)->Some_0;
            assert(0 <= at < listed.len());
            assert(is_member(device, listed[at], ono, class));
            assert(lists(device, container, ono, class));
            match class {
                None => {
                    lemma_members_settle(
                        device,
                        class_of,
                        rank,
                        container,
                        all,
                        rest,
                        path,
                        room,
                        more,
                        found,
                    );
                    lemma_members_grow(device, rest, path, room, more, found);
                },
                Some(c) => {
                    let role = role_from(device, ono);
                    let (seen2, found2) = walked_object(device, ono, c, path, room, more, found);
                    lemma_members_grow(device, rest, path, room, seen2, found2);
                    assert(found2.len() <= last_found.len());
                    if classes::is_block_class(c.fields) {
                        lemma_walked_settles(
                            device,
                            class_of,
                            rank,
                            ono,
                            path.push(role),
                            room,
                            more,
                            found,
                        );
                        lemma_walked_grows(device, ono, path.push(role), room, more, found);
                    } else {
                        assert(found2[found.len() as int].ono == ono);
                        assert(is_found(found2, ono));
                    }
                    assert(is_settled(device, class_of, seen, seen2, found2)) by {
                        assert forall|x: u32| #[trigger]
                            seen2.contains(x) && !seen.contains(x) implies match class_of(x) {
                            None => true,
                            Some(k) => if classes::is_block_class(k.fields) {
                                all_seen(device, x, seen2)
                            } else {
                                is_found(found2, x)
                            },
                        } by {
                            if x != ono {
                                assert(!more.contains(x));
                            }
                        }
                    }
                    lemma_members_settle(
                        device,
                        class_of,
                        rank,
                        container,
                        all,
                        rest,
                        path,
                        room,
                        seen2,
                        found2,
                    );
                    assert forall|x: u32| #[trigger]
                        last_seen.contains(x) && !seen.contains(x) implies match class_of(x) {
                        None => true,
                        Some(k) => if classes::is_block_class(k.fields) {
                            all_seen(device, x, last_seen)
                        } else {
                            is_found(last_found, x)
                        },
                    } by {
                        if seen2.contains(x) {
                            if is_found(found2, x) {
                                let i = choose|i: int|
                                    0 <= i < found2.len() && (#[trigger] found2[i]).ono == x;
                                assert(last_found[i] == found2[i]);
                            }
                        }
                    }
                },
            }
        }
    }
}

/// On a device whose blocks nest less deep than [`MAX_DEPTH`] and that has fewer objects than
/// [`MAX_OBJECTS`], everything is found: whatever is listed by a block that the root leads down to,
/// is of a known class and is no block itself.
pub proof fn everything_below_is_found(
    device: Answers,
    root: u32,
    class_of: spec_fn(u32) -> Option<ClassModel>,
    rank: spec_fn(u32) -> nat,
    chain: Seq<u32>,
    path: Seq<Seq<char>>,
    ono: u32,
    class: ClassModel,
)
    requires
        is_tree(device, class_of, rank),
        rank(root) < MAX_DEPTH,
        objects_below(device, root).len() < MAX_OBJECTS,
        leads_down(device, root, chain, path),
        lists(device, chain.last(), ono, Some(class)),
        !classes::is_block_class(class.fields),
        ono != root,
    ensures
        exists|i: int|
            0 <= i < objects_below(device, root).len() && (#[trigger] objects_below(
                device,
                root,
            )[i]).ono == ono,
{
    let start = set![root];
    lemma_walked_settles(device, class_of, rank, root, seq![], 8, start, seq![]);
    lemma_walked_grows(device, root, seq![], 8, start, seq![]);
    let (seen, found) = walked(device, root, seq![], 8, start, seq![]);
    lemma_chain_is_seen(device, root, class_of, rank, chain, path, seen, found, chain.len() - 1);
    assert(all_seen(device, chain.last(), seen));
    assert(seen.contains(ono));
    assert(class_of(ono) == Some(class));
    assert(is_found(found, ono));
}

proof fn lemma_chain_is_seen(
    device: Answers,
    root: u32,
    class_of: spec_fn(u32) -> Option<ClassModel>,
    rank: spec_fn(u32) -> nat,
    chain: Seq<u32>,
    path: Seq<Seq<char>>,
    seen: Set<u32>,
    found: Seq<ObjectModel>,
    k: int,
)
    requires
        is_tree(device, class_of, rank),
        leads_down(device, root, chain, path),
        is_settled(device, class_of, set![root], seen, found),
        all_seen(device, root, seen),
        0 <= k < chain.len(),
    ensures
        all_seen(device, chain[k], seen),
    decreases k,
{
    if k > 0 {
        lemma_chain_is_seen(device, root, class_of, rank, chain, path, seen, found, k - 1);
        assert(path[k - 1] == role_from(device, chain[k - 1 + 1]));
        assert(is_listed_block(device, chain[k - 1], chain[k]));
        let class = choose|class: ClassModel|
            classes::is_block_class(class.fields) && #[trigger] lists(
                device,
                chain[k - 1],
                chain[k],
                Some(class),
            );
        assert(lists(device, chain[k - 1], chain[k], Some(class)));
        assert(seen.contains(chain[k]));
    }
}

/// The octets of a member with its class: its number, the counted fields of the class, the version.
pub open spec fn identification_octets(m: MemberModel) -> Seq<u8> {
    bytes::u32_bytes(m.ono as int) + (bytes::u16_bytes(m.class->Some_0.fields.len() as int)
        + value::laid_out(m.class->Some_0.fields, |n: u16| bytes::u16_bytes(n as int)))
        + bytes::u32_bytes(m.class->Some_0.version as int)
}

proof fn lemma_identification_reads_back(m: MemberModel, rest: Seq<u8>)
    requires
        m.class is Some,
        0 < m.class->Some_0.fields.len() <= 0xffff,
    ensures
        <ObjectIdentification as Element>::parsed(identification_octets(m) + rest) == (
            Ok::<MemberModel, Error>(m),
            rest,
        ),
{
    let c = m.class->Some_0;
    let number = bytes::u32_bytes(m.ono as int);
    let fields = bytes::u16_bytes(c.fields.len() as int) + value::laid_out(
        c.fields,
        |n: u16| bytes::u16_bytes(n as int),
    );
    let version = bytes::u32_bytes(c.version as int);
    let s = identification_octets(m) + rest;
    assert(s.subrange(0, 4) =~= number);
    bytes::u32_reads_back(s, 0, m.ono as int);
    assert(s.skip(4) =~= fields + (version + rest));
    value::lists_of_numbers_read_back(c.fields, seq![], version + rest);
    let after = version + rest;
    assert(after.subrange(0, 4) =~= version);
    bytes::u32_reads_back(after, 0, c.version as int);
    assert(after.skip(4) =~= rest);
}

/// A block's reply is read for what it lists, in order: objects with their classes, or bare object
/// numbers.
pub proof fn a_members_reply_reads_back(members: Seq<MemberModel>, onos: Seq<u32>)
    requires
        members.len() <= 0xffff,
        onos.len() <= 0xffff,
        forall|i: int|
            0 <= i < members.len() ==> (#[trigger] members[i]).class is Some && 0
                < members[i].class->Some_0.fields.len() <= 0xffff,
    ensures
        members_reply(
            bytes::u16_bytes(members.len() as int) + value::laid_out(
                members,
                |m: MemberModel| identification_octets(m),
            ),
        ) == members,
        members_reply(
            bytes::u16_bytes(onos.len() as int) + value::laid_out(
                onos,
                |n: u32| bytes::u32_bytes(n as int),
            ),
        ) == onos.map_values(|ono: u32| MemberModel { ono, class: None }),
{
    let enc = |m: MemberModel| identification_octets(m);
    let none = Seq::<u8>::empty();
    assert forall|i: int, more: Seq<u8>| 0 <= i < members.len() implies #[trigger] <
    ObjectIdentification as Element>::parsed(enc(members[i]) + more) == (
        Ok::<MemberModel, Error>(members[i]),
        more,
    ) by {
        lemma_identification_reads_back(members[i], more);
    }
    value::a_list_reads_back::<ObjectIdentification>(members, enc, none);
    let first = bytes::u16_bytes(members.len() as int) + value::laid_out(members, enc);
    assert(first + none =~= first);
    let e32 = |n: u32| bytes::u32_bytes(n as int);
    let second = bytes::u16_bytes(onos.len() as int) + value::laid_out(onos, e32);
    value::lists_of_numbers_read_back(seq![], onos, none);
    assert(second + none =~= second);
    lemma_laid_out_len(onos);
    assert(second.subrange(0, 2) =~= bytes::u16_bytes(onos.len() as int));
    bytes::u16_reads_back(second, 0, onos.len() as int);
    lemma_identifications_are_long(onos.len(), second.skip(2), seq![]);
    if onos.len() == 0 {
        assert(members_reply(second) =~= Seq::<MemberModel>::empty());
        assert(onos.map_values(|ono: u32| MemberModel { ono, class: None }) =~= Seq::<
            MemberModel,
        >::empty());
    }
}

proof fn lemma_laid_out_len(onos: Seq<u32>)
    ensures
        value::laid_out(onos, |n: u32| bytes::u32_bytes(n as int)).len() == 4 * onos.len(),
    decreases onos.len(),
{
    if onos.len() > 0 {
        lemma_laid_out_len(onos.skip(1));
    }
}

/// An object with its class takes more than ten octets.
proof fn lemma_identifications_are_long(n: nat, s: Seq<u8>, done: Seq<MemberModel>)
    ensures
        ({
            let (items, rest) = value::parsed_items::<ObjectIdentification>(n, s, done);
            items is Ok ==> rest.len() + 10 * n <= s.len()
        }),
    decreases n,
{
    if n > 0 {
        let (item, rest) = <ObjectIdentification as Element>::parsed(s);
        if item is Ok {
            lemma_fields_shrink(bytes::u16_at(s.skip(4), 0) as nat, s.skip(4).skip(2), seq![]);
            lemma_identifications_are_long((n - 1) as nat, rest, done.push(item->Ok_0));
        }
    }
}

proof fn lemma_fields_shrink(n: nat, s: Seq<u8>, done: Seq<u16>)
    ensures
        value::parsed_items::<u16>(n, s, done).1.len() <= s.len(),
    decreases n,
{
    if n > 0 && s.len() >= 2 {
        lemma_fields_shrink((n - 1) as nat, s.skip(2), done.push(bytes::u16_at(s, 0) as u16));
    }
}

/// What a device answers is what is known of its objects. The members of a block are asked for with
/// the fifth method of its level; where that one is unknown with the fourth, and then the third. A
/// role and a class are the first level's fifth and first method. A role that is not given is the
/// object's number.
pub proof fn answers_are_taken_at_their_word(
    device: Answers,
    ono: u32,
    params: Seq<u8>,
    fields: Seq<u16>,
    version: u32,
)
    requires
        fields.len() <= 0xffff,
    ensures
        device(ono, MemberId { def_level: 3, index: 5 }) == Ok::<Seq<u8>, Error>(params)
            ==> members_from(device, ono, 0) == Some(members_reply(params)),
        ({
            &&& device(ono, MemberId { def_level: 3, index: 5 }) matches Err(Error::Status {
                code,
                ..
            }) && (code == 8 || code == 11)
            &&& device(ono, MemberId { def_level: 3, index: 4 }) == Ok::<Seq<u8>, Error>(params)
        }) ==> members_from(device, ono, 0) == Some(members_reply(params)),
        ({
            &&& device(ono, MemberId { def_level: 3, index: 5 }) matches Err(Error::Status {
                code,
                ..
            }) && (code == 8 || code == 11)
            &&& device(ono, MemberId { def_level: 3, index: 4 }) matches Err(Error::Status {
                code,
                ..
            }) && (code == 8 || code == 11)
            &&& device(ono, MemberId { def_level: 3, index: 3 }) == Ok::<Seq<u8>, Error>(params)
        }) ==> members_from(device, ono, 0) == Some(members_reply(params)),
        (device(ono, MemberId { def_level: 3, index: 5 }) matches Err(e) && !(
        e matches Error::Status { code, .. } && (code == 8 || code == 11))) ==> members_from(
            device,
            ono,
            0,
        ) is None,
        device(ono, MemberId { def_level: 1, index: 5 }) == Ok::<Seq<u8>, Error>(params)
            && params.len() >= 2 && params.len() == 2 + 0x100 * params[0] + params[1] ==> role_from(
            device,
            ono,
        ) == text::utf8_lossy(params.skip(2)),
        device(ono, MemberId { def_level: 1, index: 5 }) is Err ==> role_from(device, ono) == Ono(
            ono,
        ).text(),
        device(ono, MemberId { def_level: 1, index: 1 }) is Err ==> class_from(device, ono) is None,
        device(ono, MemberId { def_level: 1, index: 1 }) == Ok::<Seq<u8>, Error>(
            bytes::u16_bytes(fields.len() as int) + value::laid_out(
                fields,
                |n: u16| bytes::u16_bytes(n as int),
            ) + bytes::u32_bytes(version as int),
        ) ==> class_from(device, ono) == Some(ClassModel { fields, version }),
        device(ono, MemberId { def_level: 1, index: 1 }) == Ok::<Seq<u8>, Error>(
            bytes::u16_bytes(fields.len() as int) + value::laid_out(
                fields,
                |n: u16| bytes::u16_bytes(n as int),
            ),
        ) ==> class_from(device, ono) == Some(ClassModel { fields, version: 1 }),
{
    reveal_with_fuel(members_from, 4);
    let e16 = |n: u16| bytes::u16_bytes(n as int);
    let list = bytes::u16_bytes(fields.len() as int) + value::laid_out(fields, e16);
    let tail = bytes::u32_bytes(version as int);
    value::lists_of_numbers_read_back(fields, seq![], tail);
    value::lists_of_numbers_read_back(fields, seq![], seq![]);
    assert(list + Seq::<u8>::empty() =~= list);
    assert(tail.subrange(0, 4) =~= bytes::u32_bytes(version as int));
    bytes::u32_reads_back(tail, 0, version as int);
    if params.len() >= 2 && params.len() == 2 + 0x100 * params[0] + params[1] {
        assert(params.subrange(2, params.len() as int) =~= params.skip(2));
    }
}

/// Only a class whose fields are 1, 1, 3 is a block. A qualified role is the role behind the roles of
/// all blocks around it, each followed by a slash.
pub proof fn qualified_roles_join_the_path(path: Seq<Seq<char>>, inner: Seq<char>, fields: Seq<u16>)
    ensures
        slashed(seq![]) == Seq::<char>::empty(),
        slashed(path.push(inner)) == slashed(path) + inner + seq!['/'],
        classes::is_block_class(fields) <==> fields.len() == 3 && fields[0] == 1 && fields[1] == 1
            && fields[2] == 3,
{
    assert(path.push(inner).drop_last() =~= path);
    if fields.len() == 3 && fields[0] == 1 && fields[1] == 1 && fields[2] == 3 {
        assert(fields =~= seq![1u16, 1u16, 3u16]);
    }
}

} // verus!
