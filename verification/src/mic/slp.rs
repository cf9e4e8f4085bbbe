//! The SLPv2 advertisements of ACN receivers. Both the multicast group and the port are one digit
//! off the registered ones. Listening enumerates the receivers of a segment without sending
//! anything.
use vstd::prelude::*;

use crate::bytes;
use crate::bytes::read_u16;
use crate::text;
use crate::text::{
    chars_eq, chars_of, clone_opt, find_char, from_utf8_lossy, match_at, split_at_each, string_of,
    trim, trim_set,
};

verus! {

/// Not the registered group, which has 255 in the third place.
pub const SLP_GROUP: [u8; 4] = [239, 255, 254, 253];

/// Not the registered port either.
pub const SLP_PORT: u16 = 8427;

pub const SLP_VERSION: u8 = 2;

pub const FUNCTION_ATTR_RPLY: u8 = 7;

pub const HEADER_MIN: usize = 14;

/// What a receiver says of itself.
#[derive(Debug, Clone, PartialEq, Eq)]
pub struct Advertisement {
    /// The component id. It holds the device's MAC address.
    pub cid: Option<String>,
    /// The name of the model.
    pub model: Option<String>,
    /// The name that the user gave the device; the model's name by default.
    pub user_name: Option<String>,
    /// `host:port`, for an SDT session.
    pub sdt_endpoint: Option<String>,
    /// The device class id.
    pub dcid: Option<String>,
}

/// An [`Advertisement`], its texts as sequences.
#[verifier::ext_equal]
pub struct AdvertisementModel {
    pub cid: Option<Seq<char>>,
    pub model: Option<Seq<char>>,
    pub user_name: Option<Seq<char>>,
    pub sdt_endpoint: Option<Seq<char>>,
    pub dcid: Option<Seq<char>>,
}

impl View for Advertisement {
    type V = AdvertisementModel;

    open spec fn view(&self) -> AdvertisementModel {
        AdvertisementModel {
            cid: text::opt_text(self.cid),
            model: text::opt_text(self.model),
            user_name: text::opt_text(self.user_name),
            sdt_endpoint: text::opt_text(self.sdt_endpoint),
            dcid: text::opt_text(self.dcid),
        }
    }
}

/// An advertisement that says nothing.
pub open spec fn silent() -> AdvertisementModel {
    AdvertisementModel { cid: None, model: None, user_name: None, sdt_endpoint: None, dcid: None }
}

impl Default for Advertisement {
    fn default() -> (r: Self)
        ensures
            r@ == silent(),
    {
        Advertisement { cid: None, model: None, user_name: None, sdt_endpoint: None, dcid: None }
    }
}

impl AdvertisementModel {
    /// Whether the model is one of a Shure receiver.
    pub open spec fn is_receiver(self) -> bool {
        match self.model {
            Some(m) => text::has_prefix(m, "QLXD"@) || text::has_prefix(m, "ULXD"@)
                || text::has_prefix(m, "AD"@),
            None => false,
        }
    }
}

impl Advertisement {
    /// Whether this is a Shure receiver, and not a console or another ACN device.
    pub fn is_receiver(&self) -> (r: bool)
        ensures
            r == self@.is_receiver(),
    {
        match &self.model {
            Some(m) => {
                let m = chars_of(m.as_str());
                match_at(m.as_slice(), chars_of("QLXD").as_slice(), 0) || match_at(
                    m.as_slice(),
                    chars_of("ULXD").as_slice(),
                    0,
                ) || match_at(m.as_slice(), chars_of("AD").as_slice(), 0)
            },
            None => false,
        }
    }

    /// A copy.
    pub fn duplicate(&self) -> (r: Self)
        ensures
            r@ == self@,
    {
        Advertisement {
            cid: clone_opt(&self.cid),
            model: clone_opt(&self.model),
            user_name: clone_opt(&self.user_name),
            sdt_endpoint: clone_opt(&self.sdt_endpoint),
            dcid: clone_opt(&self.dcid),
        }
    }
}

/// What one part of the session attribute adds to an advertisement.
pub open spec fn with_part(ad: AdvertisementModel, part: Seq<char>) -> AdvertisementModel {
    let p = text::trimmed(part);
    if text::has_prefix(p, "esta.sdt/"@) {
        AdvertisementModel { sdt_endpoint: Some(p.skip("esta.sdt/"@.len() as int)), ..ad }
    } else if text::has_prefix(p, "esta.dmp/cd:"@) {
        AdvertisementModel { dcid: Some(p.skip("esta.dmp/cd:"@.len() as int)), ..ad }
    } else {
        ad
    }
}

/// What the parts of the session attribute add to an advertisement, taken in order.
pub open spec fn with_parts(ad: AdvertisementModel, parts: Seq<Seq<char>>) -> AdvertisementModel
    decreases parts.len(),
{
    if parts.len() == 0 {
        ad
    } else {
        with_part(with_parts(ad, parts.drop_last()), parts.last())
    }
}

/// What an attribute adds to an advertisement.
pub open spec fn with_attribute(
    ad: AdvertisementModel,
    key: Seq<char>,
    value: Seq<char>,
) -> AdvertisementModel {
    if key == "cid"@ {
        AdvertisementModel { cid: Some(value), ..ad }
    } else if key == "acn-fctn"@ {
        AdvertisementModel { model: Some(value), ..ad }
    } else if key == "acn-uacn"@ {
        AdvertisementModel { user_name: Some(value), ..ad }
    } else if key == "csl-esta.dmp"@ {
        with_parts(ad, text::pieces(value, ";"@))
    } else {
        ad
    }
}

/// What a group of an attribute list adds to an advertisement: a key, `=`, and a value.
pub open spec fn with_group(ad: AdvertisementModel, group: Seq<char>) -> AdvertisementModel {
    let g = text::trim_by(group, |c: char| "(),"@.contains(c));
    match text::first_index(g, '=') {
        Some(k) => with_attribute(ad, text::trimmed(g.take(k)), text::trimmed(g.skip(k + 1))),
        None => ad,
    }
}

/// What the groups of an attribute list add to an advertisement, taken in order.
pub open spec fn with_groups(ad: AdvertisementModel, groups: Seq<Seq<char>>) -> AdvertisementModel
    decreases groups.len(),
{
    if groups.len() == 0 {
        ad
    } else {
        with_group(with_groups(ad, groups.drop_last()), groups.last())
    }
}

/// What an attribute list says: `(key=value),(key=value)`. Values may hold commas, so it is taken
/// apart at the brackets.
pub open spec fn advertised(list: Seq<char>) -> AdvertisementModel {
    with_groups(silent(), text::pieces(list, "),("@))
}

fn apply_part(ad: &mut Advertisement, part: &[char])
    ensures
        final(ad)@ == with_part(old(ad)@, part@),
{
    let sdt = chars_of("esta.sdt/");
    let dmp = chars_of("esta.dmp/cd:");
    let p = trim(part);
    if match_at(p, sdt.as_slice(), 0) {
        let rest = vstd::slice::slice_subrange(p, sdt.len(), p.len());
        assert(rest@ =~= p@.skip(sdt@.len() as int));
        ad.sdt_endpoint = Some(string_of(rest));
    } else if match_at(p, dmp.as_slice(), 0) {
        let rest = vstd::slice::slice_subrange(p, dmp.len(), p.len());
        assert(rest@ =~= p@.skip(dmp@.len() as int));
        ad.dcid = Some(string_of(rest));
    }
    assert(ad@ =~= with_part(old(ad)@, part@));
}

fn apply_parts(ad: &mut Advertisement, value: &[char])
    ensures
        final(ad)@ == with_parts(old(ad)@, text::pieces(value@, ";"@)),
{
    proof {
        reveal_strlit(";");
    }
    let sep = chars_of(";");
    let parts = split_at_each(value, sep.as_slice());
    let ghost all = text::pieces(value@, ";"@);
    let mut i: usize = 0;
    assert(all.take(0) =~= seq![]);
    while i < parts.len()
        invariant
            i <= parts.len(),
            all == Seq::new(parts@.len(), |i: int| parts@[i]@),
            ad@ == with_parts(old(ad)@, all.take(i as int)),
        decreases parts.len() - i,
    {
        assert(all.take(i + 1).drop_last() =~= all.take(i as int));
        assert(all.take(i + 1).last() == parts@[i as int]@);
        apply_part(ad, parts[i].as_slice());
        i = i + 1;
    }
    assert(all.take(i as int) =~= all);
}

fn apply_attribute(ad: &mut Advertisement, key: &[char], value: &[char])
    ensures
        final(ad)@ == with_attribute(old(ad)@, key@, value@),
{
    if chars_eq(key, chars_of("cid").as_slice()) {
        ad.cid = Some(string_of(value));
    } else if chars_eq(key, chars_of("acn-fctn").as_slice()) {
        ad.model = Some(string_of(value));
    } else if chars_eq(key, chars_of("acn-uacn").as_slice()) {
        ad.user_name = Some(string_of(value));
    } else if chars_eq(key, chars_of("csl-esta.dmp").as_slice()) {
        apply_parts(ad, value);
    }
    assert(ad@ =~= with_attribute(old(ad)@, key@, value@));
}

fn apply_group(ad: &mut Advertisement, group: &[char])
    ensures
        final(ad)@ == with_group(old(ad)@, group@),
{
    let brackets = chars_of("(),");
    let g = trim_set(group, brackets.as_slice());
    match find_char(g, '=') {
        Some(k) => {
            let len: usize = g.len();
            let key = vstd::slice::slice_subrange(g, 0, k);
            let value = vstd::slice::slice_subrange(g, k + 1, len);
            assert(key@ =~= g@.take(k as int));
            assert(value@ =~= g@.skip(k + 1));
            apply_attribute(ad, trim(key), trim(value));
        },
        None => {},
    }
}

/// Reads an attribute list.
pub fn parse_attribute_list(list: &str) -> (r: Advertisement)
    ensures
        r@ == advertised(list@),
{
    proof {
        reveal_strlit("),(");
    }
    let chars = chars_of(list);
    let sep = chars_of("),(");
    let groups = split_at_each(chars.as_slice(), sep.as_slice());
    let ghost all = text::pieces(list@, "),("@);
    let mut out = Advertisement::default();
    let mut i: usize = 0;
    assert(all.take(0) =~= seq![]);
    while i < groups.len()
        invariant
            i <= groups.len(),
            all == Seq::new(groups@.len(), |i: int| groups@[i]@),
            out@ == with_groups(silent(), all.take(i as int)),
        decreases groups.len() - i,
    {
        assert(all.take(i + 1).drop_last() =~= all.take(i as int));
        assert(all.take(i + 1).last() == groups@[i as int]@);
        apply_group(&mut out, groups[i].as_slice());
        i = i + 1;
    }
    assert(all.take(i as int) =~= all);
    out
}

/// The octets of the attribute list in a reply. `None` for another version or function, for a
/// reply that reports an error, and for one that is cut off.
pub open spec fn attribute_octets(datagram: Seq<u8>) -> Option<Seq<u8>> {
    if datagram.len() < HEADER_MIN || datagram[0] != SLP_VERSION || datagram[1]
        != FUNCTION_ATTR_RPLY {
        None
    } else {
        let body = 14 + bytes::u16_at(datagram, 12);
        if body + 4 > datagram.len() || bytes::u16_at(datagram, body) != 0 || body + 4
            + bytes::u16_at(datagram, body + 2) > datagram.len() {
            None
        } else {
            Some(
                datagram.subrange(body + 4, body + 4 + bytes::u16_at(datagram, body + 2)),
            )
        }
    }
}

/// Reads an attribute reply. `None` for anything that is not a whole one without an error.
pub fn parse_attr_reply(datagram: &[u8]) -> (r: Option<Advertisement>)
    ensures
        match r {
            Some(ad) => attribute_octets(datagram@) is Some && ad@ == advertised(
                text::utf8_lossy(attribute_octets(datagram@)->Some_0),
            ) && text::read_faithfully(attribute_octets(datagram@)->Some_0),
            None => attribute_octets(datagram@) is None,
        },
{
    if datagram.len() < HEADER_MIN || datagram[0] != SLP_VERSION || datagram[1]
        != FUNCTION_ATTR_RPLY {
        return None;
    }
    let lang_len: usize = read_u16(datagram, 12) as usize;
    let body: usize = HEADER_MIN + lang_len;
    if datagram.len() < body + 4 {
        return None;
    }
    if read_u16(datagram, body) != 0 {
        return None;
    }
    let attr_len: usize = read_u16(datagram, body + 2) as usize;
    if datagram.len() < body + 4 + attr_len {
        return None;
    }
    let attrs = vstd::slice::slice_subrange(datagram, body + 4, body + 4 + attr_len);
    let list = from_utf8_lossy(attrs);
    Some(parse_attribute_list(list.as_str()))
}

// ---------------------------------------------------------------------------
// Laws
// ---------------------------------------------------------------------------

/// The attribute list of a reply stands behind the header, the language, a code that is 0 and its
/// length; what follows it does not matter. Another version, another function and another code make
/// it no such reply.
pub proof fn an_attribute_list_reads_back(
    middle: Seq<u8>,
    language: Seq<u8>,
    list: Seq<u8>,
    rest: Seq<u8>,
    version: u8,
    function: u8,
    code: u16,
)
    requires
        middle.len() == 10,
        language.len() <= 0xffff,
        list.len() <= 0xffff,
    ensures
        ({
            let s = seq![version, function] + middle + bytes::u16_bytes(language.len() as int)
                + language + bytes::u16_bytes(code as int) + bytes::u16_bytes(list.len() as int)
                + list + rest;
            attribute_octets(s) == (if version == 2 && function == 7 && code == 0 {
                Some(list)
            } else {
                None
            })
        }),
{
    let front = seq![version, function] + middle;
    let count = bytes::u16_bytes(language.len() as int);
    let status = bytes::u16_bytes(code as int);
    let length = bytes::u16_bytes(list.len() as int);
    let s = front + count + language + status + length + list + rest;
    assert(s =~= seq![version, function] + middle + count + language + status + length + list
        + rest);
    let body = 14 + language.len() as int;
    assert(s[0] == version && s[1] == function);
    assert(s.subrange(12, 14) =~= count);
    assert(s.subrange(body, body + 2) =~= status);
    assert(s.subrange(body + 2, body + 4) =~= length);
    bytes::u16_reads_back(s, 12, language.len() as int);
    bytes::u16_reads_back(s, body, code as int);
    bytes::u16_reads_back(s, body + 2, list.len() as int);
    assert(s.subrange(body + 4, body + 4 + list.len()) =~= list);
}

/// What each attribute says; one that is not known says nothing.
pub proof fn an_attribute_says_its_value(
    ad: AdvertisementModel,
    key: Seq<char>,
    value: Seq<char>,
)
    ensures
        with_attribute(ad, "cid"@, value) == (AdvertisementModel { cid: Some(value), ..ad }),
        with_attribute(ad, "acn-fctn"@, value) == (AdvertisementModel { model: Some(value), ..ad }),
        with_attribute(ad, "acn-uacn"@, value) == (AdvertisementModel {
            user_name: Some(value),
            ..ad
        }),
        key != "cid"@ && key != "acn-fctn"@ && key != "acn-uacn"@ && key != "csl-esta.dmp"@
            ==> with_attribute(ad, key, value) == ad,
{
    reveal_strlit("cid");
    reveal_strlit("acn-fctn");
    reveal_strlit("acn-uacn");
    reveal_strlit("csl-esta.dmp");
    assert("acn-fctn"@[4] == 'f' && "acn-uacn"@[4] == 'u');
    assert("cid"@.len() == 3 && "acn-fctn"@.len() == 8 && "csl-esta.dmp"@.len() == 12);
}

/// Whether a text begins and ends with something that is neither white space nor a bracket nor a comma.
pub open spec fn has_firm_ends(s: Seq<char>) -> bool {
    s.len() > 0 && !text::is_white_space(s[0]) && !text::is_white_space(s.last()) && s[0] != '('
        && s[0] != ')' && s[0] != ',' && s.last() != '(' && s.last() != ')' && s.last() != ','
}

/// A group is a key, '=' and a value, between brackets or not.
pub proof fn a_group_says_its_attribute(
    ad: AdvertisementModel,
    before: Seq<char>,
    key: Seq<char>,
    value: Seq<char>,
    after: Seq<char>,
)
    requires
        has_firm_ends(key),
        has_firm_ends(value),
        forall|i: int| 0 <= i < key.len() ==> #[trigger] key[i] != '=',
        forall|i: int|
            0 <= i < before.len() ==> #[trigger] before[i] == '(' || before[i] == ')' || before[i]
                == ',',
        forall|i: int|
            0 <= i < after.len() ==> #[trigger] after[i] == '(' || after[i] == ')' || after[i]
                == ',',
    ensures
        with_group(ad, before + (key + seq!['='] + value) + after) == with_attribute(
            ad,
            key,
            value,
        ),
{
    reveal_strlit("(),");
    let drop = |c: char| "(),"@.contains(c);
    let g = key + seq!['='] + value;
    let none = Seq::<char>::empty();
    assert("(),"@[0] == '(' && "(),"@[1] == ')' && "(),"@[2] == ',');
    assert forall|c: char| #[trigger] drop(c) == (c == '(' || c == ')' || c == ',') by {
        if c == '(' {
            assert("(),"@[0] == c);
        }
        if c == ')' {
            assert("(),"@[1] == c);
        }
        if c == ',' {
            assert("(),"@[2] == c);
        }
        if "(),"@.contains(c) {
            let i = "(),"@.index_of(c);
            assert("(),"@[i] == c);
        }
    }
    assert(g[0] == key[0] && g.last() == value.last());
    text::trimming_leaves_the_middle(before, g, after, drop);
    text::first_index_is_first(g, '=');
    let k = key.len() as int;
    assert(g[k] == '=');
    match text::first_index(g, '=') {
        Some(j) => {
            if j < k {
                assert(g[j] == key[j]);
            }
            if j > k {
                assert(g[k] != '=');
            }
            assert(j == k);
        },
        None => {
            assert(g[k] != '=');
        },
    }
    assert(g.take(k) =~= key);
    assert(g.skip(k + 1) =~= value);
    let white = |c: char| text::is_white_space(c);
    text::trimming_leaves_the_middle(none, key, none, white);
    text::trimming_leaves_the_middle(none, value, none, white);
    assert(none + key + none =~= key);
    assert(none + value + none =~= value);
}

/// The groups of a list are taken in order, parted by a closing bracket, a comma and an opening one;
/// parts of the session attribute likewise, parted by semicolons.
pub proof fn a_list_is_its_groups(
    ad: AdvertisementModel,
    first: Seq<Seq<char>>,
    second: Seq<Seq<char>>,
    group: Seq<char>,
)
    ensures
        with_groups(ad, first + second) == with_groups(with_groups(ad, first), second),
        with_groups(ad, seq![group]) == with_group(ad, group),
        with_groups(ad, seq![]) == ad,
        with_parts(ad, first + second) == with_parts(with_parts(ad, first), second),
        with_parts(ad, seq![group]) == with_part(ad, group),
        with_parts(ad, seq![]) == ad,
    decreases second.len(),
{
    assert(seq![group].drop_last() =~= Seq::<Seq<char>>::empty());
    reveal_with_fuel(with_groups, 2);
    reveal_with_fuel(with_parts, 2);
    if second.len() == 0 {
        assert(first + second =~= first);
    } else {
        assert((first + second).drop_last() =~= first + second.drop_last());
        a_list_is_its_groups(ad, first, second.drop_last(), group);
    }
}

/// Two groups of a list say the one and then the other.
pub proof fn a_list_of_two_says_both(first: Seq<char>, second: Seq<char>)
    requires
        forall|k: int|
            0 <= k < first.len() ==> #[trigger] (first + "),("@ + second).subrange(k, k + 3)
                != "),("@,
        forall|k: int|
            0 <= k && k + 3 <= second.len() ==> #[trigger] second.subrange(k, k + 3) != "),("@,
    ensures
        advertised(first + "),("@ + second) == with_group(with_group(silent(), first), second),
        advertised(second) == with_group(silent(), second),
{
    reveal_strlit("),(");
    let sep = "),("@;
    text::a_separator_parts_pieces(first, sep, second);
    text::a_separator_parts_pieces(second, sep, seq![]);
    a_list_is_its_groups(silent(), seq![first], seq![second], first);
    a_list_is_its_groups(with_group(silent(), first), seq![], seq![], second);
    a_list_is_its_groups(silent(), seq![], seq![], second);
}

/// The parts of the session attribute: the endpoint, and the id of the device class.
pub proof fn a_part_says_its_value(ad: AdvertisementModel, value: Seq<char>, part: Seq<char>)
    requires
        value.len() > 0 && !text::is_white_space(value.last()),
        part.len() > 0 && !text::is_white_space(part[0]) && !text::is_white_space(part.last()),
    ensures
        with_part(ad, "esta.sdt/"@ + value) == (AdvertisementModel {
            sdt_endpoint: Some(value),
            ..ad
        }),
        with_part(ad, "esta.dmp/cd:"@ + value) == (AdvertisementModel { dcid: Some(value), ..ad }),
        !text::has_prefix(part, "esta.sdt/"@) && !text::has_prefix(part, "esta.dmp/cd:"@)
            ==> with_part(ad, part) == ad,
{
    reveal_strlit("esta.sdt/");
    reveal_strlit("esta.dmp/cd:");
    let none = Seq::<char>::empty();
    let white = |c: char| text::is_white_space(c);
    let a = "esta.sdt/"@ + value;
    let b = "esta.dmp/cd:"@ + value;
    assert(a[0] == 'e' && b[0] == 'e');
    assert(a.last() == value.last() && b.last() == value.last());
    text::trimming_leaves_the_middle(none, a, none, white);
    text::trimming_leaves_the_middle(none, b, none, white);
    text::trimming_leaves_the_middle(none, part, none, white);
    assert(none + a + none =~= a);
    assert(none + b + none =~= b);
    assert(none + part + none =~= part);
    text::prefixes_and_suffixes("esta.sdt/"@, value, a);
    text::prefixes_and_suffixes("esta.dmp/cd:"@, value, b);
    assert(a.skip(9) =~= value);
    assert(b.skip(12) =~= value);
    assert(b[5] == 'd');
    if text::has_prefix(b, "esta.sdt/"@) {
        assert(b.subrange(0, 9)[5] == 'd');
    }
}

/// A receiver is known by what its model begins with; without a model it is none.
pub proof fn a_receiver_is_known_by_its_model(ad: AdvertisementModel, rest: Seq<char>)
    ensures
        ad.model == Some("QLXD"@ + rest) || ad.model == Some("ULXD"@ + rest) || ad.model == Some(
            "AD"@ + rest,
        ) ==> ad.is_receiver(),
        ad.model is None ==> !ad.is_receiver(),
        ad.model is Some && !text::has_prefix(ad.model->Some_0, "QLXD"@) && !text::has_prefix(
            ad.model->Some_0,
            "ULXD"@,
        ) && !text::has_prefix(ad.model->Some_0, "AD"@) ==> !ad.is_receiver(),
{
    text::prefixes_and_suffixes("QLXD"@, rest, rest);
    text::prefixes_and_suffixes("ULXD"@, rest, rest);
    text::prefixes_and_suffixes("AD"@, rest, rest);
}

/// The session attribute gives the endpoint and the id of the device class, parted by a semicolon.
pub proof fn a_session_gives_both_parts(
    ad: AdvertisementModel,
    endpoint: Seq<char>,
    class: Seq<char>,
)
    requires
        endpoint.len() > 0 && !text::is_white_space(endpoint.last()),
        class.len() > 0 && !text::is_white_space(class.last()),
        forall|i: int| 0 <= i < endpoint.len() ==> #[trigger] endpoint[i] != ';',
        forall|i: int| 0 <= i < class.len() ==> #[trigger] class[i] != ';',
    ensures
        with_attribute(
            ad,
            "csl-esta.dmp"@,
            "esta.sdt/"@ + endpoint + seq![';'] + ("esta.dmp/cd:"@ + class),
        ) == (AdvertisementModel { sdt_endpoint: Some(endpoint), dcid: Some(class), ..ad }),
{
    reveal_strlit("cid");
    reveal_strlit("acn-fctn");
    reveal_strlit("acn-uacn");
    reveal_strlit("csl-esta.dmp");
    reveal_strlit("esta.sdt/");
    reveal_strlit("esta.dmp/cd:");
    reveal_strlit(";");
    assert("cid"@.len() == 3 && "acn-fctn"@.len() == 8 && "acn-uacn"@.len() == 8
        && "csl-esta.dmp"@.len() == 12);
    let a = "esta.sdt/"@ + endpoint;
    let b = "esta.dmp/cd:"@ + class;
    let sep = ";"@;
    assert(sep =~= seq![';']);
    let s = a + sep + b;
    assert forall|k: int| 0 <= k < a.len() implies #[trigger] s.subrange(k, k + sep.len())
        != sep by {
        assert(s.subrange(k, k + 1)[0] == a[k]);
        if k >= 9 {
            assert(a[k] == endpoint[k - 9]);
        }
    }
    assert forall|k: int| 0 <= k && k + sep.len() <= b.len() implies #[trigger] b.subrange(
        k,
        k + sep.len(),
    ) != sep by {
        assert(b.subrange(k, k + 1)[0] == b[k]);
        if k >= 12 {
            assert(b[k] == class[k - 12]);
        }
    }
    text::a_separator_parts_pieces(a, sep, b);
    text::a_separator_parts_pieces(b, sep, seq![]);
    a_list_is_its_groups(ad, seq![a], seq![b], a);
    a_list_is_its_groups(with_part(ad, a), seq![], seq![], b);
    a_part_says_its_value(ad, endpoint, a);
    a_part_says_its_value(with_part(ad, a), class, b);
}

} // verus!
