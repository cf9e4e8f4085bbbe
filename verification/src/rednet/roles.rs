//! Turning a device's own object names into the bridge's roles.
//!
//! Mappings look for roles such as `Ch 3 Gain`. AES70 devices name their objects however the
//! vendor liked, so the names are matched against plausible patterns, and an object that does not
//! match keeps the device's own name.
use vstd::prelude::*;

use crate::oca::value::OcaClass;
use crate::text;
use crate::text::{chars_of, find_from, parse_unsigned, push_decimal, trim};

verus! {

/// The two fields that mappings between channels know about.
#[derive(Debug, Clone, Copy, PartialEq, Eq, Structural)]
pub enum Field {
    Gain,
    Phantom,
}

impl Field {
    /// The last word of the role.
    pub open spec fn text(self) -> Seq<char> {
        match self {
            Field::Gain => "Gain"@,
            Field::Phantom => "Phantom"@,
        }
    }

    /// The last word of the role.
    pub fn suffix(self) -> (r: &'static str)
        ensures
            r@ == self.text(),
    {
        match self {
            Field::Gain => "Gain",
            Field::Phantom => "Phantom",
        }
    }
}

/// The role that mappings look for.
pub open spec fn canonical_text(channel: int, field: Field) -> Seq<char> {
    "Ch "@ + text::decimal(channel as nat) + " "@ + field.text()
}

/// The role that mappings look for, for a channel and field.
pub fn canonical(channel: u16, field: Field) -> (r: String)
    ensures
        r@ == canonical_text(channel as int, field),
{
    let mut out: String = String::new();
    out.append("Ch ");
    push_decimal(&mut out, channel as u64);
    out.append(" ");
    out.append(field.suffix());
    assert(out@ =~= canonical_text(channel as int, field));
    out
}

/// An ASCII capital as its small letter, and anything else as it is.
pub open spec fn small(c: char) -> char {
    if 'A' <= c && c <= 'Z' {
        (c as u32 + 32) as char
    } else {
        c
    }
}

/// `s` with ASCII capitals as small letters.
pub open spec fn lowered(s: Seq<char>) -> Seq<char> {
    s.map_values(|c: char| small(c))
}

fn lower(s: &str) -> (r: Vec<char>)
    ensures
        r@ == lowered(s@),
{
    let chars = chars_of(s);
    let mut out: Vec<char> = Vec::new();
    let mut i: usize = 0;
    while i < chars.len()
        invariant
            i <= chars.len(),
            chars@ == s@,
            out@.len() == i,
            forall|j: int| 0 <= j < i ==> #[trigger] out@[j] == small(s@[j]),
        decreases chars.len() - i,
    {
        let c: char = chars[i];
        if c >= 'A' && c <= 'Z' {
            let code: u8 = (c as u32 + 32) as u8;
            out.push(code as char);
        } else {
            out.push(c);
        }
        i = i + 1;
    }
    assert(out@ =~= lowered(s@));
    out
}

/// Whether `word` stands anywhere in `s`.
pub open spec fn mentions(s: Seq<char>, word: Seq<char>) -> bool {
    text::first_match(s, word, 0) is Some
}

fn mentioned(s: &Vec<char>, word: &str) -> (r: bool)
    requires
        word@.len() > 0,
    ensures
        r == mentions(s@, word@),
{
    let w = chars_of(word);
    match find_from(s.as_slice(), w.as_slice(), 0) {
        Some(_) => true,
        None => false,
    }
}

/// Which field a role names. The class is a guard: a label that happens to contain "gain" is not
/// a gain control. Gain compensation is a feature of its own, not a preamp gain.
pub open spec fn named_field(leaf: Seq<char>, class: OcaClass) -> Option<Field> {
    let name = lowered(leaf);
    if mentions(name, "compensat"@) {
        None
    } else if class == OcaClass::Gain && (mentions(name, "gain"@) || mentions(name, "trim"@)) {
        Some(Field::Gain)
    } else if (class == OcaClass::Switch || class == OcaClass::Mute) && (mentions(name, "phantom"@)
        || mentions(name, "48v"@) || mentions(name, "+48"@)) {
        Some(Field::Phantom)
    } else {
        None
    }
}

/// Which field a role names.
pub fn field_of(leaf: &str, class: OcaClass) -> (r: Option<Field>)
    ensures
        r == named_field(leaf@, class),
{
    proof {
        reveal_strlit("compensat");
        reveal_strlit("gain");
        reveal_strlit("trim");
        reveal_strlit("phantom");
        reveal_strlit("48v");
        reveal_strlit("+48");
    }
    let name = lower(leaf);
    if mentioned(&name, "compensat") {
        return None;
    }
    let gainish: bool = class == OcaClass::Gain;
    let switchish: bool = class == OcaClass::Switch || class == OcaClass::Mute;
    if gainish && (mentioned(&name, "gain") || mentioned(&name, "trim")) {
        return Some(Field::Gain);
    }
    if switchish && (mentioned(&name, "phantom") || mentioned(&name, "48v") || mentioned(
        &name,
        "+48",
    )) {
        return Some(Field::Phantom);
    }
    None
}

/// Whether `c` is an ASCII letter or digit.
pub open spec fn is_word_char(c: char) -> bool {
    ('0' <= c && c <= '9') || ('a' <= c && c <= 'z') || ('A' <= c && c <= 'Z')
}

fn word_char(c: char) -> (r: bool)
    ensures
        r == is_word_char(c),
{
    (c >= '0' && c <= '9') || (c >= 'a' && c <= 'z') || (c >= 'A' && c <= 'Z')
}

/// Whether `n` can be a channel: they count from 1, and 256 is well past any preamp while still
/// ruling out the frequencies and levels that appear in names.
pub open spec fn is_plausible_channel(n: int) -> bool {
    1 <= n <= 256
}

/// What may stand between a label and its number.
pub open spec fn is_separator(c: char) -> bool {
    c == ' ' || c == '.' || c == '-' || c == '_' || c == '#'
}

/// The digits at the front of `s`.
pub open spec fn leading_digits(s: Seq<char>) -> Seq<char>
    decreases s.len(),
{
    if s.len() > 0 && text::is_digit(s[0]) {
        seq![s[0]] + leading_digits(s.skip(1))
    } else {
        seq![]
    }
}

/// The 16-bit number at the front of `s`.
pub open spec fn leading_value(s: Seq<char>) -> Option<nat> {
    text::parsed_unsigned(leading_digits(s), 0xffff)
}

proof fn lemma_leading_digits(s: Seq<char>, n: int)
    requires
        0 <= n <= s.len(),
        forall|j: int| 0 <= j < n ==> text::is_digit(#[trigger] s[j]),
        n < s.len() ==> !text::is_digit(s[n]),
    ensures
        leading_digits(s) == s.take(n),
    decreases n,
{
    if n > 0 {
        let t = s.skip(1);
        assert forall|j: int| 0 <= j < n - 1 implies text::is_digit(#[trigger] t[j]) by {
            assert(t[j] == s[j + 1]);
        }
        lemma_leading_digits(t, n - 1);
        assert(seq![s[0]] + t.take(n - 1) =~= s.take(n));
    } else {
        assert(s.take(0) =~= seq![]);
    }
}

fn leading_number(s: &[char]) -> (r: Option<u16>)
    ensures
        match r {
            Some(n) => leading_value(s@) == Some(n as nat),
            None => leading_value(s@) is None,
        },
{
    let mut n: usize = 0;
    while n < s.len() && s[n] >= '0' && s[n] <= '9'
        invariant
            n <= s.len(),
            forall|j: int| 0 <= j < n ==> text::is_digit(#[trigger] s@[j]),
        decreases s.len() - n,
    {
        n = n + 1;
    }
    proof {
        lemma_leading_digits(s@, n as int);
        assert(s@.take(n as int) =~= s@.subrange(0, n as int));
    }
    match parse_unsigned(vstd::slice::slice_subrange(s, 0, n), 0xffff) {
        Some(v) => Some(v as u16),
        None => None,
    }
}

/// The number that follows a label, whatever separators stand between.
pub open spec fn number_after(s: Seq<char>) -> Option<nat> {
    leading_value(text::trim_start_by(s, |c: char| is_separator(c)))
}

fn find_number_after(s: &[char]) -> (r: Option<u16>)
    ensures
        match r {
            Some(n) => number_after(s@) == Some(n as nat),
            None => number_after(s@) is None,
        },
{
    let mut start: usize = 0;
    let ghost drop = |c: char| is_separator(c);
    assert(s@.skip(0) =~= s@);
    while start < s.len() && (s[start] == ' ' || s[start] == '.' || s[start] == '-' || s[start]
        == '_' || s[start] == '#')
        invariant
            start <= s.len(),
            drop == (|c: char| is_separator(c)),
            text::trim_start_by(s@.skip(start as int), drop) == text::trim_start_by(s@, drop),
        decreases s.len() - start,
    {
        assert(s@.skip(start as int).skip(1) =~= s@.skip(start + 1));
        start = start + 1;
    }
    assert(s@.skip(start as int) =~= s@.subrange(start as int, s@.len() as int));
    leading_number(vstd::slice::slice_subrange(s, start, s.len()))
}

/// The channel that `label` introduces in `s`, at position `from` or after it. The label must be
/// a word of its own ("in" inside "gain" is none), followed by a plausible number.
pub open spec fn labelled_channel(s: Seq<char>, label: Seq<char>, from: int) -> Option<nat>
    decreases s.len() - from,
{
    match text::first_match(s, label, from) {
        None => None,
        Some(at) => {
            let after = at + label.len();
            let number = if at == 0 || !is_word_char(s[at - 1]) {
                number_after(s.skip(after))
            } else {
                None
            };
            if number is Some && is_plausible_channel(number->0 as int) {
                number
            } else if label.len() > 0 && from <= at && after <= s.len() {
                labelled_channel(s, label, after)
            } else {
                None
            }
        },
    }
}

fn find_labelled(s: &[char], label: &[char]) -> (r: Option<u16>)
    requires
        label@.len() > 0,
    ensures
        match r {
            Some(n) => labelled_channel(s@, label@, 0) == Some(n as nat),
            None => labelled_channel(s@, label@, 0) is None,
        },
{
    let mut from: usize = 0;
    loop
        invariant
            label@.len() > 0,
            from <= s@.len(),
            labelled_channel(s@, label@, 0) == labelled_channel(s@, label@, from as int),
        decreases s@.len() - from,
    {
        let at: usize = match find_from(s, label, from) {
            Some(k) => k,
            None => return None,
        };
        assert(s@.len() == s.len());
        let after: usize = at + label.len();
        if at == 0 || !word_char(s[at - 1]) {
            assert(s@.skip(after as int) =~= s@.subrange(after as int, s@.len() as int));
            if let Some(n) = find_number_after(vstd::slice::slice_subrange(s, after, s.len())) {
                if n >= 1 && n <= 256 {
                    return Some(n);
                }
            }
        }
        from = after;
    }
}

/// The words that may introduce a channel number.
pub open spec fn labels() -> Seq<Seq<char>> {
    seq![
        "channel"@,
        "chan"@,
        "ch"@,
        "input"@,
        "in"@,
        "mic"@,
        "preamp"@,
        "pre"@,
    ]
}

/// The first channel that one of `labels` introduces in `s`.
pub open spec fn first_labelled(s: Seq<char>, labels: Seq<Seq<char>>) -> Option<nat>
    decreases labels.len(),
{
    if labels.len() == 0 {
        None
    } else {
        match labelled_channel(s, labels[0], 0) {
            Some(n) => Some(n),
            None => first_labelled(s, labels.skip(1)),
        }
    }
}

/// The channel that a name gives: a number behind one of the labels, or a name that is nothing
/// but a number. "Gain 65" gives none: it ends in a number that is not a channel.
pub open spec fn channel_in(name: Seq<char>) -> Option<nat> {
    let s = lowered(name);
    match first_labelled(s, labels()) {
        Some(n) => Some(n),
        None => match text::parsed_unsigned(text::trimmed(s), 0xffff) {
            Some(n) => if is_plausible_channel(n as int) {
                Some(n)
            } else {
                None
            },
            None => None,
        },
    }
}

fn label(i: usize) -> (r: &'static str)
    requires
        i < 8,
    ensures
        r@ == labels()[i as int],
        r@.len() > 0,
{
    proof {
        reveal_strlit("channel");
        reveal_strlit("chan");
        reveal_strlit("ch");
        reveal_strlit("input");
        reveal_strlit("in");
        reveal_strlit("mic");
        reveal_strlit("preamp");
        reveal_strlit("pre");
    }
    match i {
        0 => "channel",
        1 => "chan",
        2 => "ch",
        3 => "input",
        4 => "in",
        5 => "mic",
        6 => "preamp",
        _ => "pre",
    }
}

/// The channel that a name gives.
pub fn channel_number(name: &str) -> (r: Option<u16>)
    ensures
        match r {
            Some(n) => channel_in(name@) == Some(n as nat),
            None => channel_in(name@) is None,
        },
{
    let s = lower(name);
    let mut i: usize = 0;
    assert(labels().skip(0) =~= labels());
    while i < 8
        invariant
            i <= 8,
            s@ == lowered(name@),
            first_labelled(s@, labels()) == first_labelled(s@, labels().skip(i as int)),
        decreases 8 - i,
    {
        let word = chars_of(label(i));
        assert(labels().skip(i as int)[0] == labels()[i as int]);
        if let Some(n) = find_labelled(s.as_slice(), word.as_slice()) {
            return Some(n);
        }
        assert(labels().skip(i as int).skip(1) =~= labels().skip(i + 1));
        i = i + 1;
    }
    match parse_unsigned(trim(s.as_slice()), 0xffff) {
        Some(n) => if n >= 1 && n <= 256 {
            Some(n as u16)
        } else {
            None
        },
        None => None,
    }
}

/// The channel that the innermost of `path` gives which gives any.
pub open spec fn innermost_channel(path: Seq<Seq<char>>) -> Option<nat>
    decreases path.len(),
{
    if path.len() == 0 {
        None
    } else {
        match channel_in(path.last()) {
            Some(n) => Some(n),
            None => innermost_channel(path.drop_last()),
        }
    }
}

/// The role of an object in the bridge's terms, `None` where it is no gain or phantom control of
/// a channel. The channel is looked for in the object's own name, then in the names of its
/// containers from the innermost outwards.
pub open spec fn classified(leaf: Seq<char>, path: Seq<Seq<char>>, class: OcaClass) -> Option<
    Seq<char>,
> {
    match named_field(leaf, class) {
        None => None,
        Some(field) => {
            let channel = match channel_in(leaf) {
                Some(n) => Some(n),
                None => innermost_channel(path),
            };
            match channel {
                Some(n) => Some(canonical_text(n as int, field)),
                None => None,
            }
        },
    }
}

/// The role of an object in the bridge's terms.
pub fn classify(leaf: &str, path: &[String], class: OcaClass) -> (r: Option<String>)
    ensures
        text::opt_text(r) == classified(leaf@, text::texts(path@), class),
{
    let field = match field_of(leaf, class) {
        Some(f) => f,
        None => return None,
    };
    if let Some(n) = channel_number(leaf) {
        return Some(canonical(n, field));
    }
    let ghost all = text::texts(path@);
    let mut i: usize = path.len();
    assert(all.take(i as int) =~= all);
    while i > 0
        invariant
            i <= path.len(),
            all == text::texts(path@),
            named_field(leaf@, class) == Some(field),
            channel_in(leaf@) is None,
            innermost_channel(all) == innermost_channel(all.take(i as int)),
        decreases i,
    {
        assert(all.take(i as int).last() == path@[i - 1]@);
        assert(all.take(i as int).drop_last() =~= all.take(i - 1));
        if let Some(n) = channel_number(path[i - 1].as_str()) {
            return Some(canonical(n, field));
        }
        i = i - 1;
    }
    None
}

// ---------------------------------------------------------------------------
// Laws
// ---------------------------------------------------------------------------

/// Whether `word` stands in `s` from some position on.
pub open spec fn holds_word(s: Seq<char>, word: Seq<char>) -> bool {
    exists|k: int|
        0 <= k && k + word.len() <= s.len() && #[trigger] s.subrange(k, k + word.len()) == word
}

proof fn lemma_mentions(s: Seq<char>, word: Seq<char>)
    requires
        word.len() > 0,
    ensures
        mentions(s, word) == holds_word(s, word),
{
    text::a_first_match_is_first(s, word, 0);
    if mentions(s, word) {
        let k = text::first_match(s, word, 0)->0;
        assert(s.subrange(k, k + word.len()) == word);
    }
}

/// Capitals count as small letters, and nothing else changes.
pub proof fn capitals_count_as_small_letters(s: Seq<char>, i: int)
    requires
        0 <= i < s.len(),
    ensures
        lowered(s).len() == s.len(),
        'A' <= s[i] && s[i] <= 'Z' ==> lowered(s)[i] as int == s[i] as int + 32 && 'a'
            <= lowered(s)[i] && lowered(s)[i] <= 'z',
        !('A' <= s[i] && s[i] <= 'Z') ==> lowered(s)[i] == s[i],
{
}

/// A name tells a gain by "gain" or "trim" on a gain control, and phantom power by "phantom", "48v" or
/// "+48" on a switch or a mute, in whatever letters; one that speaks of compensation tells neither, and
/// a control of another class neither.
pub proof fn a_name_tells_its_field(leaf: Seq<char>, class: OcaClass)
    ensures
        holds_word(lowered(leaf), "compensat"@) ==> named_field(leaf, class) is None,
        !holds_word(lowered(leaf), "compensat"@) && class == OcaClass::Gain ==> named_field(
            leaf,
            class,
        ) == (if holds_word(lowered(leaf), "gain"@) || holds_word(lowered(leaf), "trim"@) {
            Some(Field::Gain)
        } else {
            None
        }),
        !holds_word(lowered(leaf), "compensat"@) && (class == OcaClass::Switch || class
            == OcaClass::Mute) ==> named_field(leaf, class) == (if holds_word(
            lowered(leaf),
            "phantom"@,
        ) || holds_word(lowered(leaf), "48v"@) || holds_word(lowered(leaf), "+48"@) {
            Some(Field::Phantom)
        } else {
            None
        }),
        class != OcaClass::Gain && class != OcaClass::Switch && class != OcaClass::Mute
            ==> named_field(leaf, class) is None,
{
    reveal_strlit("compensat");
    reveal_strlit("gain");
    reveal_strlit("trim");
    reveal_strlit("phantom");
    reveal_strlit("48v");
    reveal_strlit("+48");
    let s = lowered(leaf);
    lemma_mentions(s, "compensat"@);
    lemma_mentions(s, "gain"@);
    lemma_mentions(s, "trim"@);
    lemma_mentions(s, "phantom"@);
    lemma_mentions(s, "48v"@);
    lemma_mentions(s, "+48"@);
}

proof fn lemma_number_follows(separators: Seq<char>, n: nat, after: Seq<char>)
    requires
        forall|i: int| 0 <= i < separators.len() ==> is_separator(#[trigger] separators[i]),
        after.len() > 0 ==> !text::is_digit(after[0]),
        n <= 0xffff,
    ensures
        number_after(separators + text::decimal(n) + after) == Some(n),
{
    let d = text::decimal(n);
    let rest = d + after;
    let drop = |c: char| is_separator(c);
    text::decimal_spells_the_number(n);
    assert(text::is_digit(d[0]));
    assert(rest[0] == d[0]);
    lemma_skips(separators, rest, drop);
    assert(separators + d + after =~= separators + rest);
    assert forall|j: int| 0 <= j < d.len() implies text::is_digit(#[trigger] rest[j]) by {
        assert(rest[j] == d[j]);
    }
    lemma_leading_digits(rest, d.len() as int);
    assert(rest.take(d.len() as int) =~= d);
    text::decimal_reads_back(n, 0xffff);
}

proof fn lemma_skips(before: Seq<char>, rest: Seq<char>, drop: spec_fn(char) -> bool)
    requires
        forall|i: int| 0 <= i < before.len() ==> drop(#[trigger] before[i]),
        rest.len() > 0 ==> !drop(rest[0]),
    ensures
        text::trim_start_by(before + rest, drop) == rest,
    decreases before.len(),
{
    if before.len() == 0 {
        assert(before + rest =~= rest);
    } else {
        assert(drop(before[0]));
        assert((before + rest)[0] == before[0]);
        assert((before + rest).skip(1) =~= before.skip(1) + rest);
        assert forall|i: int| 0 <= i < before.skip(1).len() implies drop(
            #[trigger] before.skip(1)[i],
        ) by {
            assert(before.skip(1)[i] == before[i + 1]);
        }
        lemma_skips(before.skip(1), rest, drop);
    }
}

/// A label that stands as a word of its own gives the number behind it, with any separators between, if
/// that number can be a channel.
pub proof fn a_label_gives_the_number_behind_it(
    before: Seq<char>,
    label: Seq<char>,
    separators: Seq<char>,
    n: nat,
    after: Seq<char>,
)
    requires
        label.len() > 0,
        before.len() > 0 ==> !is_word_char(before.last()),
        forall|i: int| 0 <= i < separators.len() ==> is_separator(#[trigger] separators[i]),
        after.len() > 0 ==> !text::is_digit(after[0]),
        1 <= n <= 256,
        ({
            let s = before + label + separators + text::decimal(n) + after;
            forall|k: int|
                0 <= k < before.len() ==> #[trigger] s.subrange(k, k + label.len()) != label
        }),
    ensures
        labelled_channel(before + label + separators + text::decimal(n) + after, label, 0) == Some(
            n,
        ),
{
    let tail = separators + text::decimal(n) + after;
    let s = before + label + separators + text::decimal(n) + after;
    let at = before.len() as int;
    assert(s =~= before + label + tail);
    text::a_first_match_is_first(s, label, 0);
    assert(s.subrange(at, at + label.len()) =~= label);
    match text::first_match(s, label, 0) {
        Some(k) => {
            if k < at {
                assert(s.subrange(k, k + label.len()) != label);
            }
            if k > at {
                assert(s.subrange(at, at + label.len()) != label);
            }
            assert(k == at);
        },
        None => {
            assert(s.subrange(at, at + label.len()) != label);
        },
    }
    if at > 0 {
        assert(s[at - 1] == before.last());
    }
    assert(s.skip(at + label.len()) =~= tail);
    lemma_number_follows(separators, n, after);
}

/// A label inside a word, and one with no plausible channel behind it, is passed over: the search goes
/// on behind it.
pub proof fn a_label_in_a_word_is_passed_over(s: Seq<char>, label: Seq<char>, from: int, at: int)
    requires
        label.len() > 0,
        0 <= from <= at,
        at + label.len() <= s.len(),
        s.subrange(at, at + label.len()) == label,
        forall|k: int|
            from <= k < at ==> #[trigger] s.subrange(k, k + label.len()) != label,
        at > 0 && is_word_char(s[at - 1]) || number_after(s.skip(at + label.len())) is None
            || number_after(s.skip(at + label.len()))->0 == 0 || number_after(
            s.skip(at + label.len()),
        )->0 > 256,
    ensures
        labelled_channel(s, label, from) == labelled_channel(s, label, at + label.len()),
{
    text::a_first_match_is_first(s, label, from);
    match text::first_match(s, label, from) {
        Some(k) => {
            if k < at {
                assert(s.subrange(k, k + label.len()) != label);
            }
            if k > at {
                assert(s.subrange(at, at + label.len()) != label);
            }
            assert(k == at);
        },
        None => {
            assert(s.subrange(at, at + label.len()) != label);
        },
    }
}

/// Without the label there is no channel behind it.
pub proof fn no_label_no_channel(s: Seq<char>, label: Seq<char>)
    requires
        label.len() > 0,
        !holds_word(s, label),
    ensures
        labelled_channel(s, label, 0) is None,
{
    text::a_first_match_is_first(s, label, 0);
    if text::first_match(s, label, 0) is Some {
        let k = text::first_match(s, label, 0)->0;
        assert(s.subrange(k, k + label.len()) == label);
    }
}

/// Whatever channel a name gives can be one.
pub proof fn a_given_channel_is_plausible(name: Seq<char>)
    requires
        channel_in(name) is Some,
    ensures
        1 <= channel_in(name)->0 <= 256,
{
    lemma_first_labelled_plausible(lowered(name), labels());
}

proof fn lemma_labelled_plausible(s: Seq<char>, label: Seq<char>, from: int)
    requires
        labelled_channel(s, label, from) is Some,
    ensures
        1 <= labelled_channel(s, label, from)->0 <= 256,
    decreases s.len() - from,
{
    let at = text::first_match(s, label, from)->0;
    let after = at + label.len();
    let number = if at == 0 || !is_word_char(s[at - 1]) {
        number_after(s.skip(after))
    } else {
        None
    };
    if !(number is Some && is_plausible_channel(number->0 as int)) {
        lemma_labelled_plausible(s, label, after);
    }
}

proof fn lemma_first_labelled_plausible(s: Seq<char>, words: Seq<Seq<char>>)
    ensures
        first_labelled(s, words) is Some ==> 1 <= first_labelled(s, words)->0 <= 256,
    decreases words.len(),
{
    if words.len() > 0 {
        if labelled_channel(s, words[0], 0) is Some {
            lemma_labelled_plausible(s, words[0], 0);
        } else {
            lemma_first_labelled_plausible(s, words.skip(1));
        }
    }
}

/// The labels are tried in this order, and the first that gives a channel decides.
pub proof fn the_first_label_that_gives_one_decides(name: Seq<char>, i: int)
    requires
        0 <= i < 8,
        labelled_channel(lowered(name), labels()[i], 0) is Some,
        forall|j: int|
            0 <= j < i ==> labelled_channel(lowered(name), #[trigger] labels()[j], 0) is None,
    ensures
        channel_in(name) == labelled_channel(lowered(name), labels()[i], 0),
        labels() == seq![
            "channel"@,
            "chan"@,
            "ch"@,
            "input"@,
            "in"@,
            "mic"@,
            "preamp"@,
            "pre"@,
        ],
{
    lemma_first_labelled(lowered(name), labels(), i);
}

proof fn lemma_first_labelled(s: Seq<char>, words: Seq<Seq<char>>, i: int)
    requires
        0 <= i < words.len(),
        labelled_channel(s, words[i], 0) is Some,
        forall|j: int| 0 <= j < i ==> labelled_channel(s, #[trigger] words[j], 0) is None,
    ensures
        first_labelled(s, words) == labelled_channel(s, words[i], 0),
    decreases i,
{
    if i > 0 {
        assert(labelled_channel(s, words[0], 0) is None);
        let rest = words.skip(1);
        assert(rest[i - 1] == words[i]);
        assert forall|j: int| 0 <= j < i - 1 implies labelled_channel(
            s,
            #[trigger] rest[j],
            0,
        ) is None by {
            assert(rest[j] == words[j + 1]);
        }
        lemma_first_labelled(s, rest, i - 1);
    }
}

proof fn lemma_no_labelled(s: Seq<char>, words: Seq<Seq<char>>)
    requires
        forall|j: int| 0 <= j < words.len() ==> labelled_channel(s, #[trigger] words[j], 0) is None,
    ensures
        first_labelled(s, words) is None,
    decreases words.len(),
{
    if words.len() > 0 {
        assert(labelled_channel(s, words[0], 0) is None);
        assert forall|j: int| 0 <= j < words.skip(1).len() implies labelled_channel(
            s,
            #[trigger] words.skip(1)[j],
            0,
        ) is None by {
            assert(words.skip(1)[j] == words[j + 1]);
        }
        lemma_no_labelled(s, words.skip(1));
    }
}

/// A name that is nothing but a number gives that channel, if it can be one.
pub proof fn a_bare_number_is_a_channel(n: nat)
    requires
        n <= 0xffff,
    ensures
        channel_in(text::decimal(n)) == (if 1 <= n <= 256 {
            Some(n)
        } else {
            None
        }),
{
    let d = text::decimal(n);
    let s = lowered(d);
    text::decimal_spells_the_number(n);
    assert forall|i: int| 0 <= i < d.len() implies #[trigger] s[i] == d[i] && text::is_digit(
        d[i],
    ) by {
        assert(text::is_digit(d[i]));
    }
    assert(s =~= d);
    lemma_labels_begin_with_letters();
    assert forall|j: int| 0 <= j < 8 implies labelled_channel(s, #[trigger] labels()[j], 0) is None by {
        let w = labels()[j];
        if holds_word(s, w) {
            let k = choose|k: int|
                0 <= k && k + w.len() <= s.len() && #[trigger] s.subrange(k, k + w.len()) == w;
            assert(s.subrange(k, k + w.len())[0] == s[k]);
            assert(text::is_digit(s[k]));
        }
        no_label_no_channel(s, w);
    }
    lemma_no_labelled(s, labels());
    text::decimal_reads_back(n, 0xffff);
    let none = Seq::<char>::empty();
    let drop = |c: char| text::is_white_space(c);
    assert(text::is_digit(d[0]) && text::is_digit(d[d.len() - 1]));
    text::trimming_leaves_the_middle(none, d, none, drop);
    assert(none + d + none =~= d);
}

proof fn lemma_labels_begin_with_letters()
    ensures
        labels().len() == 8,
        forall|j: int|
            0 <= j < 8 ==> (#[trigger] labels()[j]).len() > 0 && 'a' <= labels()[j][0]
                && labels()[j][0] <= 'z',
{
    reveal_strlit("channel");
    reveal_strlit("chan");
    reveal_strlit("ch");
    reveal_strlit("input");
    reveal_strlit("in");
    reveal_strlit("mic");
    reveal_strlit("preamp");
    reveal_strlit("pre");
}

/// The channel is the one that an object's own name gives, or else the one that the innermost of the
/// blocks around it gives which gives any; without either, or without a field, an object has no role of
/// the bridge's.
pub proof fn the_nearest_name_gives_the_channel(
    leaf: Seq<char>,
    outer: Seq<Seq<char>>,
    name: Seq<char>,
    inner: Seq<Seq<char>>,
    class: OcaClass,
    field: Field,
    n: nat,
)
    requires
        named_field(leaf, class) == Some(field),
        forall|i: int| 0 <= i < inner.len() ==> channel_in(#[trigger] inner[i]) is None,
    ensures
        channel_in(leaf) == Some(n) ==> classified(leaf, outer, class) == Some(
            canonical_text(n as int, field),
        ),
        channel_in(leaf) is None && channel_in(name) == Some(n) ==> classified(
            leaf,
            outer.push(name) + inner,
            class,
        ) == Some(canonical_text(n as int, field)),
        channel_in(leaf) is None ==> classified(leaf, inner, class) is None,
{
    let path = outer.push(name) + inner;
    lemma_innermost(outer.push(name), inner);
    lemma_innermost(Seq::<Seq<char>>::empty(), inner);
    assert(Seq::<Seq<char>>::empty() + inner =~= inner);
    assert(outer.push(name).drop_last() =~= outer);
}

proof fn lemma_innermost(outer: Seq<Seq<char>>, inner: Seq<Seq<char>>)
    requires
        forall|i: int| 0 <= i < inner.len() ==> channel_in(#[trigger] inner[i]) is None,
    ensures
        innermost_channel(outer + inner) == innermost_channel(outer),
    decreases inner.len(),
{
    if inner.len() == 0 {
        assert(outer + inner =~= outer);
    } else {
        let less = inner.drop_last();
        assert((outer + inner).drop_last() =~= outer + less);
        assert((outer + inner).last() == inner.last());
        assert(channel_in(inner[inner.len() - 1]) is None);
        assert forall|i: int| 0 <= i < less.len() implies channel_in(#[trigger] less[i]) is None by {
            assert(less[i] == inner[i]);
        }
        lemma_innermost(outer, less);
    }
}

/// A role of the bridge's is told for what it is: its channel, its field, and so itself again.
pub proof fn a_canonical_role_is_told_for_itself(n: u16, field: Field, path: Seq<Seq<char>>)
    requires
        1 <= n <= 256,
    ensures
        channel_in(canonical_text(n as int, field)) == Some(n as nat),
        classified(
            canonical_text(n as int, field),
            path,
            if field == Field::Gain {
                OcaClass::Gain
            } else {
                OcaClass::Switch
            },
        ) == Some(canonical_text(n as int, field)),
{
    lemma_canonical_channel(n, field);
    lemma_canonical_field(n, field);
}

/// A role of the bridge's in small letters.
spec fn small_role(n: u16, field: Field) -> Seq<char> {
    seq!['c', 'h', ' '] + text::decimal(n as nat) + (if field == Field::Gain {
        seq![' ', 'g', 'a', 'i', 'n']
    } else {
        seq![' ', 'p', 'h', 'a', 'n', 't', 'o', 'm']
    })
}

proof fn lemma_small_role(n: u16, field: Field)
    ensures
        lowered(canonical_text(n as int, field)) == small_role(n, field),
        forall|i: int|
            1 <= i < small_role(n, field).len() ==> #[trigger] small_role(n, field)[i] != 'c',
{
    reveal_strlit("Ch ");
    reveal_strlit(" ");
    reveal_strlit("Gain");
    reveal_strlit("Phantom");
    let role = canonical_text(n as int, field);
    let s = lowered(role);
    let d = text::decimal(n as nat);
    let expected = small_role(n, field);
    text::decimal_spells_the_number(n as nat);
    assert(s.len() == expected.len());
    assert forall|i: int| 0 <= i < s.len() implies s[i] == expected[i] by {
        assert(s[i] == small(role[i]));
        if 3 <= i < 3 + d.len() {
            assert(text::is_digit(d[i - 3]));
            assert(role[i] == d[i - 3]);
        }
    }
    assert(s =~= expected);
    assert forall|i: int| 1 <= i < expected.len() implies #[trigger] expected[i] != 'c' by {
        if 3 <= i < 3 + d.len() {
            assert(text::is_digit(d[i - 3]));
        }
    }
}

proof fn lemma_canonical_channel(n: u16, field: Field)
    requires
        1 <= n <= 256,
    ensures
        channel_in(canonical_text(n as int, field)) == Some(n as nat),
{
    reveal_strlit("channel");
    reveal_strlit("chan");
    reveal_strlit("ch");
    lemma_small_role(n, field);
    let s = small_role(n, field);
    let d = text::decimal(n as nat);
    let none = Seq::<char>::empty();
    let word = s.skip(3 + d.len() as int);
    assert(s =~= none + "ch"@ + seq![' '] + d + word);
    a_label_gives_the_number_behind_it(none, "ch"@, seq![' '], n as nat, word);
    lemma_only_at_the_front(s, "channel"@);
    lemma_only_at_the_front(s, "chan"@);
    no_label_no_channel(s, "channel"@);
    no_label_no_channel(s, "chan"@);
    assert(labels()[0] == "channel"@ && labels()[1] == "chan"@ && labels()[2] == "ch"@);
    assert forall|j: int| 0 <= j < 2 implies labelled_channel(s, #[trigger] labels()[j], 0) is None by {
        assert(j == 0 || j == 1);
    }
    lemma_first_labelled(s, labels(), 2);
}

proof fn lemma_canonical_field(n: u16, field: Field)
    ensures
        named_field(
            canonical_text(n as int, field),
            if field == Field::Gain {
                OcaClass::Gain
            } else {
                OcaClass::Switch
            },
        ) == Some(field),
{
    reveal_strlit("gain");
    reveal_strlit("phantom");
    reveal_strlit("compensat");
    lemma_small_role(n, field);
    let s = small_role(n, field);
    let d = text::decimal(n as nat);
    lemma_only_at_the_front(s, "compensat"@);
    lemma_mentions(s, "compensat"@);
    let at = 4 + d.len() as int;
    if field == Field::Gain {
        assert(s.subrange(at, at + 4) =~= "gain"@);
        assert(holds_word(s, "gain"@));
        lemma_mentions(s, "gain"@);
    } else {
        assert(s.subrange(at, at + 7) =~= "phantom"@);
        assert(holds_word(s, "phantom"@));
        lemma_mentions(s, "phantom"@);
    }
}

/// A word that begins with a 'c', goes on with something else than `s` does, and whose 'c' is found
/// nowhere else.
proof fn lemma_only_at_the_front(s: Seq<char>, word: Seq<char>)
    requires
        s.len() >= 3,
        forall|i: int| 1 <= i < s.len() ==> s[i] != 'c',
        word.len() >= 3,
        word[0] == 'c',
        s[1] == 'h',
        s[2] == ' ',
        word[1] != 'h' || word[2] != ' ',
    ensures
        !holds_word(s, word),
{
    if holds_word(s, word) {
        let k = choose|k: int|
            0 <= k && k + word.len() <= s.len() && #[trigger] s.subrange(k, k + word.len())
                == word;
        let part = s.subrange(k, k + word.len());
        assert(part[0] == s[k]);
        assert(k == 0);
        assert(part[1] == s[1] && part[2] == s[2]);
    }
}

/// A word is made of letters and digits.
pub proof fn what_words_are_made_of(c: char)
    ensures
        is_word_char(c) <==> 48 <= c as u32 <= 57 || 65 <= c as u32 <= 90 || 97 <= c as u32 <= 122,
{
}

} // verus!
