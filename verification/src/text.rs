//! Character-level text handling: numbers, words, trimming and splitting.
use vstd::prelude::*;

verus! {

/// `String::push` of the standard library: appends one character.
pub assume_specification [std::string::String::push] (s: &mut std::string::String, c: char)
    ensures
        final(s)@ == old(s)@.push(c),
;

/// What `String::from_utf8_lossy` of the standard library reads out of a byte sequence.
pub uninterp spec fn utf8_lossy(bytes: Seq<u8>) -> Seq<char>;

/// Calls `String::from_utf8_lossy`. Well-formed UTF-8 is returned as the text that it encodes;
/// of other input only that the text depends on nothing but the bytes (how many replacement
/// characters stand for a malformed run is left unsaid).
#[verifier::external_body]
pub(crate) fn from_utf8_lossy(bytes: &[u8]) -> (r: String)
    ensures
        r@ == utf8_lossy(bytes@),
        vstd::utf8::valid_utf8(bytes@) ==> r@ == vstd::utf8::decode_utf8(bytes@),
{
    String::from_utf8_lossy(bytes).into_owned()
}

/// Whether `bytes`, if they are well-formed UTF-8, read as the text that they encode.
pub open spec fn read_faithfully(bytes: Seq<u8>) -> bool {
    vstd::utf8::valid_utf8(bytes) ==> utf8_lossy(bytes) == vstd::utf8::decode_utf8(bytes)
}

/// Calls `std::str::from_utf8`: the text that well-formed UTF-8 encodes, `None` for anything else.
#[verifier::external_body]
pub(crate) fn from_utf8(bytes: &[u8]) -> (r: Option<String>)
    ensures
        match r {
            Some(s) => vstd::utf8::valid_utf8(bytes@) && s@ == vstd::utf8::decode_utf8(bytes@),
            None => !vstd::utf8::valid_utf8(bytes@),
        },
{
    match std::str::from_utf8(bytes) {
        Ok(s) => Some(s.to_owned()),
        Err(_) => None,
    }
}

/// The characters of `s`.
pub fn chars_of(s: &str) -> (r: Vec<char>)
    ensures
        r@ == s@,
{
    let mut out: Vec<char> = Vec::new();
    for c in it: s.chars()
        invariant
            it.seq() == s@,
            out@ == s@.take(it.index() as int),
    {
        out.push(c);
    }
    assert(out@ =~= s@);
    out
}

/// The text made of `chars`.
pub fn string_of(chars: &[char]) -> (r: String)
    ensures
        r@ == chars@,
{
    let mut out: String = String::new();
    let mut i: usize = 0;
    while i < chars.len()
        invariant
            i <= chars.len(),
            out@ == chars@.take(i as int),
        decreases chars.len() - i,
    {
        out.push(chars[i]);
        i = i + 1;
        assert(chars@.take(i as int) =~= chars@.take(i - 1).push(chars@[i - 1]));
    }
    assert(chars@.take(i as int) =~= chars@);
    out
}

/// Whether two texts are the same.
pub fn text_eq(a: &str, b: &str) -> (r: bool)
    ensures
        r == (a@ == b@),
{
    a.to_owned() == b.to_owned()
}

/// Whether two character sequences are the same.
pub fn chars_eq(a: &[char], b: &[char]) -> (r: bool)
    ensures
        r == (a@ == b@),
{
    if a.len() != b.len() {
        return false;
    }
    let mut i: usize = 0;
    while i < a.len()
        invariant
            i <= a.len(),
            a.len() == b.len(),
            forall|j: int| 0 <= j < i ==> a@[j] == b@[j],
        decreases a.len() - i,
    {
        if a[i] != b[i] {
            assert(a@[i as int] != b@[i as int]);
            return false;
        }
        i = i + 1;
    }
    assert(a@ =~= b@);
    true
}

/// The texts of a list of strings.
pub open spec fn texts(v: Seq<String>) -> Seq<Seq<char>> {
    Seq::new(v.len(), |i: int| v[i]@)
}

/// The text of an optional string.
pub open spec fn opt_text(v: Option<String>) -> Option<Seq<char>> {
    match v {
        Some(s) => Some(s@),
        None => None,
    }
}

/// A copy of an optional string.
pub fn clone_opt(v: &Option<String>) -> (r: Option<String>)
    ensures
        opt_text(r) == opt_text(*v),
{
    match v {
        Some(s) => Some(s.clone()),
        None => None,
    }
}

// ---------------------------------------------------------------------------
// Numbers
// ---------------------------------------------------------------------------

/// The decimal digit `d`, for `d < 10`.
pub open spec fn digit_char(d: nat) -> char {
    (48 + d) as char
}

/// `n` in decimal, without leading zeros.
pub open spec fn decimal(n: nat) -> Seq<char>
    decreases n,
{
    if n < 10 {
        seq![digit_char(n)]
    } else {
        decimal(n / 10).push(digit_char(n % 10))
    }
}

/// Appends `n` in decimal.
pub fn push_decimal(out: &mut String, n: u64)
    ensures
        final(out)@ == old(out)@ + decimal(n as nat),
    decreases n,
{
    if n >= 10 {
        push_decimal(out, n / 10);
    }
    let d: u8 = (n % 10) as u8;
    out.push((48 + d) as char);
    assert(out@ =~= old(out)@ + decimal(n as nat));
}

/// The lower-case hexadecimal digit `d`, for `d < 16`.
pub open spec fn hex_char(d: nat) -> char {
    if d < 10 {
        (48 + d) as char
    } else {
        (87 + d) as char
    }
}

/// The `width` low hexadecimal digits of `n`.
pub open spec fn hex(n: nat, width: nat) -> Seq<char>
    decreases width,
{
    if width == 0 {
        seq![]
    } else {
        hex(n / 16, (width - 1) as nat).push(hex_char(n % 16))
    }
}

/// Appends the `width` low hexadecimal digits of `n`.
pub fn push_hex(out: &mut String, n: u32, width: u8)
    ensures
        final(out)@ == old(out)@ + hex(n as nat, width as nat),
    decreases width,
{
    if width == 0 {
        assert(out@ =~= old(out)@ + hex(n as nat, 0));
        return;
    }
    push_hex(out, n / 16, width - 1);
    let d: u8 = (n % 16) as u8;
    if d < 10 {
        out.push((48 + d) as char);
    } else {
        out.push((87 + d) as char);
    }
    assert(out@ =~= old(out)@ + hex(n as nat, width as nat));
}

/// Whether `c` is a decimal digit.
pub open spec fn is_digit(c: char) -> bool {
    '0' <= c && c <= '9'
}

/// The number that the digits `s` spell.
pub open spec fn digits_value(s: Seq<char>) -> nat
    decreases s.len(),
{
    if s.len() == 0 {
        0
    } else {
        digits_value(s.drop_last()) * 10 + (s.last() as nat - 48) as nat
    }
}

/// Whether `s` is a number: one or more decimal digits.
pub open spec fn is_number(s: Seq<char>) -> bool {
    s.len() > 0 && forall|i: int| 0 <= i < s.len() ==> is_digit(#[trigger] s[i])
}

/// `s` without a leading plus sign.
pub open spec fn without_plus(s: Seq<char>) -> Seq<char> {
    if s.len() > 0 && s[0] == '+' {
        s.skip(1)
    } else {
        s
    }
}

/// The unsigned number that `s` spells, where it is no larger than `max`: an optional plus
/// sign followed by decimal digits and nothing else.
pub open spec fn parsed_unsigned(s: Seq<char>, max: nat) -> Option<nat> {
    let digits = without_plus(s);
    if is_number(digits) && digits_value(digits) <= max {
        Some(digits_value(digits))
    } else {
        None
    }
}

proof fn lemma_digits_value_grows(s: Seq<char>, i: int)
    requires
        0 <= i <= s.len(),
    ensures
        digits_value(s.take(i)) <= digits_value(s),
    decreases s.len() - i,
{
    if i < s.len() {
        lemma_digits_value_grows(s, i + 1);
        assert(s.take(i + 1).drop_last() =~= s.take(i));
    } else {
        assert(s.take(i) =~= s);
    }
}

/// Reads the digits `s` as a number no larger than `max`.
pub fn parse_digits(s: &[char], max: u64) -> (r: Option<u64>)
    requires
        max <= u64::MAX / 10 - 10,
    ensures
        match r {
            Some(n) => is_number(s@) && n == digits_value(s@) && n <= max,
            None => !(is_number(s@) && digits_value(s@) <= max),
        },
{
    if s.len() == 0 {
        return None;
    }
    let mut value: u64 = 0;
    let mut i: usize = 0;
    while i < s.len()
        invariant
            i <= s.len(),
            s.len() > 0,
            max <= u64::MAX / 10 - 10,
            value <= max,
            value == digits_value(s@.take(i as int)),
            forall|j: int| 0 <= j < i ==> is_digit(#[trigger] s@[j]),
        decreases s.len() - i,
    {
        let c: char = s[i];
        if !(c >= '0' && c <= '9') {
            assert(!is_digit(s@[i as int]));
            return None;
        }
        value = value * 10 + (c as u32 - 48) as u64;
        i = i + 1;
        assert(s@.take(i as int).drop_last() =~= s@.take(i - 1));
        if value > max {
            proof {
                lemma_digits_value_grows(s@, i as int);
            }
            return None;
        }
    }
    assert(s@.take(i as int) =~= s@);
    Some(value)
}

/// Reads an unsigned number no larger than `max`.
pub fn parse_unsigned(s: &[char], max: u64) -> (r: Option<u64>)
    requires
        max <= u64::MAX / 10 - 10,
    ensures
        match r {
            Some(n) => parsed_unsigned(s@, max as nat) == Some(n as nat),
            None => parsed_unsigned(s@, max as nat) is None,
        },
{
    if s.len() > 0 && s[0] == '+' {
        assert(s@.skip(1) =~= s@.subrange(1, s@.len() as int));
        parse_digits(vstd::slice::slice_subrange(s, 1, s.len()), max)
    } else {
        parse_digits(s, max)
    }
}

/// Reads a text as a `u16`.
pub fn parse_u16(s: &str) -> (r: Option<u16>)
    ensures
        match r {
            Some(n) => parsed_unsigned(s@, 0xffff) == Some(n as nat),
            None => parsed_unsigned(s@, 0xffff) is None,
        },
{
    let chars = chars_of(s);
    match parse_unsigned(chars.as_slice(), 0xffff) {
        Some(n) => Some(n as u16),
        None => None,
    }
}

/// Reads a text as a `u32`.
pub fn parse_u32(s: &str) -> (r: Option<u32>)
    ensures
        match r {
            Some(n) => parsed_unsigned(s@, 0xffff_ffff) == Some(n as nat),
            None => parsed_unsigned(s@, 0xffff_ffff) is None,
        },
{
    let chars = chars_of(s);
    match parse_unsigned(chars.as_slice(), 0xffff_ffff) {
        Some(n) => Some(n as u32),
        None => None,
    }
}

/// Reads a text as a `u8`.
pub fn parse_u8(s: &str) -> (r: Option<u8>)
    ensures
        match r {
            Some(n) => parsed_unsigned(s@, 0xff) == Some(n as nat),
            None => parsed_unsigned(s@, 0xff) is None,
        },
{
    let chars = chars_of(s);
    match parse_unsigned(chars.as_slice(), 0xff) {
        Some(n) => Some(n as u8),
        None => None,
    }
}

/// The `i16` that `s` spells: an optional sign followed by decimal digits and nothing else.
pub open spec fn parsed_i16(s: Seq<char>) -> Option<int> {
    if s.len() > 0 && s[0] == '-' {
        let digits = s.skip(1);
        if is_number(digits) && digits_value(digits) <= 32768 {
            Some(-(digits_value(digits) as int))
        } else {
            None
        }
    } else {
        match parsed_unsigned(s, 32767) {
            Some(n) => Some(n as int),
            None => None,
        }
    }
}

/// Reads a text as an `i16`.
pub fn parse_i16(s: &str) -> (r: Option<i16>)
    ensures
        match r {
            Some(n) => parsed_i16(s@) == Some(n as int),
            None => parsed_i16(s@) is None,
        },
{
    let chars = chars_of(s);
    if chars.len() > 0 && chars[0] == '-' {
        assert(s@.skip(1) =~= s@.subrange(1, s@.len() as int));
        match parse_digits(vstd::slice::slice_subrange(chars.as_slice(), 1, chars.len()), 32768) {
            Some(n) => Some((-(n as i32)) as i16),
            None => None,
        }
    } else {
        match parse_unsigned(chars.as_slice(), 32767) {
            Some(n) => Some(n as i16),
            None => None,
        }
    }
}

/// A number written in decimal reads back as itself.
pub proof fn decimal_reads_back(n: nat, max: nat)
    requires
        n <= max,
    ensures
        parsed_unsigned(decimal(n), max) == Some(n),
{
    decimal_spells_the_number(n);
    let s = decimal(n);
    assert(is_digit(s[0]));
    assert(s[0] != '+');
}

/// A number in decimal is made of digits, and they spell it.
pub proof fn decimal_spells_the_number(n: nat)
    ensures
        is_number(decimal(n)),
        digits_value(decimal(n)) == n,
    decreases n,
{
    if n < 10 {
        let s = decimal(n);
        assert(s.drop_last() =~= Seq::<char>::empty());
        assert(digits_value(s.drop_last()) == 0);
    } else {
        decimal_spells_the_number(n / 10);
        let s = decimal(n);
        assert(s.drop_last() =~= decimal(n / 10));
        assert forall|i: int| 0 <= i < s.len() implies is_digit(#[trigger] s[i]) by {
            if i < s.len() - 1 {
                assert(s[i] == decimal(n / 10)[i]);
            }
        }
    }
}

// ---------------------------------------------------------------------------
// Words and trimming
// ---------------------------------------------------------------------------

/// Whether `c` has Unicode's `White_Space` property.
pub open spec fn is_white_space(c: char) -> bool {
    ||| '\u{9}' <= c && c <= '\u{d}'
    ||| c == '\u{20}'
    ||| c == '\u{85}'
    ||| c == '\u{a0}'
    ||| c == '\u{1680}'
    ||| '\u{2000}' <= c && c <= '\u{200a}'
    ||| c == '\u{2028}'
    ||| c == '\u{2029}'
    ||| c == '\u{202f}'
    ||| c == '\u{205f}'
    ||| c == '\u{3000}'
}

/// Whether `c` has Unicode's `White_Space` property.
pub fn white_space(c: char) -> (r: bool)
    ensures
        r == is_white_space(c),
{
    (c >= '\u{9}' && c <= '\u{d}') || c == '\u{20}' || c == '\u{85}' || c == '\u{a0}'
        || c == '\u{1680}' || (c >= '\u{2000}' && c <= '\u{200a}') || c == '\u{2028}'
        || c == '\u{2029}' || c == '\u{202f}' || c == '\u{205f}' || c == '\u{3000}'
}

/// The maximal runs of characters of `s` that are not white space.
pub open spec fn words(s: Seq<char>) -> Seq<Seq<char>>
    decreases s.len(),
{
    if s.len() == 0 {
        seq![]
    } else {
        let before = words(s.drop_last());
        if is_white_space(s.last()) {
            before
        } else if s.len() == 1 || is_white_space(s[s.len() - 2]) {
            before.push(seq![s.last()])
        } else {
            before.drop_last().push(before.last().push(s.last()))
        }
    }
}

/// Splits a text into its words.
pub fn split_words(s: &[char]) -> (r: Vec<String>)
    ensures
        texts(r@) == words(s@),
{
    let mut done: Vec<String> = Vec::new();
    let mut current: Vec<char> = Vec::new();
    let mut i: usize = 0;
    while i < s.len()
        invariant
            i <= s.len(),
            current.len() > 0 <==> i > 0 && !is_white_space(s@[i - 1]),
            words(s@.take(i as int)) == (if current.len() > 0 {
                texts(done@).push(current@)
            } else {
                texts(done@)
            }),
        decreases s.len() - i,
    {
        let c: char = s[i];
        let ghost before = s@.take(i as int);
        let ghost after = s@.take(i + 1);
        assert(after.drop_last() =~= before);
        if white_space(c) {
            if current.len() > 0 {
                let ghost old_done = done@;
                done.push(string_of(current.as_slice()));
                assert(texts(done@) =~= texts(old_done).push(current@));
                current = Vec::new();
            }
        } else {
            let ghost old_current = current@;
            current.push(c);
            proof {
                if old_current.len() > 0 {
                    let w = texts(done@).push(old_current);
                    assert(w.drop_last() =~= texts(done@));
                } else {
                    assert(current@ =~= seq![c]);
                }
            }
        }
        i = i + 1;
    }
    assert(s@.take(i as int) =~= s@);
    if current.len() > 0 {
        let ghost old_done = done@;
        done.push(string_of(current.as_slice()));
        assert(texts(done@) =~= texts(old_done).push(current@));
    }
    done
}

/// `s` without its leading characters of which `drop` holds.
pub open spec fn trim_start_by(s: Seq<char>, drop: spec_fn(char) -> bool) -> Seq<char>
    decreases s.len(),
{
    if s.len() > 0 && drop(s[0]) {
        trim_start_by(s.skip(1), drop)
    } else {
        s
    }
}

/// `s` without its trailing characters of which `drop` holds.
pub open spec fn trim_end_by(s: Seq<char>, drop: spec_fn(char) -> bool) -> Seq<char>
    decreases s.len(),
{
    if s.len() > 0 && drop(s.last()) {
        trim_end_by(s.drop_last(), drop)
    } else {
        s
    }
}

/// `s` without the characters at its two ends of which `drop` holds.
pub open spec fn trim_by(s: Seq<char>, drop: spec_fn(char) -> bool) -> Seq<char> {
    trim_end_by(trim_start_by(s, drop), drop)
}

/// `s` without the white space at its two ends.
pub open spec fn trimmed(s: Seq<char>) -> Seq<char> {
    trim_by(s, |c: char| is_white_space(c))
}

/// Drops the white space at the two ends of `s`.
pub fn trim<'a>(s: &'a [char]) -> (r: &'a [char])
    ensures
        r@ == trimmed(s@),
{
    let mut start: usize = 0;
    let ghost drop = |c: char| is_white_space(c);
    assert(s@.skip(0) =~= s@);
    while start < s.len() && white_space(s[start])
        invariant
            start <= s.len(),
            drop == (|c: char| is_white_space(c)),
            trim_start_by(s@.skip(start as int), drop) == trim_start_by(s@, drop),
        decreases s.len() - start,
    {
        assert(s@.skip(start as int).skip(1) =~= s@.skip(start + 1));
        start = start + 1;
    }
    let ghost t = s@.skip(start as int);
    assert(trim_start_by(s@, drop) == t);
    let mut end: usize = s.len();
    assert(s@.subrange(start as int, end as int) =~= t);
    while end > start && white_space(s[end - 1])
        invariant
            start <= end <= s.len(),
            drop == (|c: char| is_white_space(c)),
            trim_end_by(s@.subrange(start as int, end as int), drop) == trim_end_by(t, drop),
        decreases end,
    {
        assert(s@.subrange(start as int, end as int).drop_last() =~= s@.subrange(
            start as int,
            end - 1,
        ));
        end = end - 1;
    }
    vstd::slice::slice_subrange(s, start, end)
}

/// Drops the characters of `set` at the two ends of `s`.
pub fn trim_set<'a>(s: &'a [char], set: &[char]) -> (r: &'a [char])
    ensures
        r@ == trim_by(s@, |c: char| set@.contains(c)),
{
    let mut start: usize = 0;
    let ghost drop = |c: char| set@.contains(c);
    assert(s@.skip(0) =~= s@);
    while start < s.len() && find_char(set, s[start]).is_some()
        invariant
            start <= s.len(),
            drop == (|c: char| set@.contains(c)),
            trim_start_by(s@.skip(start as int), drop) == trim_start_by(s@, drop),
        decreases s.len() - start,
    {
        proof {
            first_index_is_first(set@, s@[start as int]);
        }
        assert(s@.skip(start as int).skip(1) =~= s@.skip(start + 1));
        start = start + 1;
    }
    let ghost t = s@.skip(start as int);
    proof {
        if start < s@.len() {
            first_index_is_first(set@, s@[start as int]);
        }
    }
    assert(trim_start_by(s@, drop) == t);
    let mut end: usize = s.len();
    assert(s@.subrange(start as int, end as int) =~= t);
    while end > start && find_char(set, s[end - 1]).is_some()
        invariant
            start <= end <= s.len(),
            drop == (|c: char| set@.contains(c)),
            trim_end_by(s@.subrange(start as int, end as int), drop) == trim_end_by(t, drop),
        decreases end,
    {
        proof {
            first_index_is_first(set@, s@[end - 1]);
        }
        assert(s@.subrange(start as int, end as int).drop_last() =~= s@.subrange(
            start as int,
            end - 1,
        ));
        end = end - 1;
    }
    proof {
        if end > start {
            first_index_is_first(set@, s@[end - 1]);
        }
    }
    vstd::slice::slice_subrange(s, start, end)
}

// ---------------------------------------------------------------------------
// Searching and splitting
// ---------------------------------------------------------------------------

/// Whether `p` stands in `s` at position `k`.
pub open spec fn stands_at(s: Seq<char>, p: Seq<char>, k: int) -> bool {
    0 <= k && k + p.len() <= s.len() && s.subrange(k, k + p.len()) == p
}

/// Whether `s` ends with `p`.
pub open spec fn has_suffix(s: Seq<char>, p: Seq<char>) -> bool {
    stands_at(s, p, s.len() - p.len())
}

/// Whether `s` begins with `p`.
pub open spec fn has_prefix(s: Seq<char>, p: Seq<char>) -> bool {
    stands_at(s, p, 0)
}

/// The first position of `s`, at `from` or after it, at which `p` stands.
pub open spec fn first_match(s: Seq<char>, p: Seq<char>, from: int) -> Option<int>
    decreases s.len() - from,
{
    if from + p.len() > s.len() || from >= s.len() && p.len() > 0 {
        None
    } else if stands_at(s, p, from) {
        Some(from)
    } else if from < s.len() {
        first_match(s, p, from + 1)
    } else {
        None
    }
}

/// Whether `p` stands in `s` at position `k`.
pub fn match_at(s: &[char], p: &[char], k: usize) -> (r: bool)
    ensures
        r == stands_at(s@, p@, k as int),
{
    if k > s.len() || p.len() > s.len() - k {
        return false;
    }
    chars_eq(vstd::slice::slice_subrange(s, k, k + p.len()), p)
}

/// The first position of `s`, at `from` or after it, at which `p` stands.
pub fn find_from(s: &[char], p: &[char], from: usize) -> (r: Option<usize>)
    requires
        p@.len() > 0,
        from <= s@.len(),
    ensures
        match r {
            Some(k) => first_match(s@, p@, from as int) == Some(k as int) && from <= k
                && stands_at(s@, p@, k as int),
            None => first_match(s@, p@, from as int) is None,
        },
{
    let mut i: usize = from;
    while i < s.len()
        invariant
            from <= i <= s.len(),
            p@.len() > 0,
            first_match(s@, p@, from as int) == first_match(s@, p@, i as int),
        decreases s.len() - i,
    {
        if match_at(s, p, i) {
            return Some(i);
        }
        if p.len() > s.len() - i {
            return None;
        }
        i = i + 1;
    }
    None
}

/// The pieces of `s` between the occurrences of `sep`, searched from the left.
pub open spec fn pieces(s: Seq<char>, sep: Seq<char>) -> Seq<Seq<char>>
    decreases s.len(),
{
    match first_match(s, sep, 0) {
        Some(k) => if 0 <= k && sep.len() > 0 && k + sep.len() <= s.len() {
            seq![s.take(k)] + pieces(s.skip(k + sep.len()), sep)
        } else {
            seq![s]
        },
        None => seq![s],
    }
}

/// Splits `s` at the occurrences of `sep`, searched from the left.
pub fn split_at_each(s: &[char], sep: &[char]) -> (r: Vec<Vec<char>>)
    requires
        sep@.len() > 0,
    ensures
        Seq::new(r@.len(), |i: int| r@[i]@) == pieces(s@, sep@),
{
    let mut out: Vec<Vec<char>> = Vec::new();
    let mut rest: &[char] = s;
    assert(Seq::new(out@.len(), |i: int| out@[i]@) + pieces(rest@, sep@) =~= pieces(s@, sep@));
    loop
        invariant
            sep@.len() > 0,
            Seq::new(out@.len(), |i: int| out@[i]@) + pieces(rest@, sep@) == pieces(s@, sep@),
        decreases rest.len(),
    {
        let ghost done = Seq::new(out@.len(), |i: int| out@[i]@);
        match find_from(rest, sep, 0) {
            Some(k) => {
                let piece = vstd::slice::slice_to_vec(vstd::slice::slice_subrange(rest, 0, k));
                let next = vstd::slice::slice_subrange(rest, k + sep.len(), rest.len());
                assert(piece@ =~= rest@.take(k as int));
                assert(next@ =~= rest@.skip(k + sep@.len()));
                out.push(piece);
                assert(Seq::new(out@.len(), |i: int| out@[i]@) =~= done.push(piece@));
                assert(done.push(piece@) + pieces(next@, sep@) =~= done + (seq![piece@] + pieces(
                    next@,
                    sep@,
                )));
                rest = next;
            },
            None => {
                let piece = vstd::slice::slice_to_vec(rest);
                out.push(piece);
                assert(Seq::new(out@.len(), |i: int| out@[i]@) =~= done.push(piece@));
                assert(done + seq![piece@] =~= done.push(piece@));
                return out;
            },
        }
    }
}

/// The first position of `c` in `s`.
pub open spec fn first_index(s: Seq<char>, c: char) -> Option<int>
    decreases s.len(),
{
    if s.len() == 0 {
        None
    } else if s[0] == c {
        Some(0)
    } else {
        match first_index(s.skip(1), c) {
            Some(k) => Some(k + 1),
            None => None,
        }
    }
}

/// What [`first_index`] says, without recursion.
pub proof fn first_index_is_first(s: Seq<char>, c: char)
    ensures
        match first_index(s, c) {
            Some(k) => 0 <= k < s.len() && s[k] == c && forall|j: int|
                0 <= j < k ==> #[trigger] s[j] != c,
            None => forall|j: int| 0 <= j < s.len() ==> #[trigger] s[j] != c,
        },
    decreases s.len(),
{
    if s.len() > 0 && s[0] != c {
        first_index_is_first(s.skip(1), c);
        let t = s.skip(1);
        assert forall|j: int| 1 <= j < s.len() implies #[trigger] s[j] == t[j - 1] by {}
    }
}

/// The first position of `c` in `s`.
pub fn find_char(s: &[char], c: char) -> (r: Option<usize>)
    ensures
        match r {
            Some(k) => first_index(s@, c) == Some(k as int) && k < s@.len(),
            None => first_index(s@, c) is None,
        },
{
    proof {
        first_index_is_first(s@, c);
    }
    let mut i: usize = 0;
    while i < s.len()
        invariant
            i <= s.len(),
            forall|j: int| 0 <= j < i ==> #[trigger] s@[j] != c,
        decreases s.len() - i,
    {
        if s[i] == c {
            proof {
                first_index_is_first(s@, c);
            }
            assert(s@[i as int] == c);
            return Some(i);
        }
        i = i + 1;
    }
    None
}

// ---------------------------------------------------------------------------
// Lists of texts
// ---------------------------------------------------------------------------

/// The first position, at `from` or after it, whose text stands before it already.
pub open spec fn first_repeated(v: Seq<Seq<char>>, from: int) -> Option<int>
    decreases v.len() - from,
{
    if from >= v.len() {
        None
    } else if v.take(from).contains(v[from]) {
        Some(from)
    } else {
        first_repeated(v, from + 1)
    }
}

/// Whether one of the first `n` texts of `v` is `wanted`.
pub fn among(v: &[String], n: usize, wanted: &str) -> (r: bool)
    requires
        n <= v@.len(),
    ensures
        r == texts(v@).take(n as int).contains(wanted@),
{
    let ghost all = texts(v@).take(n as int);
    let mut i: usize = 0;
    while i < n
        invariant
            i <= n <= v@.len(),
            all == texts(v@).take(n as int),
            forall|j: int| 0 <= j < i ==> #[trigger] all[j] != wanted@,
        decreases n - i,
    {
        if text_eq(v[i].as_str(), wanted) {
            assert(all[i as int] == wanted@);
            return true;
        }
        i = i + 1;
    }
    proof {
        if all.contains(wanted@) {
            let j = all.index_of(wanted@);
            assert(all[j] == wanted@);
        }
    }
    false
}

/// The first position whose text stands before it already.
pub fn find_repeated(v: &[String]) -> (r: Option<usize>)
    ensures
        match r {
            Some(k) => first_repeated(texts(v@), 0) == Some(k as int) && k < v@.len(),
            None => first_repeated(texts(v@), 0) is None,
        },
{
    let mut i: usize = 0;
    while i < v.len()
        invariant
            i <= v.len(),
            first_repeated(texts(v@), i as int) == first_repeated(texts(v@), 0),
        decreases v.len() - i,
    {
        if among(v, i, v[i].as_str()) {
            return Some(i);
        }
        i = i + 1;
    }
    None
}

/// A list has a position whose text stands before it already exactly if it has duplicates.
pub proof fn a_repeat_is_a_duplicate(v: Seq<Seq<char>>, from: int)
    requires
        0 <= from <= v.len(),
        v.take(from).no_duplicates(),
    ensures
        first_repeated(v, from) is None <==> v.no_duplicates(),
    decreases v.len() - from,
{
    if from >= v.len() {
        assert(v.take(from) =~= v);
    } else if v.take(from).contains(v[from]) {
        let j = v.take(from).index_of(v[from]);
        assert(v.take(from)[j] == v[from]);
        assert(v[j] == v[from] && j != from);
    } else {
        let next = v.take(from + 1);
        assert(next.no_duplicates()) by {
            assert forall|a: int, b: int|
                0 <= a < next.len() && 0 <= b < next.len() && a != b implies next[a] != next[b] by {
                if a < from && b < from {
                    assert(v.take(from)[a] != v.take(from)[b]);
                } else if a == from {
                    assert(v.take(from)[b] == next[b]);
                    assert(v.take(from).contains(next[b]));
                } else {
                    assert(v.take(from)[a] == next[a]);
                    assert(v.take(from).contains(next[a]));
                }
            }
        }
        a_repeat_is_a_duplicate(v, from + 1);
    }
}

/// The digits are the characters from '0' to '9', in hexadecimal then those from 'a' to 'f', and they
/// count for what they are.
pub proof fn digits_count_for_what_they_are(d: nat, s: Seq<char>)
    ensures
        digit_char(0) == '0' && digit_char(1) == '1' && digit_char(9) == '9',
        d < 10 ==> digit_char(d) as int == '0' as int + d,
        d < 10 ==> hex_char(d) == digit_char(d),
        hex_char(10) == 'a' && hex_char(15) == 'f',
        10 <= d < 16 ==> hex_char(d) as int == 'a' as int + d - 10,
        d < 10 ==> is_digit(digit_char(d)) && digits_value(seq![digit_char(d)]) == d,
        d < 10 ==> digits_value(s.push(digit_char(d))) == 10 * digits_value(s) + d,
        d < 10 ==> decimal(d) == seq![digit_char(d)],
        d >= 10 ==> decimal(d) == decimal(d / 10).push(digit_char(d % 10)),
{
    reveal_with_fuel(digits_value, 2);
    assert(seq![digit_char(d)].drop_last() =~= Seq::<char>::empty());
    assert(s.push(digit_char(d)).drop_last() =~= s);
}

/// The value of a hexadecimal digit.
pub open spec fn hex_digit_value(c: char) -> int {
    if '0' <= c && c <= '9' {
        c as int - '0' as int
    } else {
        c as int - 'a' as int + 10
    }
}

/// The number that hexadecimal digits spell, the highest first.
pub open spec fn hex_value(s: Seq<char>) -> int
    decreases s.len(),
{
    if s.len() == 0 {
        0
    } else {
        16 * hex_value(s.drop_last()) + hex_digit_value(s.last())
    }
}

/// A number in hexadecimal has as many digits as were asked for, and they spell it, if it has no more.
pub proof fn hex_spells_the_number(n: nat, width: nat)
    ensures
        hex(n, width).len() == width,
        n < 0x100 && width == 2 ==> hex_value(hex(n, width)) == n,
        n < 0x1_0000 && width == 4 ==> hex_value(hex(n, width)) == n,
        n < 0x1_0000_0000 && width == 8 ==> hex_value(hex(n, width)) == n,
        forall|i: int|
            0 <= i < width ==> {
                let c = #[trigger] hex(n, width)[i];
                '0' <= c && c <= '9' || 'a' <= c && c <= 'f'
            },
{
    lemma_hex(n, width);
    assert(pow16(2) == 0x100 && pow16(4) == 0x1_0000 && pow16(8) == 0x1_0000_0000) by {
        reveal_with_fuel(pow16, 9);
    }
}

spec fn pow16(width: nat) -> nat
    decreases width,
{
    if width == 0 {
        1
    } else {
        16 * pow16((width - 1) as nat)
    }
}

proof fn lemma_hex(n: nat, width: nat)
    ensures
        hex(n, width).len() == width,
        n < pow16(width) ==> hex_value(hex(n, width)) == n,
        forall|i: int|
            0 <= i < width ==> {
                let c = #[trigger] hex(n, width)[i];
                '0' <= c && c <= '9' || 'a' <= c && c <= 'f'
            },
    decreases width,
{
    if width > 0 {
        lemma_hex(n / 16, (width - 1) as nat);
        let s = hex(n, width);
        assert(s.drop_last() =~= hex(n / 16, (width - 1) as nat));
        assert(hex_digit_value(hex_char(n % 16)) == n % 16);
        assert forall|i: int| 0 <= i < width implies {
            let c = #[trigger] s[i];
            '0' <= c && c <= '9' || 'a' <= c && c <= 'f'
        } by {
            if i < width - 1 {
                assert(s[i] == hex(n / 16, (width - 1) as nat)[i]);
            }
        }
    }
}

/// Whether none of these characters is white space.
pub open spec fn is_solid(s: Seq<char>) -> bool {
    forall|i: int| 0 <= i < s.len() ==> !is_white_space(#[trigger] s[i])
}

/// A text falls into its words: white space parts them, however much of it there is, and belongs to
/// none.
pub proof fn white_space_parts_words(first: Seq<char>, space: char, second: Seq<char>)
    requires
        is_white_space(space),
    ensures
        words(first + seq![space] + second) == words(first) + words(second),
        words(seq![]).len() == 0,
        is_solid(first) && first.len() > 0 ==> words(first) == seq![first],
    decreases second.len(),
{
    let s = first + seq![space] + second;
    if is_solid(first) && first.len() > 0 {
        lemma_one_word(first);
    }
    if second.len() == 0 {
        assert(s.drop_last() =~= first);
        assert(s.last() == space);
        assert(words(first) + words(second) =~= words(first));
    } else {
        let less = second.drop_last();
        assert(s.drop_last() =~= first + seq![space] + less);
        assert(s.last() == second.last());
        white_space_parts_words(first, space, less);
        lemma_last_word(less);
        let a = words(first);
        let b = words(less);
        if second.len() == 1 {
            assert(s[s.len() - 2] == space);
            assert(less =~= Seq::<char>::empty());
            assert(a + b =~= a);
            assert(a.push(seq![second.last()]) =~= a + Seq::<Seq<char>>::empty().push(
                seq![second.last()],
            ));
        } else {
            assert(s[s.len() - 2] == second[second.len() - 2]);
            let c = second.last();
            assert((a + b).push(seq![c]) =~= a + b.push(seq![c]));
            if !is_white_space(c) && !is_white_space(second[second.len() - 2]) {
                assert(less.last() == second[second.len() - 2]);
                assert(b.len() > 0);
                assert((a + b).drop_last().push((a + b).last().push(c)) =~= a + b.drop_last().push(
                    b.last().push(c),
                ));
            }
        }
    }
}

proof fn lemma_last_word(s: Seq<char>)
    ensures
        s.len() > 0 && !is_white_space(s.last()) ==> words(s).len() > 0,
{
}

proof fn lemma_one_word(s: Seq<char>)
    requires
        is_solid(s),
        s.len() > 0,
    ensures
        words(s) == seq![s],
    decreases s.len(),
{
    let less = s.drop_last();
    assert(!is_white_space(s[s.len() - 1]));
    if s.len() == 1 {
        assert(words(less) =~= seq![]);
        assert(seq![s.last()] =~= s);
        assert(words(s) =~= seq![s]);
    } else {
        assert(is_solid(less)) by {
            assert forall|i: int| 0 <= i < less.len() implies !is_white_space(
                #[trigger] less[i],
            ) by {
                assert(less[i] == s[i]);
            }
        }
        lemma_one_word(less);
        assert(!is_white_space(s[s.len() - 2]));
        assert(seq![less].drop_last() =~= Seq::<Seq<char>>::empty());
        assert(less.push(s.last()) =~= s);
        assert(words(s) =~= seq![s]);
    }
}

/// Trimming takes away what stands before and behind, as far as it is to go, and nothing of what is
/// left between.
pub proof fn trimming_leaves_the_middle(
    before: Seq<char>,
    middle: Seq<char>,
    after: Seq<char>,
    drop: spec_fn(char) -> bool,
)
    requires
        forall|i: int| 0 <= i < before.len() ==> drop(#[trigger] before[i]),
        forall|i: int| 0 <= i < after.len() ==> drop(#[trigger] after[i]),
        middle.len() > 0 ==> !drop(middle[0]) && !drop(middle.last()),
    ensures
        trim_by(before + middle + after, drop) == middle,
        trim_start_by(before + middle, drop) == middle,
        trim_end_by(middle + after, drop) == middle,
{
    lemma_trim_start(before, middle, drop);
    lemma_trim_end(middle, after, drop);
    if middle.len() > 0 {
        lemma_trim_start(before, middle + after, drop);
        assert(before + (middle + after) =~= before + middle + after);
        assert((middle + after)[0] == middle[0]);
    } else {
        let none = Seq::<char>::empty();
        let all = before + after;
        assert forall|i: int| 0 <= i < all.len() implies drop(#[trigger] all[i]) by {
            if i < before.len() {
                assert(all[i] == before[i]);
            } else {
                assert(all[i] == after[i - before.len()]);
            }
        }
        lemma_trim_start(all, none, drop);
        lemma_trim_end(none, none, drop);
        assert(all + none =~= before + middle + after);
        assert(middle =~= none);
        assert(none + none =~= none);
    }
}

proof fn lemma_trim_start(before: Seq<char>, rest: Seq<char>, drop: spec_fn(char) -> bool)
    requires
        forall|i: int| 0 <= i < before.len() ==> drop(#[trigger] before[i]),
        rest.len() > 0 ==> !drop(rest[0]),
    ensures
        trim_start_by(before + rest, drop) == rest,
    decreases before.len(),
{
    if before.len() == 0 {
        assert(before + rest =~= rest);
    } else {
        assert(drop(before[0]));
        assert((before + rest)[0] == before[0]);
        assert((before + rest).skip(1) =~= before.skip(1) + rest);
        assert forall|i: int| 0 <= i < before.skip(1).len() implies drop(
            #[trigger] before.skip(1)[i],
        ) by {
            assert(before.skip(1)[i] == before[i + 1]);
        }
        lemma_trim_start(before.skip(1), rest, drop);
    }
}

proof fn lemma_trim_end(rest: Seq<char>, after: Seq<char>, drop: spec_fn(char) -> bool)
    requires
        forall|i: int| 0 <= i < after.len() ==> drop(#[trigger] after[i]),
        rest.len() > 0 ==> !drop(rest.last()),
    ensures
        trim_end_by(rest + after, drop) == rest,
    decreases after.len(),
{
    if after.len() == 0 {
        assert(rest + after =~= rest);
    } else {
        let less = after.drop_last();
        assert(drop(after[after.len() - 1]));
        assert((rest + after).last() == after.last());
        assert((rest + after).drop_last() =~= rest + less);
        assert forall|i: int| 0 <= i < less.len() implies drop(#[trigger] less[i]) by {
            assert(less[i] == after[i]);
        }
        lemma_trim_end(rest, less, drop);
    }
}

/// What [`first_match`] finds is an occurrence, and there is none before it; where it finds none there
/// is none.
pub proof fn a_first_match_is_first(s: Seq<char>, p: Seq<char>, from: int)
    requires
        0 <= from,
        p.len() > 0,
    ensures
        match first_match(s, p, from) {
            Some(k) => from <= k && k + p.len() <= s.len() && s.subrange(k, k + p.len()) == p
                && forall|j: int|
                from <= j < k && j + p.len() <= s.len() ==> #[trigger] s.subrange(j, j + p.len())
                    != p,
            None => forall|j: int|
                from <= j && j + p.len() <= s.len() ==> #[trigger] s.subrange(j, j + p.len()) != p,
        },
    decreases s.len() - from,
{
    if from + p.len() <= s.len() && !stands_at(s, p, from) && from < s.len() {
        a_first_match_is_first(s, p, from + 1);
    }
}

/// The pieces with the separator between them.
pub open spec fn joined(parts: Seq<Seq<char>>, sep: Seq<char>) -> Seq<char>
    decreases parts.len(),
{
    if parts.len() == 0 {
        seq![]
    } else if parts.len() == 1 {
        parts[0]
    } else {
        parts[0] + sep + joined(parts.skip(1), sep)
    }
}

/// The pieces, with the separator put back between them, are the text again, and none of them has the
/// separator in it.
pub proof fn pieces_join_to_the_text(s: Seq<char>, sep: Seq<char>)
    requires
        sep.len() > 0,
    ensures
        pieces(s, sep).len() > 0,
        joined(pieces(s, sep), sep) == s,
        forall|i: int, j: int|
            0 <= i < pieces(s, sep).len() && 0 <= j && j + sep.len() <= pieces(s, sep)[i].len()
                ==> #[trigger] pieces(s, sep)[i].subrange(j, j + sep.len()) != sep,
    decreases s.len(),
{
    a_first_match_is_first(s, sep, 0);
    let all = pieces(s, sep);
    match first_match(s, sep, 0) {
        Some(k) => {
            let rest = s.skip(k + sep.len());
            let more = pieces(rest, sep);
            pieces_join_to_the_text(rest, sep);
            assert(all =~= seq![s.take(k)] + more);
            assert(all.skip(1) =~= more);
            assert(s.subrange(k, k + sep.len()) == sep);
            assert(s =~= s.take(k) + sep + rest);
            assert forall|i: int, j: int|
                0 <= i < all.len() && 0 <= j && j + sep.len()
                    <= all[i].len() implies #[trigger] all[i].subrange(j, j + sep.len()) != sep by {
                if i == 0 {
                    assert(all[0] == s.take(k));
                    assert(s.take(k).subrange(j, j + sep.len()) =~= s.subrange(j, j + sep.len()));
                } else {
                    assert(all[i] == more[i - 1]);
                    assert(more[i - 1].subrange(j, j + sep.len()) != sep);
                }
            }
        },
        None => {
            assert(all =~= seq![s]);
        },
    }
}

/// A text has a prefix, or a suffix, exactly if it is that prefix and something behind it, or something
/// and that suffix.
pub proof fn prefixes_and_suffixes(a: Seq<char>, b: Seq<char>, s: Seq<char>)
    ensures
        has_prefix(a + b, a),
        has_suffix(a + b, b),
        has_prefix(s, a) ==> s == a + s.skip(a.len() as int),
        has_suffix(s, b) ==> s == s.take(s.len() - b.len()) + b,
{
    assert((a + b).subrange(0, a.len() as int) =~= a);
    assert((a + b).subrange(a.len() as int, (a + b).len() as int) =~= b);
    if has_prefix(s, a) {
        assert(s.subrange(0, a.len() as int) =~= a);
        assert(s =~= s.subrange(0, a.len() as int) + s.skip(a.len() as int));
    }
    if has_suffix(s, b) {
        let k = s.len() - b.len();
        assert(s =~= s.take(k) + s.subrange(k, k + b.len()));
    }
}

/// A number is read with a plus sign before it or without; a signed one with a minus sign too. Too
/// large a number is none, nor is a text with anything but digits.
pub proof fn signs_are_read(n: nat, max: nat, s: Seq<char>)
    ensures
        n <= max ==> parsed_unsigned(seq!['+'] + decimal(n), max) == Some(n),
        n > max ==> parsed_unsigned(decimal(n), max) is None,
        n <= 32767 ==> parsed_i16(decimal(n)) == Some(n as int),
        n > 32767 ==> parsed_i16(decimal(n)) is None,
        n <= 32768 ==> parsed_i16(seq!['-'] + decimal(n)) == Some(-(n as int)),
        n > 32768 ==> parsed_i16(seq!['-'] + decimal(n)) is None,
        parsed_unsigned(seq![], max) is None,
        s.len() > 0 && !('0' <= s.last() && s.last() <= '9') ==> parsed_unsigned(s, max) is None
            && parsed_i16(s) is None,
{
    decimal_spells_the_number(n);
    let d = decimal(n);
    assert(is_digit(d[0]));
    assert((seq!['+'] + d).skip(1) =~= d);
    assert((seq!['-'] + d).skip(1) =~= d);
    if s.len() > 0 && !('0' <= s.last() && s.last() <= '9') {
        let w = without_plus(s);
        if w.len() > 0 {
            assert(w[w.len() - 1] == s.last());
        }
        let m = s.skip(1);
        if m.len() > 0 {
            assert(m[m.len() - 1] == s.last());
        }
    }
}

/// A text falls into pieces at its first separator: what stands before it, and the pieces of what stands
/// behind. Without one it is one piece.
pub proof fn a_separator_parts_pieces(first: Seq<char>, sep: Seq<char>, second: Seq<char>)
    requires
        sep.len() > 0,
    ensures
        (forall|k: int|
            0 <= k < first.len() ==> #[trigger] (first + sep + second).subrange(k, k + sep.len())
                != sep) ==> pieces(first + sep + second, sep) == seq![first] + pieces(second, sep),
        (forall|k: int|
            0 <= k && k + sep.len() <= first.len() ==> #[trigger] first.subrange(k, k + sep.len())
                != sep) ==> pieces(first, sep) == seq![first],
{
    let s = first + sep + second;
    let at = first.len() as int;
    a_first_match_is_first(s, sep, 0);
    a_first_match_is_first(first, sep, 0);
    assert(s.subrange(at, at + sep.len()) =~= sep);
    assert(s.take(at) =~= first);
    assert(s.skip(at + sep.len()) =~= second);
    if forall|k: int| 0 <= k < at ==> #[trigger] s.subrange(k, k + sep.len()) != sep {
        match first_match(s, sep, 0) {
            Some(k) => {
                if k < at {
                    assert(s.subrange(k, k + sep.len()) != sep);
                }
                if k > at {
                    assert(s.subrange(at, at + sep.len()) != sep);
                }
                assert(k == at);
            },
            None => {
                assert(s.subrange(at, at + sep.len()) != sep);
            },
        }
    }
    if forall|k: int|
        0 <= k && k + sep.len() <= at ==> #[trigger] first.subrange(k, k + sep.len()) != sep {
        match first_match(first, sep, 0) {
            Some(k) => {
                assert(first.subrange(k, k + sep.len()) != sep);
            },
            None => {},
        }
    }
}

/// The first repeat is a text that stands before itself, and none before it does.
pub proof fn the_first_repeat_is_first(v: Seq<Seq<char>>, from: int)
    requires
        0 <= from,
        first_repeated(v, from) is Some,
    ensures
        ({
            let k = first_repeated(v, from)->0;
            &&& from <= k < v.len()
            &&& exists|j: int| 0 <= j < k && #[trigger] v[j] == v[k]
            &&& forall|i: int, j: int|
                from <= i < k && 0 <= j < i ==> #[trigger] v[j] != #[trigger] v[i]
        }),
    decreases v.len() - from,
{
    let k = first_repeated(v, from)->0;
    let before = v.take(from);
    if before.contains(v[from]) {
        let j = before.index_of(v[from]);
        assert(before[j] == v[j]);
    } else {
        the_first_repeat_is_first(v, from + 1);
        assert forall|i: int, j: int| from <= i < k && 0 <= j < i implies #[trigger] v[j]
            != #[trigger] v[i] by {
            if i == from {
                assert(before[j] == v[j]);
            }
        }
    }
}

/// The characters that part words: the tab, what breaks lines and pages, and the spaces.
pub proof fn what_white_space_is(c: char)
    ensures
        c == '\t' || c == '\n' || c == '\r' || c == ' ' ==> is_white_space(c),
        c as u32 <= 0x7f ==> (is_white_space(c) <==> 9 <= c as u32 <= 13 || c as u32 == 32),
        0x80 <= c as u32 <= 0xfff ==> (is_white_space(c) <==> c as u32 == 0x85 || c as u32 == 0xa0),
        0x1000 <= c as u32 <= 0x1fff ==> (is_white_space(c) <==> c as u32 == 0x1680),
        0x2000 <= c as u32 <= 0x2fff ==> (is_white_space(c) <==> c as u32 <= 0x200a || c as u32
            == 0x2028 || c as u32 == 0x2029 || c as u32 == 0x202f || c as u32 == 0x205f),
        0x3000 <= c as u32 ==> (is_white_space(c) <==> c as u32 == 0x3000),
{
}

} // verus!
