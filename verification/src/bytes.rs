//! Big-endian integers in byte sequences.
use vstd::prelude::*;

verus! {

/// The `u16` at position `i` of `s`.
pub open spec fn u16_at(s: Seq<u8>, i: int) -> int {
    s[i] * 256 + s[i + 1]
}

/// The `u32` at position `i` of `s`.
pub open spec fn u32_at(s: Seq<u8>, i: int) -> int {
    u16_at(s, i) * 65536 + u16_at(s, i + 2)
}

/// The `u64` at position `i` of `s`.
pub open spec fn u64_at(s: Seq<u8>, i: int) -> int {
    u32_at(s, i) * 0x1_0000_0000 + u32_at(s, i + 4)
}

/// The two bytes of the `u16` `n`.
pub open spec fn u16_bytes(n: int) -> Seq<u8> {
    seq![(n / 256 % 256) as u8, (n % 256) as u8]
}

/// The four bytes of the `u32` `n`.
pub open spec fn u32_bytes(n: int) -> Seq<u8> {
    u16_bytes(n / 65536) + u16_bytes(n % 65536)
}

/// The eight bytes of the `u64` `n`.
pub open spec fn u64_bytes(n: int) -> Seq<u8> {
    u32_bytes(n / 0x1_0000_0000) + u32_bytes(n % 0x1_0000_0000)
}

/// The signed number that the low `bits` of two's complement `n` stand for, where `half` is
/// the weight of the sign bit.
pub open spec fn to_signed(n: int, half: int) -> int {
    if n < half {
        n
    } else {
        n - 2 * half
    }
}

/// The two's complement of `n`, where `half` is the weight of the sign bit.
pub open spec fn to_unsigned(n: int, half: int) -> int {
    if n < 0 {
        n + 2 * half
    } else {
        n
    }
}

/// A `u16` is read back from its bytes, wherever they stand.
pub proof fn u16_reads_back(s: Seq<u8>, i: int, n: int)
    requires
        0 <= i,
        i + 2 <= s.len(),
        0 <= n < 65536,
        s.subrange(i, i + 2) == u16_bytes(n),
    ensures
        u16_at(s, i) == n,
{
    let t = s.subrange(i, i + 2);
    assert(t[0] == s[i] && t[1] == s[i + 1]);
}

/// A `u32` is read back from its bytes, wherever they stand.
pub proof fn u32_reads_back(s: Seq<u8>, i: int, n: int)
    requires
        0 <= i,
        i + 4 <= s.len(),
        0 <= n < 0x1_0000_0000,
        s.subrange(i, i + 4) == u32_bytes(n),
    ensures
        u32_at(s, i) == n,
{
    let t = s.subrange(i, i + 4);
    assert(s.subrange(i, i + 2) =~= t.subrange(0, 2));
    assert(t.subrange(0, 2) =~= u16_bytes(n / 65536));
    assert(s.subrange(i + 2, i + 4) =~= t.subrange(2, 4));
    assert(t.subrange(2, 4) =~= u16_bytes(n % 65536));
    u16_reads_back(s, i, n / 65536);
    u16_reads_back(s, i + 2, n % 65536);
}

/// A `u64` is read back from its bytes, wherever they stand.
pub proof fn u64_reads_back(s: Seq<u8>, i: int, n: int)
    requires
        0 <= i,
        i + 8 <= s.len(),
        0 <= n < 0x1_0000_0000_0000_0000,
        s.subrange(i, i + 8) == u64_bytes(n),
    ensures
        u64_at(s, i) == n,
{
    let t = s.subrange(i, i + 8);
    assert(s.subrange(i, i + 4) =~= t.subrange(0, 4));
    assert(t.subrange(0, 4) =~= u32_bytes(n / 0x1_0000_0000));
    assert(s.subrange(i + 4, i + 8) =~= t.subrange(4, 8));
    assert(t.subrange(4, 8) =~= u32_bytes(n % 0x1_0000_0000));
    u32_reads_back(s, i, n / 0x1_0000_0000);
    u32_reads_back(s, i + 4, n % 0x1_0000_0000);
}

/// A signed number is read back from its two's complement.
pub proof fn a_signed_number_reads_back(n: int, half: int)
    requires
        -half <= n < half,
    ensures
        to_signed(to_unsigned(n, half), half) == n,
        0 <= to_unsigned(n, half) < 2 * half,
{
}

/// Reads the `u16` at position `i`.
pub fn read_u16(s: &[u8], i: usize) -> (r: u16)
    requires
        i + 2 <= s.len(),
    ensures
        r == u16_at(s@, i as int),
{
    s[i] as u16 * 256 + s[i + 1] as u16
}

/// Reads the `u32` at position `i`.
pub fn read_u32(s: &[u8], i: usize) -> (r: u32)
    requires
        i + 4 <= s.len(),
    ensures
        r == u32_at(s@, i as int),
{
    read_u16(s, i) as u32 * 65536 + read_u16(s, i + 2) as u32
}

/// Reads the `u64` at position `i`.
pub fn read_u64(s: &[u8], i: usize) -> (r: u64)
    requires
        i + 8 <= s.len(),
    ensures
        r == u64_at(s@, i as int),
{
    read_u32(s, i) as u64 * 0x1_0000_0000 + read_u32(s, i + 4) as u64
}

/// Appends the bytes of `n`.
pub fn push_u16(out: &mut Vec<u8>, n: u16)
    ensures
        final(out)@ == old(out)@ + u16_bytes(n as int),
{
    out.push((n / 256) as u8);
    out.push((n % 256) as u8);
    assert(out@ =~= old(out)@ + u16_bytes(n as int));
}

/// Appends the bytes of `n`.
pub fn push_u32(out: &mut Vec<u8>, n: u32)
    ensures
        final(out)@ == old(out)@ + u32_bytes(n as int),
{
    push_u16(out, (n / 65536) as u16);
    push_u16(out, (n % 65536) as u16);
    assert(out@ =~= old(out)@ + u32_bytes(n as int));
}

/// Appends the bytes of `n`.
pub fn push_u64(out: &mut Vec<u8>, n: u64)
    ensures
        final(out)@ == old(out)@ + u64_bytes(n as int),
{
    push_u32(out, (n / 0x1_0000_0000) as u32);
    push_u32(out, (n % 0x1_0000_0000) as u32);
    assert(out@ =~= old(out)@ + u64_bytes(n as int));
}

/// Appends `data`.
pub fn push_all(out: &mut Vec<u8>, data: &[u8])
    ensures
        final(out)@ == old(out)@ + data@,
{
    let ghost before = out@;
    let mut i: usize = 0;
    assert(out@ =~= before + data@.take(0));
    while i < data.len()
        invariant
            i <= data.len(),
            out@ == before + data@.take(i as int),
        decreases data.len() - i,
    {
        out.push(data[i]);
        i = i + 1;
        assert(out@ =~= before + data@.take(i as int));
    }
    assert(data@.take(i as int) =~= data@);
}

/// The `u8` with the two's complement value `n`.
pub fn i8_to_u8(n: i8) -> (r: u8)
    ensures
        r == to_unsigned(n as int, 128),
{
    if n < 0 {
        (n as i16 + 256) as u8
    } else {
        n as u8
    }
}

/// The `i8` that `n` stands for in two's complement.
pub fn u8_to_i8(n: u8) -> (r: i8)
    ensures
        r == to_signed(n as int, 128),
{
    if n < 128 {
        n as i8
    } else {
        (n as i16 - 256) as i8
    }
}

/// The `u16` with the two's complement value `n`.
pub fn i16_to_u16(n: i16) -> (r: u16)
    ensures
        r == to_unsigned(n as int, 0x8000),
{
    if n < 0 {
        (n as i32 + 0x1_0000) as u16
    } else {
        n as u16
    }
}

/// The `i16` that `n` stands for in two's complement.
pub fn u16_to_i16(n: u16) -> (r: i16)
    ensures
        r == to_signed(n as int, 0x8000),
{
    if n < 0x8000 {
        n as i16
    } else {
        (n as i32 - 0x1_0000) as i16
    }
}

/// The `u32` with the two's complement value `n`.
pub fn i32_to_u32(n: i32) -> (r: u32)
    ensures
        r == to_unsigned(n as int, 0x8000_0000),
{
    if n < 0 {
        (n as i64 + 0x1_0000_0000) as u32
    } else {
        n as u32
    }
}

/// The `i32` that `n` stands for in two's complement.
pub fn u32_to_i32(n: u32) -> (r: i32)
    ensures
        r == to_signed(n as int, 0x8000_0000),
{
    if n < 0x8000_0000 {
        n as i32
    } else {
        (n as i64 - 0x1_0000_0000) as i32
    }
}

/// The `u64` with the two's complement value `n`.
pub fn i64_to_u64(n: i64) -> (r: u64)
    ensures
        r == to_unsigned(n as int, 0x8000_0000_0000_0000),
{
    if n < 0 {
        (n as i128 + 0x1_0000_0000_0000_0000) as u64
    } else {
        n as u64
    }
}

/// The `i64` that `n` stands for in two's complement.
pub fn u64_to_i64(n: u64) -> (r: i64)
    ensures
        r == to_signed(n as int, 0x8000_0000_0000_0000),
{
    if n < 0x8000_0000_0000_0000 {
        n as i64
    } else {
        (n as i128 - 0x1_0000_0000_0000_0000) as i64
    }
}

/// The first position of `b` in `s`.
pub open spec fn first_octet(s: Seq<u8>, b: u8) -> Option<int>
    decreases s.len(),
{
    if s.len() == 0 {
        None
    } else if s[0] == b {
        Some(0)
    } else {
        match first_octet(s.skip(1), b) {
            Some(k) => Some(k + 1),
            None => None,
        }
    }
}

/// What [`first_octet`] says, without recursion.
pub proof fn first_octet_is_first(s: Seq<u8>, b: u8)
    ensures
        match first_octet(s, b) {
            Some(k) => 0 <= k < s.len() && s[k] == b && forall|j: int|
                0 <= j < k ==> #[trigger] s[j] != b,
            None => forall|j: int| 0 <= j < s.len() ==> #[trigger] s[j] != b,
        },
    decreases s.len(),
{
    if s.len() > 0 && s[0] != b {
        first_octet_is_first(s.skip(1), b);
        let t = s.skip(1);
        assert forall|j: int| 1 <= j < s.len() implies #[trigger] s[j] == t[j - 1] by {}
    }
}

/// Octets behind the first `b` do not move it.
pub proof fn first_octet_of_more(s: Seq<u8>, more: Seq<u8>, b: u8)
    requires
        first_octet(s, b) is Some,
    ensures
        first_octet(s + more, b) == first_octet(s, b),
    decreases s.len(),
{
    if s.len() > 0 && s[0] != b {
        first_octet_of_more(s.skip(1), more, b);
        assert((s + more).skip(1) =~= s.skip(1) + more);
    }
}

/// The first position of `b` in `s`.
pub fn find_octet(s: &[u8], b: u8) -> (r: Option<usize>)
    ensures
        match r {
            Some(k) => first_octet(s@, b) == Some(k as int) && k < s@.len(),
            None => first_octet(s@, b) is None,
        },
{
    proof {
        first_octet_is_first(s@, b);
    }
    let mut i: usize = 0;
    while i < s.len()
        invariant
            i <= s.len(),
            forall|j: int| 0 <= j < i ==> #[trigger] s@[j] != b,
        decreases s.len() - i,
    {
        if s[i] == b {
            proof {
                first_octet_is_first(s@, b);
            }
            assert(s@[i as int] == b);
            return Some(i);
        }
        i = i + 1;
    }
    None
}

/// The octet of the highest weight comes first: in what is read, and in what is written.
pub proof fn numbers_are_big_endian(s: Seq<u8>, i: int, n: int)
    requires
        0 <= n,
    ensures
        u16_at(s, i) == 0x100 * s[i] + s[i + 1],
        u32_at(s, i) == 0x100_0000 * s[i] + 0x1_0000 * s[i + 1] + 0x100 * s[i + 2] + s[i + 3],
        u64_at(s, i) == 0x100_0000_0000_0000 * s[i] + 0x1_0000_0000_0000 * s[i + 1]
            + 0x100_0000_0000 * s[i + 2] + 0x1_0000_0000 * s[i + 3] + 0x100_0000 * s[i + 4]
            + 0x1_0000 * s[i + 5] + 0x100 * s[i + 6] + s[i + 7],
        n < 0x1_0000 ==> u16_bytes(n).len() == 2 && 0x100 * u16_bytes(n)[0] + u16_bytes(n)[1] == n,
        n < 0x1_0000_0000 ==> u32_bytes(n).len() == 4 && 0x100_0000 * u32_bytes(n)[0] + 0x1_0000
            * u32_bytes(n)[1] + 0x100 * u32_bytes(n)[2] + u32_bytes(n)[3] == n,
{
}

/// Numbers of one octet, two or four are in two's complement: those from the middle on are negative.
pub proof fn negative_numbers_come_after_the_others(n: int)
    ensures
        0 <= n < 0x80 ==> to_signed(n, 0x80) == n,
        0x80 <= n < 0x100 ==> to_signed(n, 0x80) == n - 0x100,
        0 <= n < 0x8000 ==> to_signed(n, 0x8000) == n,
        0x8000 <= n < 0x1_0000 ==> to_signed(n, 0x8000) == n - 0x1_0000,
        0 <= n < 0x8000_0000 ==> to_signed(n, 0x8000_0000) == n,
        0x8000_0000 <= n < 0x1_0000_0000 ==> to_signed(n, 0x8000_0000) == n - 0x1_0000_0000,
        -0x80 <= n < 0 ==> to_unsigned(n, 0x80) == n + 0x100,
        -0x8000 <= n < 0 ==> to_unsigned(n, 0x8000) == n + 0x1_0000,
        -0x8000_0000 <= n < 0 ==> to_unsigned(n, 0x8000_0000) == n + 0x1_0000_0000,
{
}

} // verus!
