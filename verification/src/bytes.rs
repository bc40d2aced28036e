//! Little-endian byte primitives shared by the container codecs: fixed-width
//! reads and writes at a position, decimal rendering, and UTF-16LE name
//! handling.

use vstd::prelude::*;

verus! {

/// The two little-endian bytes of a `u16`.
pub open spec fn u16_le_bytes(x: u16) -> Seq<u8> {
    seq![(x % 0x100) as u8, ((x / 0x100) % 0x100) as u8]
}

/// The four little-endian bytes of a `u32`.
pub open spec fn u32_le_bytes(x: u32) -> Seq<u8> {
    seq![
        (x % 0x100) as u8,
        ((x / 0x100) % 0x100) as u8,
        ((x / 0x1_0000) % 0x100) as u8,
        ((x / 0x100_0000) % 0x100) as u8,
    ]
}

/// The eight little-endian bytes of a `u64`.
pub open spec fn u64_le_bytes(x: u64) -> Seq<u8> {
    seq![
        (x % 0x100) as u8,
        ((x / 0x100) % 0x100) as u8,
        ((x / 0x1_0000) % 0x100) as u8,
        ((x / 0x100_0000) % 0x100) as u8,
        ((x / 0x1_0000_0000) % 0x100) as u8,
        ((x / 0x100_0000_0000) % 0x100) as u8,
        ((x / 0x1_0000_0000_0000) % 0x100) as u8,
        ((x / 0x100_0000_0000_0000) % 0x100) as u8,
    ]
}

/// The `u16` stored little-endian at byte position `pos` of `d`.
#[verifier::opaque]
pub open spec fn le16_at(d: Seq<u8>, pos: int) -> u16 {
    (d[pos] + d[pos + 1] * 0x100) as u16
}

/// The `u32` stored little-endian at byte position `pos` of `d`.
#[verifier::opaque]
pub open spec fn le32_at(d: Seq<u8>, pos: int) -> u32 {
    (d[pos] + d[pos + 1] * 0x100 + d[pos + 2] * 0x1_0000 + d[pos + 3] * 0x100_0000) as u32
}

/// The `u64` stored little-endian at byte position `pos` of `d`.
#[verifier::opaque]
pub open spec fn le64_at(d: Seq<u8>, pos: int) -> u64 {
    (d[pos] + d[pos + 1] * 0x100 + d[pos + 2] * 0x1_0000 + d[pos + 3] * 0x100_0000 + d[pos + 4]
        * 0x1_0000_0000 + d[pos + 5] * 0x100_0000_0000 + d[pos + 6] * 0x1_0000_0000_0000 + d[pos
        + 7] * 0x100_0000_0000_0000) as u64
}

pub fn read_u16(d: &[u8], pos: usize) -> (r: u16)
    requires
        pos + 2 <= d@.len(),
    ensures
        r == le16_at(d@, pos as int),
{
    proof {
        reveal(le16_at);
    }
    let n = d.len();
    d[pos] as u16 + d[pos + 1] as u16 * 0x100
}

pub fn read_u32(d: &[u8], pos: usize) -> (r: u32)
    requires
        pos + 4 <= d@.len(),
    ensures
        r == le32_at(d@, pos as int),
{
    proof {
        reveal(le32_at);
    }
    let n = d.len();
    d[pos] as u32 + d[pos + 1] as u32 * 0x100 + d[pos + 2] as u32 * 0x1_0000 + d[pos + 3] as u32
        * 0x100_0000
}

pub fn read_u64(d: &[u8], pos: usize) -> (r: u64)
    requires
        pos + 8 <= d@.len(),
    ensures
        r == le64_at(d@, pos as int),
{
    proof {
        reveal(le64_at);
    }
    let n = d.len();
    d[pos] as u64 + d[pos + 1] as u64 * 0x100 + d[pos + 2] as u64 * 0x1_0000 + d[pos + 3] as u64
        * 0x100_0000 + d[pos + 4] as u64 * 0x1_0000_0000 + d[pos + 5] as u64 * 0x100_0000_0000
        + d[pos + 6] as u64 * 0x1_0000_0000_0000 + d[pos + 7] as u64 * 0x100_0000_0000_0000
}

pub fn push_u16(out: &mut Vec<u8>, v: u16)
    ensures
        final(out)@ == old(out)@ + u16_le_bytes(v),
{
    out.push((v % 0x100) as u8);
    out.push(((v / 0x100) % 0x100) as u8);
    assert(final(out)@ =~= old(out)@ + u16_le_bytes(v));
}

pub fn push_u32(out: &mut Vec<u8>, v: u32)
    ensures
        final(out)@ == old(out)@ + u32_le_bytes(v),
{
    out.push((v % 0x100) as u8);
    out.push(((v / 0x100) % 0x100) as u8);
    out.push(((v / 0x1_0000) % 0x100) as u8);
    out.push(((v / 0x100_0000) % 0x100) as u8);
    assert(final(out)@ =~= old(out)@ + u32_le_bytes(v));
}

pub fn push_u64(out: &mut Vec<u8>, v: u64)
    ensures
        final(out)@ == old(out)@ + u64_le_bytes(v),
{
    out.push((v % 0x100) as u8);
    out.push(((v / 0x100) % 0x100) as u8);
    out.push(((v / 0x1_0000) % 0x100) as u8);
    out.push(((v / 0x100_0000) % 0x100) as u8);
    out.push(((v / 0x1_0000_0000) % 0x100) as u8);
    out.push(((v / 0x100_0000_0000) % 0x100) as u8);
    out.push(((v / 0x1_0000_0000_0000) % 0x100) as u8);
    out.push(((v / 0x100_0000_0000_0000) % 0x100) as u8);
    assert(final(out)@ =~= old(out)@ + u64_le_bytes(v));
}

/// The eight little-endian bytes of a `u64`, as a vector.
pub fn u64_le_bytes_vec(v: u64) -> (r: Vec<u8>)
    ensures
        r@ == u64_le_bytes(v),
{
    let mut r: Vec<u8> = Vec::new();
    push_u64(&mut r, v);
    assert(r@ =~= u64_le_bytes(v));
    r
}

/// Reading back the bytes of a `u32` gives the value.
pub proof fn lemma_u32_le_round_trip(x: u32)
    ensures
        le32_at(u32_le_bytes(x), 0) == x,
{
    reveal(le32_at);
}

/// Reading back the bytes of a `u64` gives the value.
pub proof fn lemma_u64_le_round_trip(x: u64)
    ensures
        le64_at(u64_le_bytes(x), 0) == x,
{
    reveal(le64_at);
    assert(x % 0x100 + x / 0x100 % 0x100 * 0x100 + x / 0x1_0000 % 0x100 * 0x1_0000 + x / 0x100_0000
        % 0x100 * 0x100_0000 + x / 0x1_0000_0000 % 0x100 * 0x1_0000_0000 + x / 0x100_0000_0000
        % 0x100 * 0x100_0000_0000 + x / 0x1_0000_0000_0000 % 0x100 * 0x1_0000_0000_0000 + x
        / 0x100_0000_0000_0000 % 0x100 * 0x100_0000_0000_0000 == x) by (bit_vector);
}

/// The ASCII decimal rendering of `n`, most significant digit first.
pub open spec fn spec_dec_bytes(n: nat) -> Seq<u8>
    decreases n,
{
    if n < 10 {
        seq![(48 + n) as u8]
    } else {
        spec_dec_bytes(n / 10) + seq![(48 + n % 10) as u8]
    }
}

/// Appends the ASCII decimal rendering of `n` to `out`.
pub fn push_decimal(out: &mut Vec<u8>, n: u64)
    ensures
        final(out)@ == old(out)@ + spec_dec_bytes(n as nat),
    decreases n,
{
    if n < 10 {
        out.push(48 + n as u8);
        assert(final(out)@ =~= old(out)@ + spec_dec_bytes(n as nat));
    } else {
        push_decimal(out, n / 10);
        out.push(48 + (n % 10) as u8);
        assert(final(out)@ =~= old(out)@ + spec_dec_bytes(n as nat));
    }
}

/// The UTF-16 code units held by an even-length little-endian byte sequence.
/// A trailing odd byte is ignored, as the archive reader ignores it.
pub open spec fn spec_utf16_units(d: Seq<u8>) -> Seq<u16> {
    Seq::new((d.len() / 2) as nat, |i: int| le16_at(d, 2 * i))
}

/// Collects the UTF-16 code units of a little-endian byte sequence.
pub fn utf16_units(d: &[u8]) -> (r: Vec<u16>)
    ensures
        r@ == spec_utf16_units(d@),
{
    let mut r: Vec<u16> = Vec::new();
    let n = d.len();
    let count: usize = n / 2;
    let mut i: usize = 0;
    while i < count
        invariant
            n == d@.len(),
            count == n / 2,
            i <= count,
            r@.len() == i,
            forall|j: int| 0 <= j < i ==> r@[j] == le16_at(d@, 2 * j),
        decreases count - i,
    {
        let unit = read_u16(d, 2 * i);
        r.push(unit);
        i = i + 1;
    }
    assert(r@ =~= spec_utf16_units(d@));
    r
}

/// The characters that the UTF-16 code units decode to, or nothing when they
/// are not valid UTF-16.
pub uninterp spec fn utf16_str(units: Seq<u16>) -> Option<Seq<char>>;

/// Relies on `String::from_utf16`: whether the code units decode, and to
/// which characters, depends on the units alone; empty input decodes to the
/// empty string.
#[verifier::external_body]
pub fn utf16_to_string(units: &Vec<u16>) -> (r: Option<String>)
    ensures
        r is Some <==> utf16_str(units@) is Some,
        r is Some ==> r.unwrap()@ == utf16_str(units@).unwrap(),
        units@.len() == 0 ==> r is Some,
{
    match String::from_utf16(units.as_slice()) {
        Ok(s) => Some(s),
        Err(_) => None,
    }
}

/// Reading two bytes inside a slice of `d` reads them from `d` itself.
pub proof fn lemma_le16_at_subrange(d: Seq<u8>, a: int, b: int, pos: int)
    requires
        0 <= a <= a + pos,
        a + pos + 2 <= b <= d.len(),
    ensures
        le16_at(d.subrange(a, b), pos) == le16_at(d, a + pos),
{
    reveal(le16_at);
}

/// Reading four bytes inside a slice of `d` reads them from `d` itself.
pub proof fn lemma_le32_at_subrange(d: Seq<u8>, a: int, b: int, pos: int)
    requires
        0 <= a <= a + pos,
        a + pos + 4 <= b <= d.len(),
    ensures
        le32_at(d.subrange(a, b), pos) == le32_at(d, a + pos),
{
    reveal(le32_at);
}

/// `n` zero bytes.
pub open spec fn spec_zero_bytes(n: nat) -> Seq<u8> {
    Seq::new(n, |i: int| 0u8)
}

/// Builds `n` zero bytes.
pub fn zero_bytes(n: usize) -> (r: Vec<u8>)
    ensures
        r@ == spec_zero_bytes(n as nat),
{
    let mut r: Vec<u8> = Vec::new();
    let mut i: usize = 0;
    while i < n
        invariant
            i <= n,
            r@.len() == i,
            forall|j: int| 0 <= j < i ==> r@[j] == 0u8,
        decreases n - i,
    {
        r.push(0u8);
        i = i + 1;
    }
    assert(r@ =~= spec_zero_bytes(n as nat));
    r
}

/// Reading eight bytes inside a slice of `d` reads them from `d` itself.
pub proof fn lemma_le64_at_subrange(d: Seq<u8>, a: int, b: int, pos: int)
    requires
        0 <= a <= a + pos,
        a + pos + 8 <= b <= d.len(),
    ensures
        le64_at(d.subrange(a, b), pos) == le64_at(d, a + pos),
{
    reveal(le64_at);
}

/// Where a `u32`'s bytes sit in a sequence, reading there gives the value.
pub proof fn lemma_extract_u32(d: Seq<u8>, k: int, v: u32)
    requires
        0 <= k,
        k + 4 <= d.len(),
        d.subrange(k, k + 4) == u32_le_bytes(v),
    ensures
        le32_at(d, k) == v,
{
    lemma_le32_at_subrange(d, k, k + 4, 0);
    lemma_u32_le_round_trip(v);
}

/// Where a `u64`'s bytes sit in a sequence, reading there gives the value.
pub proof fn lemma_extract_u64(d: Seq<u8>, k: int, v: u64)
    requires
        0 <= k,
        k + 8 <= d.len(),
        d.subrange(k, k + 8) == u64_le_bytes(v),
    ensures
        le64_at(d, k) == v,
{
    lemma_le64_at_subrange(d, k, k + 8, 0);
    lemma_u64_le_round_trip(v);
}

/// Splitting a known concatenation out of `d`: the left part sits first, the
/// right part right after it.
pub proof fn lemma_concat_slices(d: Seq<u8>, pos: int, a: Seq<u8>, b: Seq<u8>)
    requires
        0 <= pos,
        pos + a.len() + b.len() <= d.len(),
        d.subrange(pos, pos + a.len() + b.len()) == a + b,
    ensures
        d.subrange(pos, pos + a.len() as int) == a,
        d.subrange(pos + a.len() as int, pos + a.len() + b.len()) == b,
{
    let s = d.subrange(pos, pos + a.len() + b.len());
    assert forall|j: int| 0 <= j < a.len() implies d[pos + j] == a[j] by {
        assert(s[j] == (a + b)[j]);
    }
    assert forall|j: int| 0 <= j < b.len() implies d[pos + a.len() + j] == b[j] by {
        assert(s[a.len() + j] == (a + b)[a.len() + j]);
    }
    assert(d.subrange(pos, pos + a.len() as int) =~= a);
    assert(d.subrange(pos + a.len() as int, pos + a.len() + b.len()) =~= b);
}

} // verus!
