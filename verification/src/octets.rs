//! Masks, prefixes and little-endian lengths on plain bytes.
use vstd::prelude::*;

verus! {

/// Every byte of `data` XORed with `mask`.
pub open spec fn masked(data: Seq<u8>, mask: u8) -> Seq<u8> {
    Seq::new(data.len(), |i: int| data[i] ^ mask)
}

/// The four bytes of `n` modulo 2^32, lowest first.
#[verifier::opaque]
pub open spec fn le32(n: int) -> Seq<u8> {
    seq![
        (n % 256) as u8,
        (n / 0x100 % 256) as u8,
        (n / 0x1_0000 % 256) as u8,
        (n / 0x100_0000 % 256) as u8,
    ]
}

/// The number that four bytes stand for, lowest byte first.
pub open spec fn le32_value(s: Seq<u8>) -> int {
    s[0] + 0x100 * s[1] + 0x1_0000 * s[2] + 0x100_0000 * s[3]
}

/// Masking twice gives the bytes back.
pub proof fn law_mask_is_symmetric(data: Seq<u8>, mask: u8)
    ensures
        masked(masked(data, mask), mask) == data,
{
    assert forall|i: int| 0 <= i < data.len() implies #[trigger] masked(
        masked(data, mask),
        mask,
    )[i] == data[i] by {
        let x = data[i];
        assert((x ^ mask) ^ mask == x) by (bit_vector);
    }
    assert(masked(masked(data, mask), mask) =~= data);
}

/// A masked byte and the byte it was made of differ by exactly the mask.
pub proof fn law_mask_is_the_difference(data: Seq<u8>, mask: u8)
    ensures
        masked(data, mask).len() == data.len(),
        forall|i: int| 0 <= i < data.len() ==> data[i] ^ #[trigger] masked(data, mask)[i] == mask,
{
    assert forall|i: int| 0 <= i < data.len() implies data[i] ^ #[trigger] masked(data, mask)[i]
        == mask by {
        let x = data[i];
        assert(x ^ (x ^ mask) == mask) by (bit_vector);
    }
}

/// The four bytes of a length are its digits to the base 256, lowest first; those of its quotient
/// by 256 are the same bytes, one place lower.
pub proof fn law_le32_digits(n: int)
    ensures
        le32(n).len() == 4,
        le32(n)[0] == n % 256,
        le32(n)[1] == n / 0x100 % 256,
        le32(n)[2] == n / 0x1_0000 % 256,
        le32(n)[3] == n / 0x100_0000 % 256,
        forall|j: int| 0 <= j < 3 ==> #[trigger] le32(n / 256)[j] == le32(n)[j + 1],
{
    reveal(le32);
    assert(n / 256 / 0x100 == n / 0x1_0000);
    assert(n / 256 / 0x1_0000 == n / 0x100_0000);
}

/// Four bytes stand for the sum of the bytes, each weighted by the power of 256 of its place: each
/// byte more counts its place's weight more.
pub proof fn law_le32_value_weights(s: Seq<u8>, t: Seq<u8>)
    requires
        s.len() == 4,
        t.len() == 4,
    ensures
        le32_value(s) == s[0] + 0x100 * s[1] + 0x1_0000 * s[2] + 0x100_0000 * s[3],
        le32_value(t) - le32_value(s) == (t[0] - s[0]) + 0x100 * (t[1] - s[1]) + 0x1_0000 * (t[2]
            - s[2]) + 0x100_0000 * (t[3] - s[3]),
{
}

/// Reading four little-endian bytes gives back the number that was written, if it fits.
pub proof fn law_le32_round_trip(n: int)
    requires
        0 <= n < 0x1_0000_0000,
    ensures
        le32(n).len() == 4,
        le32_value(le32(n)) == n,
{
    reveal(le32);
}

/// Writing the number that four little-endian bytes stand for gives the bytes back.
pub proof fn law_le32_value_round_trip(s: Seq<u8>)
    requires
        s.len() == 4,
    ensures
        0 <= le32_value(s) < 0x1_0000_0000,
        le32(le32_value(s)) == s,
{
    reveal(le32);
    let n = le32_value(s);
    let (a, b, c, d) = (s[0] as int, s[1] as int, s[2] as int, s[3] as int);
    let n1 = b + 0x100 * c + 0x1_0000 * d;
    let n2 = c + 0x100 * d;
    assert(n == a + 0x100 * n1);
    assert(n % 256 == a && n / 0x100 == n1);
    assert(n1 == b + 0x100 * n2);
    assert(n1 % 256 == b && n / 0x1_0000 == n2);
    assert(n2 % 256 == c && n / 0x100_0000 == d);
    assert(le32(n) =~= s);
}

/// XORs every byte with `mask`.
pub(crate) fn mask_bytes(data: &[u8], mask: u8) -> (out: Vec<u8>)
    ensures
        out@ == masked(data@, mask),
{
    let mut out: Vec<u8> = Vec::with_capacity(data.len());
    let mut i: usize = 0;
    while i < data.len()
        invariant
            i <= data@.len(),
            out@ == masked(data@, mask).take(i as int),
        decreases data@.len() - i,
    {
        out.push(data[i] ^ mask);
        i = i + 1;
        assert(out@ =~= masked(data@, mask).take(i as int));
    }
    assert(out@ =~= masked(data@, mask));
    out
}

/// Whether `data` begins with `prefix`.
pub(crate) fn starts_with(data: &[u8], prefix: &[u8]) -> (yes: bool)
    ensures
        yes == prefix@.is_prefix_of(data@),
{
    if data.len() < prefix.len() {
        return false;
    }
    let mut i: usize = 0;
    while i < prefix.len()
        invariant
            i <= prefix@.len() <= data@.len(),
            forall|j: int| 0 <= j < i ==> prefix@[j] == data@[j],
        decreases prefix@.len() - i,
    {
        if data[i] != prefix[i] {
            assert(data@.subrange(0, prefix@.len() as int)[i as int] == data@[i as int]);
            return false;
        }
        i = i + 1;
    }
    assert(prefix@ =~= data@.subrange(0, prefix@.len() as int));
    true
}

/// What follows `magic` in `data`, if `data` begins with it.
pub open spec fn after_magic(data: Seq<u8>, magic: Seq<u8>) -> Option<Seq<u8>> {
    if magic.is_prefix_of(data) {
        Some(data.skip(magic.len() as int))
    } else {
        None
    }
}

/// Checks for `magic` and removes it.
pub(crate) fn strip_magic<'a>(data: &'a [u8], magic: &[u8]) -> (rest: Option<&'a [u8]>)
    ensures
        match rest {
            Some(bytes) => after_magic(data@, magic@) == Some(bytes@),
            None => after_magic(data@, magic@) is None,
        },
{
    if starts_with(data, magic) {
        Some(&data[magic.len()..data.len()])
    } else {
        None
    }
}

/// Appends `bytes` to `out`.
pub(crate) fn append_bytes(out: &mut Vec<u8>, bytes: &[u8])
    ensures
        final(out)@ == old(out)@ + bytes@,
{
    let ghost before = out@;
    out.extend_from_slice(bytes);
    assert(out@ =~= before + bytes@);
}

/// Appends the length `n` as four little-endian bytes.
pub(crate) fn append_le32(out: &mut Vec<u8>, n: usize)
    ensures
        final(out)@ == old(out)@ + le32(n as int),
        final(out)@.len() == old(out)@.len() + 4,
        final(out)@[old(out)@.len() as int] == n as int % 256,
        final(out)@[(old(out)@.len() + 1) as int] == n as int / 0x100 % 256,
        final(out)@[(old(out)@.len() + 2) as int] == n as int / 0x1_0000 % 256,
        final(out)@[(old(out)@.len() + 3) as int] == n as int / 0x100_0000 % 256,
{
    reveal(le32);
    let ghost before = out@;
    out.push((n % 256) as u8);
    out.push((n / 0x100 % 256) as u8);
    out.push((n / 0x1_0000 % 256) as u8);
    out.push((n / 0x100_0000 % 256) as u8);
    assert(out@ =~= before + le32(n as int));
}

/// Reads four little-endian bytes.
pub(crate) fn read_le32(data: &[u8]) -> (n: u32)
    requires
        data@.len() == 4,
    ensures
        n as int == le32_value(data@),
        n as int == data@[0] + 0x100 * data@[1] + 0x1_0000 * data@[2] + 0x100_0000 * data@[3],
{
    data[0] as u32 + 0x100 * (data[1] as u32) + 0x1_0000 * (data[2] as u32) + 0x100_0000 * (
    data[3] as u32)
}

/// What is found behind a magic is what the data holds after it, all of it: `rest` is found in
/// `data` exactly where `data` is the magic followed by `rest`.
pub proof fn law_magic_is_followed_by_the_rest(data: Seq<u8>, magic: Seq<u8>, rest: Seq<u8>)
    ensures
        after_magic(data, magic) == Some(rest) <==> data == magic + rest,
        after_magic(data, magic) is None <==> (magic.len() > data.len() || exists|i: int|
            0 <= i < magic.len() && magic[i] != #[trigger] data[i]),
{
    if magic.is_prefix_of(data) {
        assert(data =~= magic + data.skip(magic.len() as int));
        assert forall|i: int| 0 <= i < magic.len() implies magic[i] == #[trigger] data[i] by {
            assert(magic[i] == data.subrange(0, magic.len() as int)[i]);
        }
    } else if magic.len() <= data.len() {
        if forall|i: int| 0 <= i < magic.len() ==> magic[i] == #[trigger] data[i] {
            assert(magic =~= data.subrange(0, magic.len() as int));
        }
    }
    if data == magic + rest {
        assert(magic =~= data.subrange(0, magic.len() as int));
        assert(data.skip(magic.len() as int) =~= rest);
    }
}

} // verus!
