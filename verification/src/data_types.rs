use vstd::prelude::*;
use vstd::arithmetic::div_mod::{lemma_mod_breakdown, lemma_fundamental_div_mod_converse};
use vstd::utf8::{decode_utf8, encode_utf8, valid_utf8, encode_utf8_decode_utf8, encode_utf8_valid_utf8};
use vstd::slice::{slice_subrange, slice_to_vec};
use crate::buffer::BufferReader;

verus! {

/// Why a value could not be read from a byte buffer.
#[derive(Debug, Clone, Copy, PartialEq, Eq, Structural)]
pub enum DataError {
    /// A VarInt ran over the five bytes that an `i32` can take.
    VarIntTooBig,
    /// The buffer ends before the value does.
    NotEnoughBytes,
    /// A length prefix is negative.
    NegativeLength,
}

/// A value of one of the protocol's data types.
pub enum Data {
    /// A variable-length signed 32-bit integer.
    VarInt(i32),
    /// A length-prefixed UTF-8 string.
    String(String),
    /// A big-endian unsigned 16-bit integer.
    UnsignedShort(u16),
}

/// The seven value bits of a VarInt byte.
pub const SEGMENT_BITS: u8 = 0x7F;

/// The bit of a VarInt byte that says another byte follows.
pub const CONTINUE_BIT: u8 = 0x80;

/// Unsigned LEB128 encoding of `v`: seven bits per byte, least significant
/// group first, the high bit set on every byte but the last.
pub open spec fn leb128(v: nat) -> Seq<u8>
    decreases v,
{
    if v < 128 {
        seq![v as u8]
    } else {
        seq![(v % 128 + 128) as u8] + leb128(v / 128)
    }
}

/// The bytes of the VarInt that encodes `value`: its two's-complement bit
/// pattern, read as unsigned, in LEB128.
pub open spec fn varint_bytes(value: i32) -> Seq<u8> {
    leb128((value as u32) as nat)
}

/// Where the VarInt at index `k` of `s` and after ends (the count of bytes it
/// takes from the start of `s`), scanning at most five bytes.
pub open spec fn varint_extent_from(s: Seq<u8>, k: nat) -> Result<nat, DataError>
    decreases 5 - k,
{
    if k >= s.len() {
        Err(DataError::NotEnoughBytes)
    } else if s[k as int] < 128 {
        Ok(k + 1)
    } else if k + 1 >= 5 {
        Err(DataError::VarIntTooBig)
    } else {
        varint_extent_from(s, k + 1)
    }
}

/// The count of bytes of the VarInt at the front of `s`, or why there is none.
pub open spec fn varint_extent(s: Seq<u8>) -> Result<nat, DataError> {
    varint_extent_from(s, 0)
}

/// Weight of the `k`-th seven-bit group: 128 to the power `k`.
pub open spec fn group_weight(k: nat) -> nat
    decreases k,
{
    if k == 0 {
        1
    } else {
        128 * group_weight((k - 1) as nat)
    }
}

/// The number that the low seven bits of the first `n` bytes of `s` spell,
/// least significant group first.
pub open spec fn groups_value(s: Seq<u8>, n: nat) -> nat
    decreases n,
{
    if n == 0 {
        0
    } else {
        groups_value(s, (n - 1) as nat) + (s[n - 1] % 128) as nat * group_weight((n - 1) as nat)
    }
}

/// What reading a VarInt from the front of `s` gives: the value (its low 32
/// bits, read as an `i32`) and the count of bytes it took, or the error.
pub open spec fn varint_decode(s: Seq<u8>) -> Result<(i32, nat), DataError> {
    match varint_extent(s) {
        Ok(n) => Ok((((groups_value(s, n) % 0x1_0000_0000) as u32) as i32, n)),
        Err(e) => Err(e),
    }
}

proof fn lemma_extent_from_bound(s: Seq<u8>, k: nat)
    requires
        k < 5,
    ensures
        varint_extent_from(s, k) matches Ok(n) ==> k < n <= s.len() && n <= 5,
    decreases 5 - k,
{
    if k < s.len() && s[k as int] >= 128 && k + 1 < 5 {
        lemma_extent_from_bound(s, k + 1);
    }
}

/// A VarInt takes between one and five bytes, and no more than there are.
pub proof fn lemma_varint_extent_bound(s: Seq<u8>)
    ensures
        varint_decode(s) matches Ok((v, n)) ==> 1 <= n <= s.len() && n <= 5,
{
    lemma_extent_from_bound(s, 0);
}

/// Encodes `value` as a VarInt.
pub fn create_varint(value: i32) -> (bytes: Vec<u8>)
    ensures
        bytes@ == varint_bytes(value),
{
    let mut bytes: Vec<u8> = Vec::new();
    let mut value: u32 = value as u32;
    let ghost whole: nat = value as nat;
    loop
        invariant_except_break
            bytes@ + leb128(value as nat) == leb128(whole),
        ensures
            bytes@ == leb128(whole),
        decreases value,
    {
        let ghost before = value;
        let mut byte: u8 = (value & SEGMENT_BITS as u32) as u8;
        assert(((before & 0x7f) as u8) as nat == before % 128 && before >> 7 == before / 128)
            by (bit_vector);
        value >>= 7;
        if value != 0 {
            assert((byte | 0x80) == byte + 128) by (bit_vector)
                requires byte < 128;
            byte |= CONTINUE_BIT;
        }
        bytes.push(byte);
        if value == 0 {
            assert(bytes@ == leb128(whole)) by {
                assert(leb128(before as nat) == seq![byte]);
                assert(bytes@ =~= (bytes@.drop_last() + seq![byte]));
            }
            break;
        }
        assert(leb128(before as nat) == seq![byte] + leb128(value as nat));
        assert(bytes@ + leb128(value as nat) =~= (bytes@.drop_last() + seq![byte]) + leb128(value as nat));
    }
    bytes
}


proof fn lemma_group_weights()
    ensures
        group_weight(0) == 1,
        group_weight(1) == 128,
        group_weight(2) == 16384,
        group_weight(3) == 2097152,
        group_weight(4) == 268435456,
{
    reveal_with_fuel(group_weight, 5);
}

proof fn lemma_groups_value_bound(s: Seq<u8>, n: nat)
    ensures
        groups_value(s, n) < group_weight(n),
    decreases n,
{
    if n > 0 {
        let m = (n - 1) as nat;
        lemma_groups_value_bound(s, m);
        let x = (s[m as int] % 128) as nat;
        assert(groups_value(s, m) + x * group_weight(m) < 128 * group_weight(m)) by (nonlinear_arith)
            requires
                groups_value(s, m) < group_weight(m),
                x <= 127,
        ;
    }
}

/// Or-ing the `k`-th seven-bit group `x` into a `u32` accumulator that holds
/// fewer than `7 * k` bits adds `x * 128^k` modulo 2^32.
proof fn lemma_or_group(acc: u32, x: u32, k: u32)
    requires
        k < 5,
        x < 128,
        (acc as nat) < group_weight(k as nat),
    ensures
        (acc | (x << (7 * k))) as nat == (acc as nat + x as nat * group_weight(k as nat)) % 0x1_0000_0000,
{
    lemma_group_weights();
    let w = group_weight(k as nat);
    let sum: nat = acc as nat + x as nat * w;
    if k == 0 {
        assert(acc == 0);
        assert(0u32 | (x << 0u32) == x) by (bit_vector);
        assert(w == 1);
        assert(sum == x) by (nonlinear_arith)
            requires
                w == 1,
                acc == 0,
                sum == acc as nat + x as nat * w,
        ;
    } else if k == 1 {
        assert(w == 128);
        assert((acc | (x << 7u32)) == acc + x * 128) by (bit_vector)
            requires acc < 128, x < 128;
        assert(sum == acc + x * 128);
    } else if k == 2 {
        assert(w == 16384);
        assert((acc | (x << 14u32)) == acc + x * 16384) by (bit_vector)
            requires acc < 16384, x < 128;
        assert(sum == acc + x * 16384);
    } else if k == 3 {
        assert(w == 2097152);
        assert((acc | (x << 21u32)) == acc + x * 2097152) by (bit_vector)
            requires acc < 2097152, x < 128;
        assert(sum == acc + x * 2097152);
    } else {
        assert(w == 268435456);
        assert((acc | (x << 28u32)) as int == (acc as int + x as int * 268435456) % 0x1_0000_0000)
            by (bit_vector)
            requires acc < 268435456, x < 128;
        assert(sum == acc + x * 268435456);
    }
    assert(sum < 0x1_0000_0000 ==> sum % 0x1_0000_0000 == sum);
}

proof fn lemma_leb128_len(u: nat, n: nat)
    requires
        u < group_weight(n + 1),
    ensures
        1 <= leb128(u).len() <= n + 1,
    decreases u,
{
    if u >= 128 {
        if n == 0 {
            reveal_with_fuel(group_weight, 2);
        } else {
            let m = (n - 1) as nat;
            assert(u / 128 < group_weight(m + 1)) by (nonlinear_arith)
                requires
                    u < group_weight(n + 1),
                    group_weight(n + 1) == 128 * group_weight(m + 1),
            ;
            lemma_leb128_len(u / 128, m);
        }
    }
}

/// The LEB128 bytes of `u`, found at index `k` of `s` with `k` plus their
/// count at most five, make the VarInt scan from `k` stop right after them,
/// and add `u * 128^k` to the value of the groups before `k`.
proof fn lemma_leb128_scan(u: nat, s: Seq<u8>, k: nat)
    requires
        k + leb128(u).len() <= 5,
        k + leb128(u).len() <= s.len(),
        s.subrange(k as int, k + leb128(u).len() as int) == leb128(u),
    ensures
        varint_extent_from(s, k) == Ok::<nat, DataError>(k + leb128(u).len()),
        groups_value(s, k + leb128(u).len()) == groups_value(s, k) + u * group_weight(k),
    decreases u,
{
    let e = leb128(u);
    assert(s[k as int] == e[0]);
    if u < 128 {
        assert(groups_value(s, k + 1) == groups_value(s, k) + (s[k as int] % 128) as nat * group_weight(k));
    } else {
        let t = leb128(u / 128);
        assert(e.len() == 1 + t.len());
        assert(s.subrange(k + 1 as int, k + 1 + t.len() as int) =~= t) by {
            assert forall|j: int| 0 <= j < t.len() implies s.subrange(k + 1 as int, k + 1 + t.len() as int)[j] == t[j] by {
                assert(s.subrange(k as int, k + e.len() as int)[j + 1] == e[j + 1]);
            }
        }
        lemma_leb128_scan(u / 128, s, k + 1);
        assert(groups_value(s, k + 1) == groups_value(s, k) + (u % 128) * group_weight(k));
        assert(group_weight(k + 1) == 128 * group_weight(k));
        assert(groups_value(s, k) + (u % 128) * group_weight(k) + (u / 128) * group_weight(k + 1)
            == groups_value(s, k) + u * group_weight(k)) by (nonlinear_arith)
            requires
                group_weight(k + 1) == 128 * group_weight(k),
        ;
    }
}

/// Reading back what `create_varint` wrote gives the value that was written
/// and takes exactly its bytes, whatever follows them; the encoding is one to
/// five bytes long.
pub proof fn varint_round_trip(value: i32, rest: Seq<u8>)
    ensures
        1 <= varint_bytes(value).len() <= 5,
        varint_decode(varint_bytes(value) + rest)
            == Ok::<(i32, nat), DataError>((value, varint_bytes(value).len())),
{
    let u = (value as u32) as nat;
    let e = leb128(u);
    let s = e + rest;
    reveal_with_fuel(group_weight, 6);
    lemma_leb128_len(u, 4);
    assert(s.subrange(0, e.len() as int) =~= e);
    lemma_leb128_scan(u, s, 0);
    assert(varint_extent(s) == Ok::<nat, DataError>(e.len()));
    assert(groups_value(s, 0) == 0);
    assert(group_weight(0) == 1);
    assert(groups_value(s, 0 + e.len()) == 0 + u * 1);
    assert(groups_value(s, e.len()) == u);
    assert(u < 0x1_0000_0000);
    assert((u % 0x1_0000_0000) as u32 == value as u32);
    assert((value as u32) as i32 == value) by (bit_vector);
}

/// Drops the first `n` bytes of `bytes`.
fn drain_front(bytes: &mut Vec<u8>, n: usize)
    requires
        n <= old(bytes)@.len(),
    ensures
        final(bytes)@ == old(bytes)@.skip(n as int),
{
    let rest = bytes.split_off(n);
    *bytes = rest;
}

/// Reads the VarInt at the front of `bytes` without consuming anything:
/// its value and the count of bytes it takes.
pub(crate) fn scan_varint(bytes: &[u8]) -> (r: Result<(i32, usize), DataError>)
    ensures
        match varint_decode(bytes@) {
            Ok((v, n)) => r == Ok::<(i32, usize), DataError>((v, n as usize)),
            Err(e) => r == Err::<(i32, usize), DataError>(e),
        },
{
    let ghost s = bytes@;
    let mut value: u32 = 0;
    let mut position: u32 = 0;
    let mut i: usize = 0;
    proof {
        lemma_group_weights();
    }
    loop
        invariant_except_break
            i < 5,
            position == 7 * i,
            bytes@ == s,
            varint_extent(s) == varint_extent_from(s, i as nat),
            groups_value(s, i as nat) < group_weight(i as nat),
            value as nat == groups_value(s, i as nat),
        ensures
            varint_extent(s) == Ok::<nat, DataError>(i as nat),
            value as nat == groups_value(s, i as nat) % 0x1_0000_0000,
        decreases 5 - i,
    {
        if i >= bytes.len() {
            return Err(DataError::NotEnoughBytes);
        }
        let current_byte = bytes[i];
        let group: u32 = (current_byte & SEGMENT_BITS) as u32;
        proof {
            assert((current_byte & 0x7f) as nat == current_byte % 128) by (bit_vector);
            assert((current_byte & 0x80 == 0) == (current_byte < 128)) by (bit_vector);
            lemma_or_group(value, group, i as u32);
            lemma_groups_value_bound(s, (i + 1) as nat);
        }
        value = value | (group << position);
        if current_byte & CONTINUE_BIT == 0 {
            i += 1;
            break;
        }
        position += 7;
        i += 1;
        if position >= 32 {
            return Err(DataError::VarIntTooBig);
        }
        proof {
            assert(value as nat == groups_value(s, i as nat) % 0x1_0000_0000);
            assert(group_weight(i as nat) <= 268435456) by {
                lemma_group_weights();
                assert(i == 1 || i == 2 || i == 3 || i == 4);
            }
            assert(groups_value(s, i as nat) < 0x1_0000_0000);
        }
    }
    Ok((value as i32, i))
}

/// Reads a VarInt from the front of `bytes` and removes its bytes; on an
/// error `bytes` is left as it was.
pub fn read_varint(bytes: &mut Vec<u8>) -> (r: Result<i32, DataError>)
    ensures
        match varint_decode(old(bytes)@) {
            Ok((v, n)) => r == Ok::<i32, DataError>(v) && final(bytes)@ == old(bytes)@.skip(n as int),
            Err(e) => r == Err::<i32, DataError>(e) && final(bytes)@ == old(bytes)@,
        },
{
    proof {
        lemma_varint_extent_bound(bytes@);
    }
    match scan_varint(bytes.as_slice()) {
        Ok((value, n)) => {
            drain_front(bytes, n);
            Ok(value)
        },
        Err(e) => Err(e),
    }
}

/// 256 to the power `k`: the weight of byte `k` of a little-endian number.
pub open spec fn byte_weight(k: nat) -> nat
    decreases k,
{
    if k == 0 {
        1
    } else {
        256 * byte_weight((k - 1) as nat)
    }
}

/// The `n` low bytes of `v`, least significant first.
pub open spec fn le_bytes(v: nat, n: nat) -> Seq<u8> {
    Seq::new(n, |i: int| ((v / byte_weight(i as nat)) % 256) as u8)
}

/// The number that the bytes of `s` spell, least significant first.
pub open spec fn le_value(s: Seq<u8>) -> nat
    decreases s.len(),
{
    if s.len() == 0 {
        0
    } else {
        le_value(s.drop_last()) + s.last() as nat * byte_weight((s.len() - 1) as nat)
    }
}

/// The two bytes of `v`, most significant first.
pub open spec fn be_bytes_u16(v: u16) -> Seq<u8> {
    seq![(v / 256) as u8, (v % 256) as u8]
}

/// The number that the first two bytes of `s` spell, most significant first.
pub open spec fn be_value_u16(s: Seq<u8>) -> u16 {
    (s[0] as nat * 256 + s[1] as nat) as u16
}

pub(crate) proof fn lemma_byte_weights()
    ensures
        byte_weight(0) == 1,
        byte_weight(1) == 0x100,
        byte_weight(2) == 0x1_0000,
        byte_weight(3) == 0x100_0000,
        byte_weight(4) == 0x1_0000_0000,
        byte_weight(5) == 0x100_0000_0000,
        byte_weight(6) == 0x1_0000_0000_0000,
        byte_weight(7) == 0x100_0000_0000_0000,
        byte_weight(8) == 0x1_0000_0000_0000_0000,
{
    reveal_with_fuel(byte_weight, 9);
}

/// Shifting right by `8 * k` bits divides by `256^k`.
proof fn lemma_shift_bytes(v: u64, k: u64)
    requires
        k < 8,
    ensures
        (v >> (8 * k)) as nat == v as nat / byte_weight(k as nat),
{
    lemma_byte_weights();
    if k == 0 {
        assert(v >> 0u64 == v) by (bit_vector);
    } else if k == 1 {
        assert(v >> 8u64 == v / 0x100) by (bit_vector);
    } else if k == 2 {
        assert(v >> 16u64 == v / 0x1_0000) by (bit_vector);
    } else if k == 3 {
        assert(v >> 24u64 == v / 0x100_0000) by (bit_vector);
    } else if k == 4 {
        assert(v >> 32u64 == v / 0x1_0000_0000) by (bit_vector);
    } else if k == 5 {
        assert(v >> 40u64 == v / 0x100_0000_0000) by (bit_vector);
    } else if k == 6 {
        assert(v >> 48u64 == v / 0x1_0000_0000_0000) by (bit_vector);
    } else {
        assert(v >> 56u64 == v / 0x100_0000_0000_0000) by (bit_vector);
    }
}

/// Or-ing byte `b` in at byte position `k` of an accumulator that holds
/// fewer than `8 * k` bits adds `b * 256^k`.
proof fn lemma_or_byte(acc: u64, b: u64, k: u64)
    requires
        k < 8,
        b < 256,
        (acc as nat) < byte_weight(k as nat),
    ensures
        (acc | (b << (8 * k))) as nat == acc as nat + b as nat * byte_weight(k as nat),
{
    lemma_byte_weights();
    if k == 0 {
        assert(acc == 0);
        assert(0u64 | (b << 0u64) == b) by (bit_vector);
    } else if k == 1 {
        assert((acc | (b << 8u64)) == acc + b * 0x100) by (bit_vector)
            requires acc < 0x100, b < 256;
    } else if k == 2 {
        assert((acc | (b << 16u64)) == acc + b * 0x1_0000) by (bit_vector)
            requires acc < 0x1_0000, b < 256;
    } else if k == 3 {
        assert((acc | (b << 24u64)) == acc + b * 0x100_0000) by (bit_vector)
            requires acc < 0x100_0000, b < 256;
    } else if k == 4 {
        assert((acc | (b << 32u64)) == acc + b * 0x1_0000_0000) by (bit_vector)
            requires acc < 0x1_0000_0000, b < 256;
    } else if k == 5 {
        assert((acc | (b << 40u64)) == acc + b * 0x100_0000_0000) by (bit_vector)
            requires acc < 0x100_0000_0000, b < 256;
    } else if k == 6 {
        assert((acc | (b << 48u64)) == acc + b * 0x1_0000_0000_0000) by (bit_vector)
            requires acc < 0x1_0000_0000_0000, b < 256;
    } else {
        assert((acc | (b << 56u64)) as int == acc as int + b as int * 0x100_0000_0000_0000) by (bit_vector)
            requires acc < 0x100_0000_0000_0000, b < 256;
    }
}

pub(crate) proof fn lemma_le_value_bound(s: Seq<u8>)
    ensures
        le_value(s) < byte_weight(s.len()),
    decreases s.len(),
{
    if s.len() > 0 {
        let m = (s.len() - 1) as nat;
        lemma_le_value_bound(s.drop_last());
        assert(le_value(s.drop_last()) + s.last() as nat * byte_weight(m) < 256 * byte_weight(m))
            by (nonlinear_arith)
            requires
                le_value(s.drop_last()) < byte_weight(m),
                s.last() <= 255,
        ;
    }
}

/// Reading `n` little-endian bytes of `v` gives `v` modulo `256^n`.
proof fn lemma_le_round_trip(v: nat, n: nat)
    ensures
        le_value(le_bytes(v, n)) == v % byte_weight(n),
    decreases n,
{
    if n == 0 {
        assert(le_bytes(v, 0) =~= Seq::<u8>::empty());
    } else {
        let m = (n - 1) as nat;
        assert(le_bytes(v, n).drop_last() =~= le_bytes(v, m));
        lemma_le_round_trip(v, m);
        assert(byte_weight(m) > 0) by {
            lemma_weight_positive(m);
        }
        lemma_mod_breakdown(v as int, byte_weight(m) as int, 256);
        let q = (v / byte_weight(m)) % 256;
        assert(le_bytes(v, n).last() as nat == q);
        assert(le_value(le_bytes(v, n)) == v % byte_weight(m) + q * byte_weight(m));
        assert(q * byte_weight(m) == byte_weight(m) * q) by (nonlinear_arith);
        assert(byte_weight(m) * 256 == byte_weight(n)) by (nonlinear_arith)
            requires byte_weight(n) == 256 * byte_weight(m);
    }
}

proof fn lemma_weight_positive(k: nat)
    ensures
        byte_weight(k) > 0,
    decreases k,
{
    if k > 0 {
        lemma_weight_positive((k - 1) as nat);
    }
}

/// Encodes `value` as eight bytes, least significant first.
pub fn create_long(value: u64) -> (bytes: Vec<u8>)
    ensures
        bytes@ == le_bytes(value as nat, 8),
{
    let mut bytes: Vec<u8> = Vec::new();
    for i in 0..8u64
        invariant
            bytes@ == le_bytes(value as nat, i as nat),
    {
        proof {
            lemma_shift_bytes(value, i);
            assert(((value >> (8 * i)) as u8) as nat == (value >> (8 * i)) % 256) by (bit_vector);
        }
        bytes.push((value >> (i * 8)) as u8);
        assert(bytes@ =~= le_bytes(value as nat, (i + 1) as nat));
    }
    bytes
}

/// Encodes `value` as two bytes, most significant first.
pub fn create_unsigned_short(value: u16) -> (bytes: Vec<u8>)
    ensures
        bytes@ == be_bytes_u16(value),
{
    let mut bytes: Vec<u8> = Vec::new();
    assert((value >> 8) == value / 256 && (value as u8) as nat == value % 256) by (bit_vector);
    bytes.push((value >> 8) as u8);
    bytes.push(value as u8);
    assert(bytes@ =~= be_bytes_u16(value));
    bytes
}

/// Reads an eight-byte little-endian number from the front of `bytes` and
/// removes its bytes; with fewer than eight bytes `bytes` is left as it was.
pub fn read_long(bytes: &mut Vec<u8>) -> (r: Result<u64, DataError>)
    ensures
        old(bytes)@.len() < 8 ==> r == Err::<u64, DataError>(DataError::NotEnoughBytes)
            && final(bytes)@ == old(bytes)@,
        old(bytes)@.len() >= 8 ==> r == Ok::<u64, DataError>(le_value(old(bytes)@.take(8)) as u64)
            && final(bytes)@ == old(bytes)@.skip(8),
{
    if bytes.len() < 8 {
        return Err(DataError::NotEnoughBytes);
    }
    let ghost s = bytes@;
    let mut value = 0u64;
    for i in 0..8u64
        invariant
            bytes@ == s,
            s.len() >= 8,
            value as nat == le_value(s.take(i as int)),
    {
        proof {
            assert(s.take(i + 1).drop_last() =~= s.take(i as int));
            lemma_le_value_bound(s.take(i as int));
            lemma_or_byte(value, s[i as int] as u64, i);
        }
        value |= (bytes[i as usize] as u64) << (i * 8);
    }
    drain_front(bytes, 8);
    Ok(value)
}

/// Reads a two-byte big-endian number from the front of `bytes` and removes
/// its bytes; with fewer than two bytes `bytes` is left as it was.
pub fn read_unsigned_short(bytes: &mut Vec<u8>) -> (r: Result<u16, DataError>)
    ensures
        old(bytes)@.len() < 2 ==> r == Err::<u16, DataError>(DataError::NotEnoughBytes)
            && final(bytes)@ == old(bytes)@,
        old(bytes)@.len() >= 2 ==> r == Ok::<u16, DataError>(be_value_u16(old(bytes)@))
            && final(bytes)@ == old(bytes)@.skip(2),
{
    if bytes.len() < 2 {
        return Err(DataError::NotEnoughBytes);
    }
    let hi = bytes[0];
    let lo = bytes[1];
    let value = ((hi as u16) << 8) | lo as u16;
    assert(((hi as u16) << 8) | lo as u16 == hi as u16 * 256 + lo as u16) by (bit_vector);
    drain_front(bytes, 2);
    Ok(value)
}

/// Reading back what `create_long` wrote gives the value that was written.
pub proof fn long_round_trip(value: u64, rest: Seq<u8>)
    ensures
        le_bytes(value as nat, 8).len() == 8,
        le_value((le_bytes(value as nat, 8) + rest).take(8)) == value,
        (le_bytes(value as nat, 8) + rest).skip(8) == rest,
{
    let e = le_bytes(value as nat, 8);
    assert((e + rest).take(8) =~= e);
    assert((e + rest).skip(8) =~= rest);
    lemma_le_round_trip(value as nat, 8);
    lemma_byte_weights();
}

/// Reading back what `create_unsigned_short` wrote gives the value that was
/// written.
pub proof fn unsigned_short_round_trip(value: u16, rest: Seq<u8>)
    ensures
        be_value_u16(be_bytes_u16(value) + rest) == value,
        (be_bytes_u16(value) + rest).skip(2) == rest,
{
    assert((be_bytes_u16(value) + rest).skip(2) =~= rest);
}


/// The text that `String::from_utf8_lossy` makes of `bytes` when they are
/// not valid UTF-8 (each invalid sequence turns into U+FFFD).
pub uninterp spec fn utf8_lossy(bytes: Seq<u8>) -> Seq<char>;

/// The text that lossy UTF-8 decoding makes of `bytes`: the decoded
/// characters when the bytes are valid UTF-8.
pub open spec fn lossy_text(bytes: Seq<u8>) -> Seq<char> {
    if valid_utf8(bytes) {
        decode_utf8(bytes)
    } else {
        utf8_lossy(bytes)
    }
}

/// Decodes `bytes` with `String::from_utf8_lossy` and takes the result as a
/// `String`. Claimed: valid UTF-8 comes back as the characters it encodes
/// (std's documentation of `from_utf8_lossy`); what invalid input becomes is
/// named by `utf8_lossy` and not stated.
#[verifier::external_body]
fn utf8_lossy_string(bytes: &[u8]) -> (text: String)
    ensures
        valid_utf8(bytes@) ==> text@ == decode_utf8(bytes@),
        !valid_utf8(bytes@) ==> text@ == utf8_lossy(bytes@),
{
    String::from_utf8_lossy(bytes).to_string()
}

/// The bytes that `create_string` writes for `text`: the VarInt of its UTF-8
/// length (taken as an `i32`), then its UTF-8 bytes.
pub open spec fn string_bytes(text: Seq<char>) -> Seq<u8> {
    varint_bytes((encode_utf8(text).len() as usize) as i32) + encode_utf8(text)
}

/// What reading a string from the front of `s` gives: its text and the count
/// of bytes it takes; the error of its length prefix; or `NotEnoughBytes`
/// when that length is negative or runs past the end of `s`.
pub open spec fn string_decode(s: Seq<u8>) -> Result<(Seq<char>, nat), DataError> {
    match varint_decode(s) {
        Ok((v, n)) => if v < 0 || n + v > s.len() {
            Err(DataError::NotEnoughBytes)
        } else {
            Ok((lossy_text(s.subrange(n as int, n + v)), (n + v) as nat))
        },
        Err(e) => Err(e),
    }
}

/// Encodes `data` as a length-prefixed string: the VarInt of its UTF-8
/// length, then its UTF-8 bytes.
pub fn create_string(data: &str) -> (bytes: Vec<u8>)
    ensures
        bytes@ == string_bytes(data@),
{
    let mut bytes: Vec<u8> = Vec::new();
    let mut length = create_varint(data.len() as i32);
    bytes.append(&mut length);
    let mut utf8 = slice_to_vec(data.as_bytes());
    bytes.append(&mut utf8);
    bytes
}

/// Reads a length-prefixed string from the front of `bytes` and removes its
/// bytes; on an error (the length prefix cannot be read, or its length is
/// negative or longer than the bytes after it) `bytes` is left as it was.
/// Bytes that are not valid UTF-8 are decoded lossily.
pub fn read_string(bytes: &mut Vec<u8>) -> (r: Result<String, DataError>)
    ensures
        match string_decode(old(bytes)@) {
            Ok((text, n)) => r matches Ok(t) && t@ == text && final(bytes)@ == old(bytes)@.skip(
                n as int,
            ),
            Err(e) => r matches Err(e2) && e2 == e && final(bytes)@ == old(bytes)@,
        },
{
    proof {
        lemma_varint_extent_bound(bytes@);
    }
    let (length, n) = match scan_varint(bytes.as_slice()) {
        Ok(prefix) => prefix,
        Err(e) => return Err(e),
    };
    if length < 0 || length as usize > bytes.len() - n {
        return Err(DataError::NotEnoughBytes);
    }
    let length = length as usize;
    let string = utf8_lossy_string(slice_subrange(bytes.as_slice(), n, n + length));
    drain_front(bytes, n + length);
    Ok(string)
}

/// Reading back what `create_string` wrote gives the text that was written
/// and takes exactly its bytes, whenever its UTF-8 length fits in an `i32`.
pub proof fn string_round_trip(text: Seq<char>, rest: Seq<u8>)
    requires
        encode_utf8(text).len() <= i32::MAX,
    ensures
        string_decode(string_bytes(text) + rest)
            == Ok::<(Seq<char>, nat), DataError>((text, string_bytes(text).len())),
{
    let e = encode_utf8(text);
    let len = (e.len() as usize) as i32;
    assert(len == e.len());
    let s = string_bytes(text) + rest;
    varint_round_trip(len, e + rest);
    assert(s =~= varint_bytes(len) + (e + rest));
    let n = varint_bytes(len).len();
    assert(s.subrange(n as int, n + len) =~= e);
    encode_utf8_valid_utf8(text);
    encode_utf8_decode_utf8(text);
}

/// Reads a VarInt length prefix from the unread bytes of `buf`, which may
/// hold only part of it yet: a complete VarInt is consumed and returned; an
/// incomplete one gives `Ok(None)` and consumes nothing; one that runs over
/// five bytes gives `VarIntTooBig` and consumes nothing.
pub fn try_read_varint(buf: &mut BufferReader) -> (r: Result<Option<i32>, DataError>)
    requires
        old(buf).wf(),
    ensures
        final(buf).wf(),
        final(buf).spec_buf() == old(buf).spec_buf(),
        final(buf).spec_len() == old(buf).spec_len(),
        match varint_decode(old(buf).unread_view()) {
            Ok((v, n)) => r == Ok::<Option<i32>, DataError>(Some(v)) && final(buf).spec_pos()
                == old(buf).spec_pos() + n,
            Err(DataError::NotEnoughBytes) => r == Ok::<Option<i32>, DataError>(None)
                && final(buf).spec_pos() == old(buf).spec_pos(),
            Err(e) => r == Err::<Option<i32>, DataError>(e) && final(buf).spec_pos() == old(
                buf,
            ).spec_pos(),
        },
{
    proof {
        lemma_varint_extent_bound(old(buf).unread_view());
    }
    match scan_varint(buf.unread()) {
        Ok((value, n)) => {
            buf.advance(n);
            Ok(Some(value))
        },
        Err(DataError::NotEnoughBytes) => Ok(None),
        Err(e) => Err(e),
    }
}

proof fn lemma_weight_add(a: nat, b: nat)
    ensures
        byte_weight(a + b) == byte_weight(a) * byte_weight(b),
    decreases b,
{
    if b == 0 {
        assert(byte_weight(0) == 1);
        assert(byte_weight(a) * 1 == byte_weight(a)) by (nonlinear_arith);
    } else {
        let c = (b - 1) as nat;
        lemma_weight_add(a, c);
        assert(byte_weight(b) == 256 * byte_weight(c));
        assert((a + b - 1) as nat == a + c);
        assert(byte_weight(a + b) == 256 * byte_weight(a + c));
        assert(byte_weight(a) * (256 * byte_weight(c)) == 256 * (byte_weight(a) * byte_weight(c)))
            by (nonlinear_arith);
    }
}

/// A little-endian number splits at any byte index `i` into its low `i`
/// bytes and `256^i` times the rest.
proof fn lemma_le_value_split(s: Seq<u8>, i: int)
    requires
        0 <= i <= s.len(),
    ensures
        le_value(s) == le_value(s.take(i)) + byte_weight(i as nat) * le_value(s.skip(i)),
    decreases s.len(),
{
    if i == s.len() {
        assert(s.take(i) =~= s);
        assert(s.skip(i).len() == 0);
        assert(le_value(s.skip(i)) == 0);
        assert(byte_weight(i as nat) * 0 == 0) by (nonlinear_arith);
    } else {
        let t = s.drop_last();
        let m = s.len() - 1;
        lemma_le_value_split(t, i);
        assert(t.take(i) =~= s.take(i));
        assert(s.skip(i).drop_last() =~= t.skip(i));
        assert(s.skip(i).last() == s.last());
        lemma_weight_add(i as nat, (m - i) as nat);
        let a = le_value(t.take(i));
        let wi = byte_weight(i as nat);
        let r = le_value(t.skip(i));
        let l = s.last() as nat;
        let wr = byte_weight((m - i) as nat);
        assert(le_value(s.skip(i)) == r + l * wr);
        assert(byte_weight(m as nat) == wi * wr);
        assert(le_value(s) == le_value(t) + l * byte_weight(m as nat));
        assert(le_value(t) == a + wi * r);
        assert(wi * (r + l * wr) == wi * r + l * (wi * wr)) by (nonlinear_arith);
    }
}

/// Reading a byte string as a little-endian number and writing that number
/// back with as many bytes gives the byte string again.
proof fn lemma_le_bytes_of_value(s: Seq<u8>)
    ensures
        le_bytes(le_value(s), s.len()) == s,
{
    let v = le_value(s);
    assert forall|i: int| 0 <= i < s.len() implies le_bytes(v, s.len())[i] == s[i] by {
        lemma_le_value_split(s, i);
        let rest = s.skip(i);
        lemma_le_value_split(rest, 1);
        let t1 = rest.take(1);
        assert(t1.drop_last() =~= Seq::<u8>::empty());
        assert(le_value(t1.drop_last()) == 0);
        assert(t1.last() == rest[0]);
        assert(t1.len() == 1);
        assert(byte_weight(0) == 1);
        assert(le_value(t1) == le_value(t1.drop_last()) + t1.last() as nat * byte_weight(0));
        assert(t1.last() as nat * 1 == t1.last() as nat) by (nonlinear_arith);
        assert(le_value(t1) == rest[0] as nat);
        assert(rest.skip(1) =~= s.skip(i + 1));
        reveal_with_fuel(byte_weight, 2);
        let a = le_value(s.take(i));
        let w = byte_weight(i as nat);
        let r = le_value(s.skip(i + 1));
        lemma_le_value_bound(s.take(i));
        lemma_weight_positive(i as nat);
        assert(v == (s[i] as nat + 256 * r) * w + a) by (nonlinear_arith)
            requires
                v == a + w * le_value(rest),
                le_value(rest) == s[i] as nat + 256 * r,
        ;
        lemma_fundamental_div_mod_converse(v as int, w as int, s[i] as int + 256 * r, a as int);
        assert(r * 256 == 256 * r) by (nonlinear_arith);
        lemma_fundamental_div_mod_converse(
            s[i] as int + 256 * r,
            256,
            r as int,
            s[i] as int,
        );
        assert(r * 256 == 256 * r) by (nonlinear_arith);
    }
    assert(le_bytes(v, s.len()) =~= s);
}

/// Writing back the number that `read_long` read from eight bytes gives
/// those eight bytes.
pub proof fn long_bytes_round_trip(bytes: Seq<u8>)
    requires
        bytes.len() == 8,
    ensures
        le_bytes(le_value(bytes), 8) == bytes,
        le_value(bytes) <= u64::MAX,
{
    lemma_le_bytes_of_value(bytes);
    lemma_le_value_bound(bytes);
    lemma_byte_weights();
}

} // verus!
