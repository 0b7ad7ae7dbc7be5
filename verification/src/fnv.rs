//! The hash by which the `prometheus` crate tells metrics and series apart.
use vstd::arithmetic::div_mod::lemma_mul_mod_noop_left;
use vstd::arithmetic::div_mod::lemma_mul_mod_noop_right;
use vstd::arithmetic::div_mod::lemma_small_mod;
use vstd::arithmetic::mul::lemma_mul_is_associative;
use vstd::prelude::*;
use vstd::utf8::encode_scalar;
use vstd::utf8::encode_utf8;
use vstd::utf8::is_ascii_chars_encode_utf8;

verus! {

/// One step of the hash: a byte is mixed in, then the hash is multiplied by a prime.
pub open spec fn fnv_step(hash: u64, byte: u8) -> u64 {
    ((hash ^ (byte as u64)) * 0x100_0000_01B3u64) as u64
}

/// The hash of Fowler, Noll and Vo in its variant 1a, with 64 bits.
pub open spec fn fnv(bytes: Seq<u8>) -> u64
    decreases bytes.len(),
{
    if bytes.len() == 0 {
        0xCBF2_9CE4_8422_2325
    } else {
        fnv_step(fnv(bytes.drop_last()), bytes.last())
    }
}

/// The key under which a registry files a metric without constant labels: the hash of its
/// name and of a separator behind it.
pub open spec fn metric_key(name: Seq<char>) -> u64 {
    fnv(encode_utf8(name).push(0xFF))
}

/// The key under which a gauge metric files a series: the hash of its label values, written
/// one after the other.
pub open spec fn series_key(label_values: Seq<char>) -> u64 {
    fnv(encode_utf8(label_values))
}

/// Four steps of the hash.
pub open spec fn four_steps(hash: u64, a: u8, b: u8, c: u8, d: u8) -> u64 {
    fnv_step(fnv_step(fnv_step(fnv_step(hash, a), b), c), d)
}

/// Hashing one more byte takes one more step.
pub proof fn lemma_step(bytes: Seq<u8>, i: int)
    requires
        0 <= i < bytes.len(),
    ensures
        fnv(bytes.take(i + 1)) == fnv_step(fnv(bytes.take(i)), bytes[i]),
{
    assert(bytes.take(i + 1).drop_last() =~= bytes.take(i));
}

/// Hashing four more bytes takes four more steps.
pub proof fn lemma_four_steps(bytes: Seq<u8>, i: int)
    requires
        0 <= i,
        i + 4 <= bytes.len(),
    ensures
        fnv(bytes.take(i + 4)) == four_steps(
            fnv(bytes.take(i)),
            bytes[i],
            bytes[i + 1],
            bytes[i + 2],
            bytes[i + 3],
        ),
{
    lemma_step(bytes, i);
    lemma_step(bytes, i + 1);
    lemma_step(bytes, i + 2);
    lemma_step(bytes, i + 3);
}

/// Multiplying by the prime can be undone, so it keeps different numbers different.
proof fn lemma_prime_factor(x: u64, y: u64)
    requires
        x != y,
    ensures
        (x * 0x100_0000_01B3u64) as u64 != (y * 0x100_0000_01B3u64) as u64,
{
    let modulus: int = 0x1_0000_0000_0000_0000;
    let prime: int = 0x100_0000_01B3;
    let inverse: int = 0xCE96_5057_AFF6_957B;
    assert(prime * inverse % modulus == 1);
    lemma_undone(x as int, prime, inverse, modulus);
    lemma_undone(y as int, prime, inverse, modulus);
    assert((x * 0x100_0000_01B3u64) as u64 == (x * 0x100_0000_01B3u64) % 0x1_0000_0000_0000_0000)
        by (bit_vector);
    assert((y * 0x100_0000_01B3u64) as u64 == (y * 0x100_0000_01B3u64) % 0x1_0000_0000_0000_0000)
        by (bit_vector);
}

proof fn lemma_undone(x: int, factor: int, inverse: int, modulus: int)
    requires
        0 <= x < modulus,
        factor * inverse % modulus == 1,
    ensures
        (x * factor % modulus) * inverse % modulus == x,
{
    lemma_mul_mod_noop_left(x * factor, inverse, modulus);
    lemma_mul_is_associative(x, factor, inverse);
    lemma_mul_mod_noop_right(x, factor * inverse, modulus);
    lemma_small_mod(x as nat, modulus as nat);
}

/// A step keeps different hashes different, and tells different bytes apart.
proof fn lemma_step_tells_apart(g: u64, h: u64, a: u8, b: u8)
    requires
        g != h && a == b || g == h && a != b,
    ensures
        fnv_step(g, a) != fnv_step(h, b),
{
    assert((g ^ (a as u64)) != (h ^ (b as u64))) by (bit_vector)
        requires
            g != h && a == b || g == h && a != b,
    ;
    lemma_prime_factor(g ^ (a as u64), h ^ (b as u64));
}

/// Bytes of the same number that differ in one place have different hashes.
pub proof fn one_different_byte_changes_the_hash(a: Seq<u8>, b: Seq<u8>, i: int)
    requires
        a.len() == b.len(),
        0 <= i < a.len(),
        a[i] != b[i],
        forall|j: int| 0 <= j < a.len() && j != i ==> a[j] == b[j],
    ensures
        fnv(a) != fnv(b),
    decreases a.len(),
{
    let last = a.len() - 1;
    if i == last {
        assert(a.drop_last() =~= b.drop_last());
    } else {
        one_different_byte_changes_the_hash(a.drop_last(), b.drop_last(), i);
        assert(a[last] == b[last]);
    }
    lemma_step_tells_apart(fnv(a.drop_last()), fnv(b.drop_last()), a.last(), b.last());
}

proof fn lemma_encode_concat(a: Seq<char>, b: Seq<char>)
    ensures
        encode_utf8(a + b) == encode_utf8(a) + encode_utf8(b),
    decreases a.len(),
{
    if a.len() == 0 {
        assert(a + b =~= b);
        assert(encode_utf8(a) + encode_utf8(b) =~= encode_utf8(b));
    } else {
        assert((a + b).drop_first() =~= a.drop_first() + b);
        lemma_encode_concat(a.drop_first(), b);
        assert(encode_scalar(a[0] as u32) + (encode_utf8(a.drop_first()) + encode_utf8(b))
            =~= encode_scalar(a[0] as u32) + encode_utf8(a.drop_first()) + encode_utf8(b));
    }
}

/// Label values of the same length that differ in one character of ASCII belong to different
/// series.
pub proof fn one_different_character_changes_the_key(s: Seq<char>, t: Seq<char>, i: int)
    requires
        s.len() == t.len(),
        0 <= i < s.len(),
        '\0' <= s[i] <= '\x7f',
        '\0' <= t[i] <= '\x7f',
        s[i] != t[i],
        forall|j: int| 0 <= j < s.len() && j != i ==> s[j] == t[j],
    ensures
        series_key(s) != series_key(t),
{
    let before = s.take(i);
    let behind = s.skip(i + 1);
    let head = encode_utf8(before);
    assert(s =~= before + seq![s[i]] + behind);
    assert(t =~= before + seq![t[i]] + behind);
    lemma_encode_concat(before + seq![s[i]], behind);
    lemma_encode_concat(before, seq![s[i]]);
    lemma_encode_concat(before + seq![t[i]], behind);
    lemma_encode_concat(before, seq![t[i]]);
    is_ascii_chars_encode_utf8(seq![s[i]]);
    is_ascii_chars_encode_utf8(seq![t[i]]);
    assert(encode_utf8(seq![s[i]])[0] == s[i] as u8);
    assert(encode_utf8(seq![t[i]])[0] == t[i] as u8);
    one_different_byte_changes_the_hash(encode_utf8(s), encode_utf8(t), head.len() as int);
}

/// The hash starts from a fixed number. Each byte is mixed in, and the result multiplied by
/// 2^40 + 435 modulo 2^64.
pub proof fn hashes_go_byte_by_byte(bytes: Seq<u8>, byte: u8)
    ensures
        fnv(Seq::empty()) == 0xCBF2_9CE4_8422_2325,
        fnv(bytes.push(byte)) == ((fnv(bytes) ^ (byte as u64)) * 0x100_0000_01B3)
            % 0x1_0000_0000_0000_0000,
{
    let mixed: u64 = fnv(bytes) ^ (byte as u64);
    assert(bytes.push(byte).drop_last() =~= bytes);
    assert((mixed * 0x100_0000_01B3u64) as u64 == (mixed * 0x100_0000_01B3u64)
        % 0x1_0000_0000_0000_0000) by (bit_vector);
}

/// Series are filed by the hash of their label values as text in UTF-8, metrics by the hash of
/// their name and of a byte that no such text holds.
pub proof fn keys_are_hashes_of_text(text: Seq<char>)
    ensures
        series_key(text) == fnv(encode_utf8(text)),
        metric_key(text) == fnv(encode_utf8(text).push(0xFF)),
{
}

} // verus!
