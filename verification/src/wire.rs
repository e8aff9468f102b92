//! Byte-order handling for the length field: mathematical definitions of
//! big- and little-endian unsigned integers, and verified routines that
//! read such a field out of a buffer and append one to a buffer.

use vstd::prelude::*;
use vstd::arithmetic::power::{pow, lemma_pow_increases, lemma_pow_positive};
use vstd::arithmetic::div_mod::lemma_breakdown;
use bytes::BytesMut;
use crate::bytes_buf::{bytes_view, buf_byte_at, buf_push};

verus! {

/// The unsigned integer the byte sequence denotes with its first byte
/// most significant.
pub open spec fn big_endian_value(s: Seq<u8>) -> nat
    decreases s.len(),
{
    if s.len() == 0 {
        0
    } else {
        big_endian_value(s.drop_last()) * 256 + s.last() as nat
    }
}

/// The unsigned integer the byte sequence denotes with its first byte
/// least significant.
pub open spec fn little_endian_value(s: Seq<u8>) -> nat
    decreases s.len(),
{
    if s.len() == 0 {
        0
    } else {
        s[0] as nat + 256 * little_endian_value(s.skip(1))
    }
}

/// The `n` big-endian bytes of `v`, high bytes beyond `n` discarded.
pub open spec fn big_endian_bytes(v: nat, n: nat) -> Seq<u8>
    decreases n,
{
    if n == 0 {
        Seq::empty()
    } else {
        big_endian_bytes(v / 256, (n - 1) as nat).push((v % 256) as u8)
    }
}

/// The `n` little-endian bytes of `v`, high bytes beyond `n` discarded.
pub open spec fn little_endian_bytes(v: nat, n: nat) -> Seq<u8>
    decreases n,
{
    if n == 0 {
        Seq::empty()
    } else {
        seq![(v % 256) as u8] + little_endian_bytes(v / 256, (n - 1) as nat)
    }
}

pub proof fn lemma_big_endian_value_bound(s: Seq<u8>)
    ensures
        big_endian_value(s) < pow(256, s.len()),
    decreases s.len(),
{
    reveal(pow);
    if s.len() == 0 {
    } else {
        lemma_big_endian_value_bound(s.drop_last());
        assert(pow(256, s.len()) == 256 * pow(256, (s.len() - 1) as nat));
    }
}

pub proof fn lemma_little_endian_value_bound(s: Seq<u8>)
    ensures
        little_endian_value(s) < pow(256, s.len()),
    decreases s.len(),
{
    reveal(pow);
    if s.len() == 0 {
    } else {
        lemma_little_endian_value_bound(s.skip(1));
        assert(pow(256, s.len()) == 256 * pow(256, (s.len() - 1) as nat));
    }
}

/// Writing `n` bytes and reading them back yields `v` reduced modulo
/// `256^n` (big-endian).
pub proof fn lemma_big_endian_bytes_value(v: nat, n: nat)
    ensures
        big_endian_bytes(v, n).len() == n,
        big_endian_value(big_endian_bytes(v, n)) == v % (pow(256, n) as nat),
    decreases n,
{
    reveal(pow);
    lemma_pow_positive(256, n);
    if n == 0 {
        assert(v % 1 == 0) by (nonlinear_arith);
    } else {
        lemma_big_endian_bytes_value(v / 256, (n - 1) as nat);
        lemma_pow_positive(256, (n - 1) as nat);
        let s = big_endian_bytes(v, n);
        assert(s.drop_last() =~= big_endian_bytes(v / 256, (n - 1) as nat));
        lemma_breakdown(v as int, 256, pow(256, (n - 1) as nat));
        assert(pow(256, n) == 256 * pow(256, (n - 1) as nat));
    }
}

/// Writing `n` bytes and reading them back yields `v` reduced modulo
/// `256^n` (little-endian).
pub proof fn lemma_little_endian_bytes_value(v: nat, n: nat)
    ensures
        little_endian_bytes(v, n).len() == n,
        little_endian_value(little_endian_bytes(v, n)) == v % (pow(256, n) as nat),
    decreases n,
{
    reveal(pow);
    lemma_pow_positive(256, n);
    if n == 0 {
        assert(v % 1 == 0) by (nonlinear_arith);
    } else {
        lemma_little_endian_bytes_value(v / 256, (n - 1) as nat);
        lemma_pow_positive(256, (n - 1) as nat);
        let s = little_endian_bytes(v, n);
        assert(s.skip(1) =~= little_endian_bytes(v / 256, (n - 1) as nat));
        assert(s[0] == (v % 256) as u8);
        lemma_breakdown(v as int, 256, pow(256, (n - 1) as nat));
        assert(pow(256, n) == 256 * pow(256, (n - 1) as nat));
    }
}

/// The big-endian bytes of `v` are the little-endian bytes of `v` in
/// mirrored order.
pub proof fn lemma_big_little_mirror(v: nat, n: nat, i: int)
    requires
        0 <= i < n,
    ensures
        big_endian_bytes(v, n).len() == n,
        little_endian_bytes(v, n).len() == n,
        big_endian_bytes(v, n)[i] == little_endian_bytes(v, n)[n - 1 - i],
    decreases n,
{
    lemma_big_endian_bytes_value(v, n);
    lemma_little_endian_bytes_value(v, n);
    if i == n - 1 {
        assert(big_endian_bytes(v, n).last() == (v % 256) as u8);
        assert(little_endian_bytes(v, n)[0] == (v % 256) as u8);
    } else {
        lemma_big_little_mirror(v / 256, (n - 1) as nat, i);
        assert(big_endian_bytes(v, n)[i] == big_endian_bytes(v / 256, (n - 1) as nat)[i]);
        assert(little_endian_bytes(v, n)[n - 1 - i] == little_endian_bytes(v / 256, (n - 1) as nat)[
            n - 2 - i
        ]);
    }
}

/// Reads `n` bytes at `offset` as a big-endian unsigned integer, without
/// consuming them.
pub fn read_big_endian(src: &BytesMut, offset: usize, n: usize) -> (r: u64)
    requires
        1 <= n <= 8,
        offset + n <= usize::MAX,
        offset + n <= bytes_view(*src).len(),
    ensures
        r == big_endian_value(bytes_view(*src).subrange(offset as int, offset + n)),
{
    let ghost field = bytes_view(*src).subrange(offset as int, offset + n);
    let mut acc: u64 = 0;
    let mut i: usize = 0;
    proof {
        vstd::arithmetic::power::lemma_pow0(256);
    }
    while i < n
        invariant
            i <= n <= 8,
            offset + n <= usize::MAX,
            offset + n <= bytes_view(*src).len(),
            field == bytes_view(*src).subrange(offset as int, offset + n),
            acc == big_endian_value(field.take(i as int)),
            acc < pow(256, i as nat),
        decreases n - i,
    {
        let b = buf_byte_at(src, offset + i);
        proof {
            lemma_pow_increases(256, i as nat, 7);
            assert(pow(256, 7) == 0x100000000000000) by {
                reveal_with_fuel(pow, 8);
            }
            assert(field.take(i + 1).drop_last() =~= field.take(i as int));
            assert(field.take(i + 1).last() == field[i as int]);
            lemma_big_endian_value_bound(field.take(i + 1));
        }
        acc = acc * 256 + b as u64;
        i = i + 1;
    }
    proof {
        assert(field.take(n as int) =~= field);
    }
    acc
}

/// Reads `n` bytes at `offset` as a little-endian unsigned integer,
/// without consuming them.
pub fn read_little_endian(src: &BytesMut, offset: usize, n: usize) -> (r: u64)
    requires
        1 <= n <= 8,
        offset + n <= usize::MAX,
        offset + n <= bytes_view(*src).len(),
    ensures
        r == little_endian_value(bytes_view(*src).subrange(offset as int, offset + n)),
{
    let ghost field = bytes_view(*src).subrange(offset as int, offset + n);
    let mut acc: u64 = 0;
    let mut j: usize = n;
    proof {
        vstd::arithmetic::power::lemma_pow0(256);
    }
    while j > 0
        invariant
            j <= n <= 8,
            offset + n <= usize::MAX,
            offset + n <= bytes_view(*src).len(),
            field == bytes_view(*src).subrange(offset as int, offset + n),
            acc == little_endian_value(field.skip(j as int)),
            acc < pow(256, (n - j) as nat),
        decreases j,
    {
        let b = buf_byte_at(src, offset + j - 1);
        proof {
            lemma_pow_increases(256, (n - j) as nat, 7);
            assert(pow(256, 7) == 0x100000000000000) by {
                reveal_with_fuel(pow, 8);
            }
            assert(field.skip(j - 1).skip(1) =~= field.skip(j as int));
            assert(field.skip(j - 1)[0] == field[j - 1]);
            lemma_little_endian_value_bound(field.skip(j - 1));
        }
        acc = acc * 256 + b as u64;
        j = j - 1;
    }
    proof {
        assert(field.skip(0) =~= field);
    }
    acc
}

/// Appends the `width`-byte encoding of `value` in the given byte order.
pub fn append_field(dst: &mut BytesMut, value: u64, width: usize, big_endian: bool)
    requires
        1 <= width <= 8,
        bytes_view(*old(dst)).len() + width <= usize::MAX,
    ensures
        bytes_view(*final(dst)) == bytes_view(*old(dst)) + (if big_endian {
            big_endian_bytes(value as nat, width as nat)
        } else {
            little_endian_bytes(value as nat, width as nat)
        }),
{
    let ghost le_field = little_endian_bytes(value as nat, width as nat);
    let mut digits: Vec<u8> = Vec::new();
    let mut v: u64 = value;
    let mut i: usize = 0;
    proof {
        assert(digits@ + le_field =~= le_field);
    }
    while i < width
        invariant
            i <= width,
            digits@.len() == i,
            digits@ + little_endian_bytes(v as nat, (width - i) as nat) == le_field,
        decreases width - i,
    {
        let d: u8 = (v % 256) as u8;
        proof {
            let rest = little_endian_bytes(v as nat, (width - i) as nat);
            let tail = little_endian_bytes((v as nat) / 256, (width - i - 1) as nat);
            assert(rest == seq![d] + tail);
            assert(rest.skip(1) =~= tail);
            assert(digits@.push(d) + tail =~= digits@ + rest);
        }
        digits.push(d);
        v = v / 256;
        i = i + 1;
    }
    proof {
        assert(digits@ + little_endian_bytes(v as nat, 0) =~= digits@);
        assert(digits@ == le_field);
        lemma_little_endian_bytes_value(value as nat, width as nat);
    }
    if big_endian {
        let ghost be_field = big_endian_bytes(value as nat, width as nat);
        proof {
            lemma_big_endian_bytes_value(value as nat, width as nat);
        }
        let mut i: usize = 0;
        while i < width
            invariant
                i <= width <= 8,
                digits@ == le_field,
                le_field.len() == width,
                be_field == big_endian_bytes(value as nat, width as nat),
                be_field.len() == width,
                le_field == little_endian_bytes(value as nat, width as nat),
                bytes_view(*old(dst)).len() + width <= usize::MAX,
                bytes_view(*dst) == bytes_view(*old(dst)) + be_field.take(i as int),
            decreases width - i,
        {
            proof {
                lemma_big_little_mirror(value as nat, width as nat, i as int);
                assert(be_field.take(i as int).push(be_field[i as int]) =~= be_field.take(i + 1));
            }
            buf_push(dst, digits[width - 1 - i]);
            i = i + 1;
        }
        proof {
            assert(be_field.take(width as int) =~= be_field);
        }
    } else {
        let mut i: usize = 0;
        while i < width
            invariant
                i <= width <= 8,
                digits@ == le_field,
                le_field.len() == width,
                le_field == little_endian_bytes(value as nat, width as nat),
                bytes_view(*old(dst)).len() + width <= usize::MAX,
                bytes_view(*dst) == bytes_view(*old(dst)) + le_field.take(i as int),
            decreases width - i,
        {
            proof {
                assert(le_field.take(i as int).push(le_field[i as int]) =~= le_field.take(i + 1));
            }
            buf_push(dst, digits[i]);
            i = i + 1;
        }
        proof {
            assert(le_field.take(width as int) =~= le_field);
        }
    }
}

} // verus!
