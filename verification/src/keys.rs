//! Content keys: a fixed-width 256-bit content digest and its lowercase
//! hex encoding. Every blob in the store and every cache entry is addressed
//! by such a key.

use vstd::prelude::*;

verus! {

/// Initial lane values of the digest state.
pub const SEED_A: u64 = 0x6a09e667f3bcc908;
pub const SEED_B: u64 = 0xbb67ae8584caa73b;
pub const SEED_C: u64 = 0x3c6ef372fe94f82b;
pub const SEED_D: u64 = 0xa54ff53a5f1d36f1;

/// Per-lane odd multipliers used by the mixing step.
pub const MULT_A: u64 = 0xff51afd7ed558ccd;
pub const MULT_B: u64 = 0xc4ceb9fe1a85ec53;
pub const MULT_C: u64 = 0x9e3779b97f4a7c15;
pub const MULT_D: u64 = 0x2545f4914f6cdd1d;

/// Number of bytes a key has: 64 lowercase hex digits encode 256 bits.
pub const KEY_LEN: usize = 64;

/// The 256-bit digest state: four 64-bit lanes.
#[derive(Clone, Copy, PartialEq, Eq, Structural)]
pub struct Digest {
    pub a: u64,
    pub b: u64,
    pub c: u64,
    pub d: u64,
}

/// One mixing step of a single lane: xor the byte in, then multiply
/// modulo 2^64 by an odd constant.
pub open spec fn spec_lane_step(lane: u64, byte: u8, mult: u64) -> u64 {
    (((((lane ^ (byte as u64)) as int) + 1) * (mult as int)) % 0x10000000000000000) as u64
}

/// Digest of a byte sequence: every byte is mixed into all four lanes.
pub open spec fn spec_digest(s: Seq<u8>) -> Digest
    decreases s.len(),
{
    if s.len() == 0 {
        Digest { a: SEED_A, b: SEED_B, c: SEED_C, d: SEED_D }
    } else {
        let p = spec_digest(s.drop_last());
        let x = s.last();
        Digest {
            a: spec_lane_step(p.a, x, MULT_A),
            b: spec_lane_step(p.b, x, MULT_B),
            c: spec_lane_step(p.c, x, MULT_C),
            d: spec_lane_step(p.d, x, MULT_D),
        }
    }
}

/// The lowercase hex digit for a value in 0..16.
pub open spec fn spec_hex_digit(n: int) -> u8
    recommends
        0 <= n < 16,
{
    if n < 10 {
        (0x30 + n) as u8
    } else {
        (0x57 + n) as u8
    }
}

/// Hex digits of `v`, `n` digits long, most significant first.
pub open spec fn spec_hex_of(v: int, n: nat) -> Seq<u8>
    recommends
        v >= 0,
    decreases n,
{
    if n == 0 {
        Seq::<u8>::empty()
    } else {
        spec_hex_of(v / 16, (n - 1) as nat).push(spec_hex_digit(v % 16))
    }
}

/// The key of a byte sequence: the 64 lowercase hex digits of its digest.
pub open spec fn spec_key_of(s: Seq<u8>) -> Seq<u8> {
    let d = spec_digest(s);
    spec_hex_of(d.a as int, 16) + spec_hex_of(d.b as int, 16) + spec_hex_of(
        d.c as int,
        16,
    ) + spec_hex_of(d.d as int, 16)
}

/// True of the bytes that may appear in a key: lowercase hex digits.
pub open spec fn is_hex_lower(c: u8) -> bool {
    (0x30 <= c && c <= 0x39) || (0x61 <= c && c <= 0x66)
}

/// A syntactically valid content key: exactly 64 lowercase hex digits.
pub open spec fn valid_key(s: Seq<u8>) -> bool {
    &&& s.len() == KEY_LEN
    &&& forall|i: int| 0 <= i < s.len() ==> is_hex_lower(s[i])
}

fn lane_step(lane: u64, byte: u8, mult: u64) -> (r: u64)
    ensures
        r == spec_lane_step(lane, byte, mult),
{
    let x: u64 = lane ^ (byte as u64);
    proof {
        assert(((x as int) + 1) * (mult as int) < 0x100000000000000000000000000000000)
            by (nonlinear_arith)
            requires
                x <= 0xffffffffffffffffu64,
                mult <= 0xffffffffffffffffu64,
        ;
    }
    let p: u128 = ((x as u128) + 1) * (mult as u128);
    (p % 0x10000000000000000u128) as u64
}

fn hex_digit(n: u64) -> (r: u8)
    requires
        n < 16,
    ensures
        r == spec_hex_digit(n as int),
{
    if n < 10 {
        0x30 + (n as u8)
    } else {
        0x57 + (n as u8)
    }
}

/// Appends the 16 hex digits of `v` to `out`, most significant first.
fn push_hex_u64(out: &mut Vec<u8>, v: u64, n: u8)
    requires
        n <= 16,
    ensures
        final(out)@ == old(out)@ + spec_hex_of(v as int, n as nat),
    decreases n,
{
    if n == 0 {
        assert(old(out)@ + spec_hex_of(v as int, 0) =~= old(out)@);
    } else {
        push_hex_u64(out, v / 16, n - 1);
        let d = hex_digit(v % 16);
        out.push(d);
        assert(final(out)@ =~= old(out)@ + spec_hex_of(v as int, n as nat));
    }
}

/// Computes the content key of `data`: the hex-encoded 256-bit digest.
pub fn key_of(data: &Vec<u8>) -> (r: Vec<u8>)
    ensures
        r@ == spec_key_of(data@),
        valid_key(r@),
{
    let mut dg = Digest { a: SEED_A, b: SEED_B, c: SEED_C, d: SEED_D };
    let mut i: usize = 0;
    while i < data.len()
        invariant
            i <= data.len(),
            dg == spec_digest(data@.subrange(0, i as int)),
        decreases data.len() - i,
    {
        let x = data[i];
        dg = Digest {
            a: lane_step(dg.a, x, MULT_A),
            b: lane_step(dg.b, x, MULT_B),
            c: lane_step(dg.c, x, MULT_C),
            d: lane_step(dg.d, x, MULT_D),
        };
        proof {
            let pre = data@.subrange(0, i as int);
            let cur = data@.subrange(0, i + 1);
            assert(cur.drop_last() =~= pre);
            assert(cur.last() == data@[i as int]);
        }
        i = i + 1;
    }
    proof {
        assert(data@.subrange(0, data@.len() as int) =~= data@);
    }
    let mut r: Vec<u8> = Vec::new();
    push_hex_u64(&mut r, dg.a, 16);
    push_hex_u64(&mut r, dg.b, 16);
    push_hex_u64(&mut r, dg.c, 16);
    push_hex_u64(&mut r, dg.d, 16);
    proof {
        lemma_key_of_valid(data@);
        assert(r@ =~= spec_key_of(data@));
    }
    r
}

/// Checks key syntax: exactly 64 lowercase hex digits.
pub fn is_valid_key(s: &Vec<u8>) -> (r: bool)
    ensures
        r == valid_key(s@),
{
    if s.len() != KEY_LEN {
        return false;
    }
    let mut i: usize = 0;
    while i < s.len()
        invariant
            i <= s.len(),
            forall|j: int| 0 <= j < i ==> is_hex_lower(s@[j]),
        decreases s.len() - i,
    {
        let c = s[i];
        if !((0x30 <= c && c <= 0x39) || (0x61 <= c && c <= 0x66)) {
            return false;
        }
        i = i + 1;
    }
    true
}

/// Every digit that `spec_hex_of` produces is a lowercase hex digit.
proof fn lemma_hex_of_valid(v: int, n: nat)
    requires
        v >= 0,
    ensures
        spec_hex_of(v, n).len() == n,
        forall|i: int| 0 <= i < n ==> is_hex_lower(spec_hex_of(v, n)[i]),
    decreases n,
{
    if n > 0 {
        lemma_hex_of_valid(v / 16, (n - 1) as nat);
        assert(0 <= v % 16 < 16);
    }
}

/// Law: every computed content key is syntactically valid.
pub proof fn lemma_key_of_valid(s: Seq<u8>)
    ensures
        valid_key(spec_key_of(s)),
{
    let d = spec_digest(s);
    lemma_hex_of_valid(d.a as int, 16);
    lemma_hex_of_valid(d.b as int, 16);
    lemma_hex_of_valid(d.c as int, 16);
    lemma_hex_of_valid(d.d as int, 16);
}

} // verus!
