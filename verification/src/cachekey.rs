//! Cache key derivation: a deterministic fingerprint of one plugin
//! invocation — tool name, tool version, target, port and scan options —
//! used to skip redundant executions. The fields are framed by a
//! length-prefixed encoding that is proved unambiguous, so distinct
//! invocations never share an encoding.

use vstd::prelude::*;

use crate::keys::{key_of, spec_key_of, valid_key};

verus! {

/// Field lengths carried in the encoding are 32-bit.
pub const FIELD_LEN_BOUND: u64 = 0x100000000;

/// 256^n.
pub open spec fn pow256(n: nat) -> int
    decreases n,
{
    if n == 0 {
        1
    } else {
        256 * pow256((n - 1) as nat)
    }
}

/// Big-endian base-256 digits of `v`, `n` digits long.
pub open spec fn spec_base256(v: int, n: nat) -> Seq<u8>
    recommends
        0 <= v,
    decreases n,
{
    if n == 0 {
        Seq::<u8>::empty()
    } else {
        spec_base256(v / 256, (n - 1) as nat).push((v % 256) as u8)
    }
}

/// The number the digits denote.
pub open spec fn spec_debase256(s: Seq<u8>) -> int
    decreases s.len(),
{
    if s.len() == 0 {
        0
    } else {
        spec_debase256(s.drop_last()) * 256 + s.last()
    }
}

/// Four-byte big-endian length field.
pub open spec fn spec_enc32(v: int) -> Seq<u8> {
    spec_base256(v, 4)
}

/// A length-prefixed field: four length bytes, then the bytes themselves.
pub open spec fn spec_lp(s: Seq<u8>) -> Seq<u8> {
    spec_enc32(s.len() as int) + s
}

/// Encoding of the option list: each option length-prefixed, in order.
pub open spec fn spec_enc_options(opts: Seq<Seq<u8>>) -> Seq<u8>
    decreases opts.len(),
{
    if opts.len() == 0 {
        Seq::<u8>::empty()
    } else {
        spec_lp(opts[0]) + spec_enc_options(opts.subrange(1, opts.len() as int))
    }
}

/// All fields of an invocation are short enough to frame.
pub open spec fn invocation_wf(
    tool: Seq<u8>,
    version: Seq<u8>,
    target: Seq<u8>,
    options: Seq<Seq<u8>>,
) -> bool {
    &&& tool.len() < FIELD_LEN_BOUND
    &&& version.len() < FIELD_LEN_BOUND
    &&& target.len() < FIELD_LEN_BOUND
    &&& options.len() < FIELD_LEN_BOUND
    &&& forall|i: int| 0 <= i < options.len() ==> #[trigger] options[i].len() < FIELD_LEN_BOUND
}

/// Canonical byte encoding of one invocation.
pub open spec fn spec_invocation_encoding(
    tool: Seq<u8>,
    version: Seq<u8>,
    target: Seq<u8>,
    port: u16,
    options: Seq<Seq<u8>>,
) -> Seq<u8> {
    spec_lp(tool) + spec_lp(version) + spec_lp(target) + spec_enc32(port as int) + spec_enc32(
        options.len() as int,
    ) + spec_enc_options(options)
}

/// The cache key of one invocation: the content key of its canonical
/// encoding. A pure function of the invocation alone.
pub open spec fn spec_cache_key(
    tool: Seq<u8>,
    version: Seq<u8>,
    target: Seq<u8>,
    port: u16,
    options: Seq<Seq<u8>>,
) -> Seq<u8> {
    spec_key_of(spec_invocation_encoding(tool, version, target, port, options))
}

fn push_enc32(out: &mut Vec<u8>, v: usize)
    requires
        v < FIELD_LEN_BOUND,
    ensures
        final(out)@ == old(out)@ + spec_enc32(v as int),
{
    let b0: u8 = ((v / 0x1000000) % 0x100) as u8;
    let b1: u8 = ((v / 0x10000) % 0x100) as u8;
    let b2: u8 = ((v / 0x100) % 0x100) as u8;
    let b3: u8 = (v % 0x100) as u8;
    out.push(b0);
    out.push(b1);
    out.push(b2);
    out.push(b3);
    proof {
        lemma_enc32_bytes(v as int);
        assert(final(out)@ =~= old(out)@ + spec_enc32(v as int));
    }
}

fn push_bytes(out: &mut Vec<u8>, s: &Vec<u8>)
    ensures
        final(out)@ == old(out)@ + s@,
{
    let mut i: usize = 0;
    while i < s.len()
        invariant
            i <= s.len(),
            out@ == old(out)@ + s@.subrange(0, i as int),
        decreases s.len() - i,
    {
        out.push(s[i]);
        proof {
            assert(out@ =~= old(out)@ + s@.subrange(0, i + 1));
        }
        i = i + 1;
    }
    proof {
        assert(s@.subrange(0, s@.len() as int) =~= s@);
    }
}

fn push_lp(out: &mut Vec<u8>, s: &Vec<u8>)
    requires
        s.len() < FIELD_LEN_BOUND,
    ensures
        final(out)@ == old(out)@ + spec_lp(s@),
{
    push_enc32(out, s.len());
    push_bytes(out, s);
    proof {
        assert(final(out)@ =~= old(out)@ + spec_lp(s@));
    }
}

/// Computes the canonical encoding of an invocation.
pub fn invocation_encoding(
    tool: &Vec<u8>,
    version: &Vec<u8>,
    target: &Vec<u8>,
    port: u16,
    options: &Vec<Vec<u8>>,
) -> (r: Vec<u8>)
    requires
        invocation_wf(tool@, version@, target@, options.deep_view()),
    ensures
        r@ == spec_invocation_encoding(tool@, version@, target@, port, options.deep_view()),
{
    let mut out: Vec<u8> = Vec::new();
    push_lp(&mut out, tool);
    push_lp(&mut out, version);
    push_lp(&mut out, target);
    push_enc32(&mut out, port as usize);
    push_enc32(&mut out, options.len());
    let mut i: usize = 0;
    while i < options.len()
        invariant
            i <= options.len(),
            invocation_wf(tool@, version@, target@, options.deep_view()),
            out@ == spec_lp(tool@) + spec_lp(version@) + spec_lp(target@) + spec_enc32(
                port as int,
            ) + spec_enc32(options.deep_view().len() as int) + spec_enc_options(
                options.deep_view().subrange(0, i as int),
            ),
        decreases options.len() - i,
    {
        push_lp(&mut out, &options[i]);
        proof {
            lemma_enc_options_snoc(options.deep_view(), i as int);
            assert(out@ =~= spec_lp(tool@) + spec_lp(version@) + spec_lp(target@) + spec_enc32(
                port as int,
            ) + spec_enc32(options.deep_view().len() as int) + spec_enc_options(
                options.deep_view().subrange(0, i + 1),
            ));
        }
        i = i + 1;
    }
    proof {
        assert(options.deep_view().subrange(0, options.deep_view().len() as int)
            =~= options.deep_view());
        assert(out@ =~= spec_invocation_encoding(
            tool@,
            version@,
            target@,
            port,
            options.deep_view(),
        ));
    }
    out
}

/// Computes the cache key of an invocation.
pub fn cache_key(
    tool: &Vec<u8>,
    version: &Vec<u8>,
    target: &Vec<u8>,
    port: u16,
    options: &Vec<Vec<u8>>,
) -> (r: Vec<u8>)
    requires
        invocation_wf(tool@, version@, target@, options.deep_view()),
    ensures
        r@ == spec_cache_key(tool@, version@, target@, port, options.deep_view()),
        valid_key(r@),
{
    let enc = invocation_encoding(tool, version, target, port, options);
    key_of(&enc)
}

proof fn lemma_enc_options_snoc(opts: Seq<Seq<u8>>, i: int)
    requires
        0 <= i < opts.len(),
    ensures
        spec_enc_options(opts.subrange(0, i + 1)) == spec_enc_options(opts.subrange(0, i))
            + spec_lp(opts[i]),
    decreases i,
{
    let a = opts.subrange(0, i + 1);
    if i == 0 {
        assert(a[0] == opts[0]);
        assert(a.subrange(1, a.len() as int) =~= Seq::<Seq<u8>>::empty());
        assert(opts.subrange(0, 0) =~= Seq::<Seq<u8>>::empty());
        assert(spec_enc_options(a) =~= spec_lp(opts[0]));
        assert(spec_enc_options(opts.subrange(0, 0)) + spec_lp(opts[0]) =~= spec_lp(opts[0]));
    } else {
        lemma_enc_options_snoc(opts.subrange(1, opts.len() as int), i - 1);
        let t = opts.subrange(1, opts.len() as int);
        assert(a[0] == opts[0]);
        assert(a.subrange(1, a.len() as int) =~= t.subrange(0, i));
        assert(opts.subrange(0, i).subrange(1, i) =~= t.subrange(0, i - 1));
        assert(opts.subrange(0, i)[0] == opts[0]);
        assert(t[i - 1] == opts[i]);
        assert(spec_enc_options(opts.subrange(0, i + 1)) =~= spec_enc_options(opts.subrange(0, i))
            + spec_lp(opts[i]));
    }
}

proof fn lemma_pow256_4()
    ensures
        pow256(4) == 0x100000000,
{
    assert(pow256(0) == 1);
    assert(pow256(1) == 256);
    assert(pow256(2) == 0x10000);
    assert(pow256(3) == 0x1000000);
    assert(pow256(4) == 0x100000000);
}

/// The four bytes of a 32-bit length field, written out.
proof fn lemma_enc32_bytes(n: int)
    requires
        0 <= n < 0x100000000,
    ensures
        spec_enc32(n) == seq![
            ((n / 0x1000000) % 0x100) as u8,
            ((n / 0x10000) % 0x100) as u8,
            ((n / 0x100) % 0x100) as u8,
            (n % 0x100) as u8,
        ],
{
    let n1 = n / 0x100;
    let n2 = n / 0x10000;
    let n3 = n / 0x1000000;
    assert(n1 / 256 == n2 && n2 / 256 == n3 && n3 / 256 == 0 && 0 <= n3 < 0x100 && 0 <= n2
        && 0 <= n1) by (nonlinear_arith)
        requires
            0 <= n < 0x100000000,
            n1 == n / 0x100,
            n2 == n / 0x10000,
            n3 == n / 0x1000000,
    ;
    assert(spec_base256(n, 4) == spec_base256(n1, 3).push((n % 256) as u8));
    assert(spec_base256(n1, 3) == spec_base256(n2, 2).push((n1 % 256) as u8));
    assert(spec_base256(n2, 2) == spec_base256(n3, 1).push((n2 % 256) as u8));
    assert(spec_base256(n3, 1) == spec_base256(0, 0).push((n3 % 256) as u8));
    assert(n3 % 256 == n3);
    assert(spec_enc32(n) =~= seq![
        ((n / 0x1000000) % 0x100) as u8,
        ((n / 0x10000) % 0x100) as u8,
        ((n / 0x100) % 0x100) as u8,
        (n % 0x100) as u8,
    ]);
}

proof fn lemma_base256_inverse(v: int, n: nat)
    requires
        0 <= v < pow256(n),
    ensures
        spec_base256(v, n).len() == n,
        spec_debase256(spec_base256(v, n)) == v,
    decreases n,
{
    if n > 0 {
        assert(v / 256 < pow256((n - 1) as nat) && 0 <= v / 256 && v / 256 * 256 + v % 256 == v
            && 0 <= v % 256 < 256) by (nonlinear_arith)
            requires
                0 <= v < 256 * pow256((n - 1) as nat),
                pow256((n - 1) as nat) >= 1,
        ;
        lemma_pow256_pos((n - 1) as nat);
        lemma_base256_inverse(v / 256, (n - 1) as nat);
        assert(spec_base256(v, n).drop_last() =~= spec_base256(v / 256, (n - 1) as nat));
    }
}

proof fn lemma_pow256_pos(n: nat)
    ensures
        pow256(n) >= 1,
    decreases n,
{
    if n > 0 {
        lemma_pow256_pos((n - 1) as nat);
    }
}

/// Two equal four-byte length fields carry the same number.
proof fn lemma_enc32_injective(v1: int, v2: int)
    requires
        0 <= v1 < FIELD_LEN_BOUND,
        0 <= v2 < FIELD_LEN_BOUND,
        spec_enc32(v1) == spec_enc32(v2),
    ensures
        v1 == v2,
{
    lemma_pow256_4();
    lemma_base256_inverse(v1, 4);
    lemma_base256_inverse(v2, 4);
}

/// Splitting a length-prefixed field off the front is unambiguous.
proof fn lemma_lp_framing(a: Seq<u8>, r1: Seq<u8>, b: Seq<u8>, r2: Seq<u8>)
    requires
        a.len() < FIELD_LEN_BOUND,
        b.len() < FIELD_LEN_BOUND,
        spec_lp(a) + r1 == spec_lp(b) + r2,
    ensures
        a == b,
        r1 == r2,
{
    lemma_pow256_4();
    lemma_base256_inverse(a.len() as int, 4);
    lemma_base256_inverse(b.len() as int, 4);
    let s = spec_lp(a) + r1;
    assert(s.subrange(0, 4) =~= spec_enc32(a.len() as int));
    assert(s.subrange(0, 4) =~= spec_enc32(b.len() as int));
    lemma_enc32_injective(a.len() as int, b.len() as int);
    assert(a =~= s.subrange(4, 4 + a.len() as int));
    assert(b =~= s.subrange(4, 4 + b.len() as int));
    assert(r1 =~= s.subrange(4 + a.len() as int, s.len() as int));
    assert(r2 =~= s.subrange(4 + b.len() as int, s.len() as int));
}

/// Splitting a bare four-byte number off the front is unambiguous.
proof fn lemma_enc32_framing(v1: int, r1: Seq<u8>, v2: int, r2: Seq<u8>)
    requires
        0 <= v1 < FIELD_LEN_BOUND,
        0 <= v2 < FIELD_LEN_BOUND,
        spec_enc32(v1) + r1 == spec_enc32(v2) + r2,
    ensures
        v1 == v2,
        r1 == r2,
{
    lemma_pow256_4();
    lemma_base256_inverse(v1, 4);
    lemma_base256_inverse(v2, 4);
    let s = spec_enc32(v1) + r1;
    assert(s.subrange(0, 4) =~= spec_enc32(v1));
    assert(s.subrange(0, 4) =~= spec_enc32(v2));
    lemma_enc32_injective(v1, v2);
    assert(r1 =~= s.subrange(4, s.len() as int));
    assert(r2 =~= s.subrange(4, s.len() as int));
}

proof fn lemma_enc_options_injective(o1: Seq<Seq<u8>>, o2: Seq<Seq<u8>>)
    requires
        o1.len() == o2.len(),
        forall|i: int| 0 <= i < o1.len() ==> #[trigger] o1[i].len() < FIELD_LEN_BOUND,
        forall|i: int| 0 <= i < o2.len() ==> #[trigger] o2[i].len() < FIELD_LEN_BOUND,
        spec_enc_options(o1) == spec_enc_options(o2),
    ensures
        o1 == o2,
    decreases o1.len(),
{
    if o1.len() == 0 {
        assert(o1 =~= o2);
    } else {
        let t1 = o1.subrange(1, o1.len() as int);
        let t2 = o2.subrange(1, o2.len() as int);
        lemma_lp_framing(o1[0], spec_enc_options(t1), o2[0], spec_enc_options(t2));
        lemma_enc_options_injective(t1, t2);
        assert forall|i: int| 0 <= i < o1.len() implies o1[i] == o2[i] by {
            if i > 0 {
                assert(t1[i - 1] == o1[i]);
                assert(t2[i - 1] == o2[i]);
            }
        }
        assert(o1 =~= o2);
    }
}

/// Law: the canonical encoding is injective — two invocations that differ
/// in any field have different encodings, so (up to digest collisions)
/// different cache keys; and equal invocations trivially share one key.
#[verifier::rlimit(60)]
pub proof fn lemma_invocation_encoding_injective(
    t1: Seq<u8>,
    v1: Seq<u8>,
    g1: Seq<u8>,
    port1: u16,
    o1: Seq<Seq<u8>>,
    t2: Seq<u8>,
    v2: Seq<u8>,
    g2: Seq<u8>,
    port2: u16,
    o2: Seq<Seq<u8>>,
)
    requires
        invocation_wf(t1, v1, g1, o1),
        invocation_wf(t2, v2, g2, o2),
        spec_invocation_encoding(t1, v1, g1, port1, o1) == spec_invocation_encoding(
            t2,
            v2,
            g2,
            port2,
            o2,
        ),
    ensures
        t1 == t2,
        v1 == v2,
        g1 == g2,
        port1 == port2,
        o1 == o2,
{
    let rest1 = spec_lp(v1) + spec_lp(g1) + spec_enc32(port1 as int) + spec_enc32(o1.len() as int)
        + spec_enc_options(o1);
    let rest2 = spec_lp(v2) + spec_lp(g2) + spec_enc32(port2 as int) + spec_enc32(o2.len() as int)
        + spec_enc_options(o2);
    assert(spec_lp(t1) + rest1 =~= spec_invocation_encoding(t1, v1, g1, port1, o1));
    assert(spec_lp(t2) + rest2 =~= spec_invocation_encoding(t2, v2, g2, port2, o2));
    lemma_lp_framing(t1, rest1, t2, rest2);
    let rest1b = spec_lp(g1) + spec_enc32(port1 as int) + spec_enc32(o1.len() as int)
        + spec_enc_options(o1);
    let rest2b = spec_lp(g2) + spec_enc32(port2 as int) + spec_enc32(o2.len() as int)
        + spec_enc_options(o2);
    assert(spec_lp(v1) + rest1b =~= rest1);
    assert(spec_lp(v2) + rest2b =~= rest2);
    lemma_lp_framing(v1, rest1b, v2, rest2b);
    let rest1c = spec_enc32(port1 as int) + spec_enc32(o1.len() as int) + spec_enc_options(o1);
    let rest2c = spec_enc32(port2 as int) + spec_enc32(o2.len() as int) + spec_enc_options(o2);
    assert(spec_lp(g1) + rest1c =~= rest1b);
    assert(spec_lp(g2) + rest2c =~= rest2b);
    lemma_lp_framing(g1, rest1c, g2, rest2c);
    let rest1d = spec_enc32(o1.len() as int) + spec_enc_options(o1);
    let rest2d = spec_enc32(o2.len() as int) + spec_enc_options(o2);
    assert(spec_enc32(port1 as int) + rest1d =~= rest1c);
    assert(spec_enc32(port2 as int) + rest2d =~= rest2c);
    lemma_enc32_framing(port1 as int, rest1d, port2 as int, rest2d);
    lemma_enc32_framing(o1.len() as int, spec_enc_options(o1), o2.len() as int, spec_enc_options(o2));
    lemma_enc_options_injective(o1, o2);
}

/// Law: the cache key is deterministic — a pure function of the
/// invocation's fields, so two computations over equal fields always
/// yield the same key.
pub proof fn lemma_cache_key_deterministic(
    t1: Seq<u8>,
    v1: Seq<u8>,
    g1: Seq<u8>,
    port1: u16,
    o1: Seq<Seq<u8>>,
    t2: Seq<u8>,
    v2: Seq<u8>,
    g2: Seq<u8>,
    port2: u16,
    o2: Seq<Seq<u8>>,
)
    requires
        t1 == t2,
        v1 == v2,
        g1 == g2,
        port1 == port2,
        o1 == o2,
    ensures
        spec_cache_key(t1, v1, g1, port1, o1) == spec_cache_key(t2, v2, g2, port2, o2),
{
}

} // verus!
