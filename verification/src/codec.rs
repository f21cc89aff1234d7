use vstd::prelude::*;
use crate::param::ParameterSet;

verus! {

use vstd::arithmetic::power2::pow2;

/// The `w` low bits of `v` as a bit string, least-significant bit first —
/// the order in which the wire format lays a field's bits into the
/// stream.
pub open spec fn bits_of(v: int, w: int) -> Seq<bool>
    decreases w,
{
    if w <= 0 {
        Seq::empty()
    } else {
        seq![v % 2 == 1] + bits_of(v / 2, w - 1)
    }
}

/// The value a bit string denotes, reading the first bit as least
/// significant.
pub open spec fn val_of(s: Seq<bool>) -> int
    decreases s.len(),
{
    if s.len() == 0 {
        0
    } else {
        (if s.first() {
            1int
        } else {
            0
        }) + 2 * val_of(s.drop_first())
    }
}

/// A bit string denotes a value below two to its length.
pub proof fn lemma_val_of_bound(s: Seq<bool>)
    ensures
        0 <= val_of(s) < pow2(s.len() as nat),
    decreases s.len(),
{
    vstd::arithmetic::power2::lemma_pow2_pos(s.len() as nat);
    if s.len() > 0 {
        lemma_val_of_bound(s.drop_first());
        assert(pow2(s.len() as nat) == 2 * pow2((s.len() - 1) as nat)) by {
            vstd::arithmetic::power2::lemma_pow2_unfold(s.len() as nat);
        }
    }
}

/// Reading back the bits of a value in range recovers the value.
pub proof fn lemma_val_of_bits_of(v: int, w: int)
    requires
        w >= 0,
        0 <= v < pow2(w as nat),
    ensures
        bits_of(v, w).len() == w,
        val_of(bits_of(v, w)) == v,
    decreases w,
{
    if w > 0 {
        assert(pow2(w as nat) == 2 * pow2((w - 1) as nat)) by {
            vstd::arithmetic::power2::lemma_pow2_unfold(w as nat);
        }
        lemma_val_of_bits_of(v / 2, w - 1);
        let s = bits_of(v, w);
        assert(s.first() == (v % 2 == 1));
        assert(s.drop_first() =~= bits_of(v / 2, w - 1));
        vstd::arithmetic::div_mod::lemma_fundamental_div_mod(v, 2);
        assert(s.len() == w);
        assert(val_of(s) == (if s.first() {
            1int
        } else {
            0
        }) + 2 * val_of(s.drop_first()));
        assert(val_of(s.drop_first()) == v / 2);
        assert(v % 2 == 0 || v % 2 == 1);
        assert(val_of(s) == v % 2 + 2 * (v / 2));
    } else {
        vstd::arithmetic::power2::lemma2_to64();
        assert(v == 0);
        assert(bits_of(v, w) =~= Seq::<bool>::empty());
    }
}

/// Writing out the value a bit string denotes recovers the bit string.
pub proof fn lemma_bits_of_val_of(s: Seq<bool>)
    ensures
        bits_of(val_of(s), s.len() as int) =~= s,
    decreases s.len(),
{
    if s.len() > 0 {
        lemma_bits_of_val_of(s.drop_first());
        let v = val_of(s);
        lemma_val_of_bound(s.drop_first());
        assert(v % 2 == 1 <==> s.first()) by {
            if s.first() {
                assert(v == 1 + 2 * val_of(s.drop_first()));
            } else {
                assert(v == 2 * val_of(s.drop_first()));
            }
        }
        assert(v / 2 == val_of(s.drop_first())) by {
            if s.first() {
                assert(v == 2 * val_of(s.drop_first()) + 1);
            } else {
                assert(v == 2 * val_of(s.drop_first()) + 0);
            }
        }
        assert(bits_of(v, s.len() as int).drop_first() =~= bits_of(v / 2, s.len() - 1));
        assert(bits_of(v / 2, s.len() - 1) =~= s.drop_first());
    }
}

/// Appends the `w` low bits of `v`, least-significant first.
pub fn push_bits(bits: &mut Vec<bool>, v: u32, w: usize)
    requires
        w <= 32,
    ensures
        final(bits)@ == old(bits)@ + bits_of(v as int, w as int),
    decreases w,
{
    if w == 0 {
        proof {
            assert(old(bits)@ + bits_of(v as int, 0) =~= old(bits)@);
        }
    } else {
        bits.push(v % 2 == 1);
        push_bits(bits, v / 2, w - 1);
        proof {
            assert(old(bits)@ + bits_of(v as int, w as int) =~= (old(bits)@ + seq![
                v as int % 2 == 1,
            ]) + bits_of(v as int / 2, w as int - 1));
        }
    }
}

/// Reads `w` bits starting at `pos`, least-significant first.
pub fn read_bits(bits: &Vec<bool>, pos: usize, w: usize) -> (r: u32)
    requires
        w <= 32,
        pos + w <= bits@.len(),
    ensures
        r as int == val_of(bits@.subrange(pos as int, pos as int + w as int)),
    decreases w,
{
    if w == 0 {
        proof {
            assert(bits@.subrange(pos as int, pos as int) =~= Seq::<bool>::empty());
        }
        0
    } else {
        let total: usize = bits.len();
        proof {
            assert(pos + 1 <= total);
        }
        let b: u32 = if bits[pos] {
            1
        } else {
            0
        };
        let rest = read_bits(bits, pos + 1, w - 1);
        proof {
            let s = bits@.subrange(pos as int, pos as int + w as int);
            assert(s.first() == bits@[pos as int]);
            assert(s.drop_first() =~= bits@.subrange(pos as int + 1, pos as int + w as int));
            lemma_val_of_bound(s.drop_first());
            let wm: nat = (w - 1) as nat;
            if wm < 31 {
                vstd::arithmetic::power2::lemma_pow2_strictly_increases(wm, 31);
            }
            assert(pow2(wm) <= pow2(31));
            vstd::arithmetic::power2::lemma2_to64();
        }
        b + 2 * rest
    }
}

/// `k` zero bits.
pub open spec fn zeros(k: int) -> Seq<bool> {
    Seq::new(if k < 0 {
        0
    } else {
        k as nat
    }, |i: int| false)
}

/// A bit stream padded with zero bits out to `len` whole bytes.
pub open spec fn padded(bits: Seq<bool>, len: int) -> Seq<bool> {
    bits + zeros(8 * len - bits.len())
}

/// The `len` bytes a bit stream packs into: byte `j` holds stream bits
/// `8 j .. 8 j + 8`, least-significant bit first.
pub open spec fn stream_bytes(bits: Seq<bool>, len: int) -> Seq<u8> {
    Seq::new(
        if len < 0 {
            0
        } else {
            len as nat
        },
        |j: int| val_of(padded(bits, len).subrange(8 * j, 8 * j + 8)) as u8,
    )
}

/// The bit stream a byte string denotes, over its first `k` bytes.
pub open spec fn bytes_bits(bytes: Seq<u8>, k: int) -> Seq<bool>
    decreases k,
{
    if k <= 0 {
        Seq::empty()
    } else {
        bytes_bits(bytes, k - 1) + bits_of(bytes[k - 1] as int, 8)
    }
}

pub proof fn lemma_bytes_bits_len_pub(bytes: Seq<u8>, k: int)
    requires
        k <= bytes.len(),
    ensures
        bytes_bits(bytes, k).len() == 8 * (if k < 0 {
            0int
        } else {
            k
        }),
    decreases k,
{
    if k > 0 {
        lemma_bytes_bits_len_pub(bytes, k - 1);
        assert(bits_of(bytes[k - 1] as int, 8).len() == 8) by {
            lemma_bits_of_len(bytes[k - 1] as int, 8);
        }
    }
}

proof fn lemma_bits_of_len(v: int, w: int)
    requires
        w >= 0,
    ensures
        bits_of(v, w).len() == w,
    decreases w,
{
    if w > 0 {
        lemma_bits_of_len(v / 2, w - 1);
    }
}

/// Unpacking the bytes a bit stream packed into yields the stream, with
/// its zero padding.
pub proof fn lemma_stream_round_trip(bits: Seq<bool>, len: int, k: int)
    requires
        0 <= k <= len,
        bits.len() <= 8 * len,
    ensures
        bytes_bits(stream_bytes(bits, len), k) =~= padded(bits, len).take(8 * k),
    decreases k,
{
    let sb = stream_bytes(bits, len);
    let pb = padded(bits, len);
    if k > 0 {
        lemma_stream_round_trip(bits, len, k - 1);
        let chunk = pb.subrange(8 * (k - 1), 8 * k);
        lemma_val_of_bound(chunk);
        vstd::arithmetic::power2::lemma2_to64();
        assert(sb[k - 1] as int == val_of(chunk));
        lemma_bits_of_val_of(chunk);
        assert(bits_of(sb[k - 1] as int, 8) =~= chunk);
        assert(bytes_bits(sb, k) =~= pb.take(8 * (k - 1)) + chunk);
        assert(pb.take(8 * (k - 1)) + chunk =~= pb.take(8 * k));
    }
}

/// The concatenated fixed-width fields of one block, in order.
pub open spec fn block_bits(vals: Seq<int>, w: int, k: int) -> Seq<bool>
    decreases k,
{
    if k <= 0 {
        Seq::empty()
    } else {
        block_bits(vals, w, k - 1) + bits_of(vals[k - 1], w)
    }
}

pub proof fn lemma_block_bits_len(vals: Seq<int>, w: int, k: int)
    requires
        w >= 0,
        k >= 0,
    ensures
        block_bits(vals, w, k).len() == k * w,
    decreases k,
{
    if k > 0 {
        lemma_block_bits_len(vals, w, k - 1);
        lemma_bits_of_len(vals[k - 1], w);
        assert(k * w == (k - 1) * w + w) by (nonlinear_arith);
    } else {
        assert(k * w == 0) by (nonlinear_arith)
            requires
                k == 0,
        ;
    }
}

/// Field `j` of a block sits at bit offset `j * w` and holds the bits of
/// its value.
pub proof fn lemma_block_extract(vals: Seq<int>, w: int, k: int, j: int)
    requires
        w >= 0,
        0 <= j < k,
    ensures
        block_bits(vals, w, k).subrange(j * w, (j + 1) * w) =~= bits_of(vals[j], w),
    decreases k,
{
    lemma_block_bits_len(vals, w, k);
    lemma_block_bits_len(vals, w, k - 1);
    lemma_bits_of_len(vals[k - 1], w);
    assert((j + 1) * w == j * w + w) by (nonlinear_arith);
    if j == k - 1 {
        assert(block_bits(vals, w, k).subrange(j * w, (j + 1) * w) =~= bits_of(vals[j], w));
    } else {
        lemma_block_extract(vals, w, k - 1, j);
        assert((j + 1) * w <= (k - 1) * w) by (nonlinear_arith)
            requires
                j + 1 <= k - 1,
                w >= 0,
        ;
        assert(j * w >= 0) by (nonlinear_arith)
            requires
                j >= 0,
                w >= 0,
        ;
        assert(block_bits(vals, w, k).subrange(j * w, (j + 1) * w) =~= block_bits(
            vals,
            w,
            k - 1,
        ).subrange(j * w, (j + 1) * w));
    }
}

/// Packs a bit stream into `len` bytes, padding the tail with zero bits.
pub fn bits_to_bytes(bits: &Vec<bool>, len: usize) -> (out: Vec<u8>)
    requires
        bits@.len() <= 8 * len,
        len <= 0x100_0000,
    ensures
        out@ == stream_bytes(bits@, len as int),
{
    let ghost pb = padded(bits@, len as int);
    let total: usize = bits.len();
    let mut out: Vec<u8> = Vec::new();
    let mut j: usize = 0;
    while j < len
        invariant
            bits@.len() <= 8 * len,
            len <= 0x100_0000,
            total == bits@.len(),
            pb == padded(bits@, len as int),
            j <= len,
            out@.len() == j,
            forall|t: int| 0 <= t < j ==> out@[t] == stream_bytes(bits@, len as int)[t],
        decreases len - j,
    {
        let mut byte: u32 = 0;
        let mut k: usize = 8;
        while k > 0
            invariant
                bits@.len() <= 8 * len,
                len <= 0x100_0000,
                total == bits@.len(),
                pb == padded(bits@, len as int),
                j < len,
                k <= 8,
                byte as int == val_of(pb.subrange(8 * j + k, 8 * j + 8)),
                byte < 0x100,
            decreases k,
        {
            k -= 1;
            let pos = 8 * j + k;
            let b: bool = if pos < total {
                bits[pos]
            } else {
                false
            };
            proof {
                assert(pb.len() == 8 * len);
                assert(b == pb[pos as int]);
                let s = pb.subrange(8 * j + k, 8 * j + 8);
                assert(s.first() == pb[8 * j + k]);
                assert(s.drop_first() =~= pb.subrange(8 * j + k + 1, 8 * j + 8));
                lemma_val_of_bound(s);
            }
            byte = (if b {
                1
            } else {
                0
            }) + 2 * byte;
            proof {
                let s = pb.subrange(8 * j + k, 8 * j + 8);
                lemma_val_of_bound(s.drop_first());
                vstd::arithmetic::power2::lemma2_to64();
            }
        }
        out.push(byte as u8);
        proof {
            assert(out@[j as int] == stream_bytes(bits@, len as int)[j as int]);
        }
        j += 1;
    }
    proof {
        assert(out@ =~= stream_bytes(bits@, len as int));
    }
    out
}

/// Unpacks a byte string into its bit stream.
pub fn bytes_to_bits(bytes: &Vec<u8>) -> (out: Vec<bool>)
    ensures
        out@ == bytes_bits(bytes@, bytes@.len() as int),
{
    let mut out: Vec<bool> = Vec::new();
    let mut j: usize = 0;
    while j < bytes.len()
        invariant
            j <= bytes@.len(),
            out@ == bytes_bits(bytes@, j as int),
        decreases bytes@.len() - j,
    {
        let b = bytes[j];
        push_bits(&mut out, b as u32, 8);
        j += 1;
    }
    out
}

/// Two to the `k`-th power, as a 64-bit value.
pub fn pow2_i64(k: usize) -> (r: i64)
    requires
        k <= 62,
    ensures
        r == pow2(k as nat),
{
    proof {
        vstd::arithmetic::power2::lemma2_to64();
        vstd::arithmetic::power2::lemma2_to64_rest();
    }
    let mut r: i64 = 1;
    let mut i: usize = 0;
    while i < k
        invariant
            i <= k,
            k <= 62,
            r == pow2(i as nat),
        decreases k - i,
    {
        proof {
            vstd::arithmetic::power2::lemma2_to64();
            vstd::arithmetic::power2::lemma2_to64_rest();
            if (i as nat) < 61 {
                vstd::arithmetic::power2::lemma_pow2_strictly_increases(i as nat, 61);
            }
            vstd::arithmetic::power2::lemma_pow2_unfold((i + 1) as nat);
        }
        r = 2 * r;
        i += 1;
    }
    r
}

/// The field values a coefficient vector stores: each coefficient plus
/// the offset-binary bias.
pub open spec fn offs(v: Seq<i32>, off: int) -> Seq<int> {
    v.map_values(|x: i32| x as int + off)
}

/// Appends one block of equal-width fields: each coefficient plus `off`,
/// `w` bits wide.  Returns `false`, leaving the stream in an unspecified
/// state, if some biased value does not fit in `w` bits.
pub fn push_block(bits: &mut Vec<bool>, vals: &Vec<i32>, off: i64, w: usize) -> (ok: bool)
    requires
        1 <= w <= 30,
        0 <= off <= 0x2000_0000,
        vals@.len() <= 1024,
    ensures
        ok <==> forall|j: int|
            0 <= j < vals@.len() ==> 0 <= #[trigger] offs(vals@, off as int)[j] < pow2(w as nat),
        ok ==> final(bits)@ == old(bits)@ + block_bits(
            offs(vals@, off as int),
            w as int,
            vals@.len() as int,
        ),
{
    let lim = pow2_i64(w);
    let mut j: usize = 0;
    while j < vals.len()
        invariant
            1 <= w <= 30,
            0 <= off <= 0x2000_0000,
            vals@.len() <= 1024,
            lim == pow2(w as nat),
            j <= vals@.len(),
            bits@ == old(bits)@ + block_bits(offs(vals@, off as int), w as int, j as int),
            forall|t: int|
                0 <= t < j ==> 0 <= #[trigger] offs(vals@, off as int)[t] < pow2(w as nat),
        decreases vals@.len() - j,
    {
        let sv: i64 = vals[j] as i64 + off;
        if sv < 0 || sv >= lim {
            proof {
                assert(!(0 <= offs(vals@, off as int)[j as int] < pow2(w as nat)));
            }
            return false;
        }
        proof {
            vstd::arithmetic::power2::lemma2_to64();
            if (w as nat) < 31 {
                vstd::arithmetic::power2::lemma_pow2_strictly_increases(w as nat, 31);
            }
        }
        push_bits(bits, sv as u32, w);
        proof {
            assert(offs(vals@, off as int)[j as int] == sv as u32 as int);
            assert(bits@ =~= old(bits)@ + block_bits(
                offs(vals@, off as int),
                w as int,
                j as int + 1,
            ));
        }
        j += 1;
    }
    true
}

/// Reads one block of equal-width fields starting at bit `pos`,
/// subtracting the offset-binary bias from each.
pub fn read_block(bits: &Vec<bool>, pos: usize, w: usize, count: usize, off: i64) -> (out: Vec<
    i32,
>)
    requires
        1 <= w <= 30,
        0 <= off <= 0x2000_0000,
        count <= 1024,
        pos + count * w <= bits@.len(),
        pos <= 0x1000_0000,
    ensures
        out@.len() == count,
        forall|j: int|
            0 <= j < count ==> #[trigger] out@[j] as int == val_of(
                bits@.subrange(pos + j * w, pos + (j + 1) * w),
            ) - off,
{
    let total: usize = bits.len();
    let mut out: Vec<i32> = Vec::new();
    let mut j: usize = 0;
    while j < count
        invariant
            1 <= w <= 30,
            0 <= off <= 0x2000_0000,
            count <= 1024,
            pos + count * w <= bits@.len(),
            pos <= 0x1000_0000,
            total == bits@.len(),
            j <= count,
            out@.len() == j,
            forall|t: int|
                0 <= t < j ==> #[trigger] out@[t] as int == val_of(
                    bits@.subrange(pos + t * w, pos + (t + 1) * w),
                ) - off,
        decreases count - j,
    {
        proof {
            assert(j * w + w == (j + 1) * w) by (nonlinear_arith);
            assert(0 <= j * w && (j + 1) * w <= count * w && j * w <= 1024 * 30)
                by (nonlinear_arith)
                requires
                    0 <= j,
                    j + 1 <= count,
                    count <= 1024,
                    w >= 1,
                    w <= 30,
            ;
            assert(pos + (j + 1) * w <= total);
        }
        let r = read_bits(bits, pos + j * w, w);
        proof {
            let sub = bits@.subrange(pos + j * w as int, pos + (j + 1) * w as int);
            lemma_val_of_bound(sub);
            vstd::arithmetic::power2::lemma2_to64();
            if (w as nat) < 31 {
                vstd::arithmetic::power2::lemma_pow2_strictly_increases(w as nat, 31);
            }
        }
        out.push((r as i64 - off) as i32);
        j += 1;
    }
    out
}

/// The bit stream of a serialized private key: the biased `f` block, the
/// biased `g` block, then the unsigned `a` block.
pub open spec fn privatekey_bits_spec(
    f: Seq<i32>,
    g: Seq<i32>,
    a: Seq<i32>,
    ps: ParameterSet,
) -> Seq<bool> {
    block_bits(offs(f, pow2((ps.f_bits - 1) as nat) as int), ps.f_bits as int, ps.n as int)
        + block_bits(offs(g, pow2((ps.g_bits - 1) as nat) as int), ps.g_bits as int, ps.n as int)
        + block_bits(offs(a, 0), ps.a_bits as int, ps.n as int)
}

/// Whether every coefficient of a private key fits its serialized field.
pub open spec fn privatekey_in_range(f: Seq<i32>, g: Seq<i32>, a: Seq<i32>, ps: ParameterSet) -> bool {
    &&& forall|j: int|
        0 <= j < ps.n ==> 0 <= (#[trigger] f[j]) + pow2((ps.f_bits - 1) as nat) < pow2(
            ps.f_bits as nat,
        )
    &&& forall|j: int|
        0 <= j < ps.n ==> 0 <= (#[trigger] g[j]) + pow2((ps.g_bits - 1) as nat) < pow2(
            ps.g_bits as nat,
        )
    &&& forall|j: int| 0 <= j < ps.n ==> 0 <= ((#[trigger] a[j]) as int) < pow2(ps.a_bits as nat)
}

/// The serialized bytes of a private key.
pub open spec fn encode_privatekey_spec(
    f: Seq<i32>,
    g: Seq<i32>,
    a: Seq<i32>,
    ps: ParameterSet,
) -> Seq<u8> {
    stream_bytes(privatekey_bits_spec(f, g, a, ps), ps.privatekey_length_spec())
}

/// The value stored `w` bits wide at bit `pos` of a serialized buffer,
/// with the offset-binary bias `off` removed.
pub open spec fn decoded_field(bytes: Seq<u8>, pos: int, w: int, off: int) -> int {
    val_of(bytes_bits(bytes, bytes.len() as int).subrange(pos, pos + w)) - off
}

/// Multiplying by a width and dividing by eight is exact when the count
/// is a multiple of eight.
proof fn lemma_eight_div(w: int, n: int)
    requires
        n % 8 == 0,
        w >= 0,
        n >= 0,
    ensures
        8 * (w * n / 8) == w * n,
        w * n >= 0,
{
    let n8 = n / 8;
    vstd::arithmetic::div_mod::lemma_fundamental_div_mod(n, 8);
    assert(w * n == 8 * (w * n8)) by (nonlinear_arith)
        requires
            n == 8 * n8,
    ;
    assert(w * n8 >= 0) by (nonlinear_arith)
        requires
            w >= 0,
            n8 >= 0,
    ;
    vstd::arithmetic::div_mod::lemma_div_multiples_vanish(w * n8, 8);
    assert(w * n / 8 == w * n8);
}

/// One block field read back from the packed byte stream is the value
/// that was written.
proof fn lemma_block_in_stream(
    allbits: Seq<bool>,
    len: int,
    base: int,
    vals: Seq<int>,
    w: int,
    count: int,
    j: int,
)
    requires
        w >= 1,
        0 <= j < count,
        base >= 0,
        allbits.len() <= 8 * len,
        base + count * w <= allbits.len(),
        allbits.subrange(base, base + count * w) == block_bits(vals, w, count),
        0 <= vals[j] < pow2(w as nat),
    ensures
        val_of(
            bytes_bits(stream_bytes(allbits, len), len).subrange(
                base + j * w,
                base + (j + 1) * w,
            ),
        ) == vals[j],
{
    lemma_stream_round_trip(allbits, len, len);
    lemma_block_bits_len(vals, w, count);
    lemma_block_extract(vals, w, count, j);
    lemma_bits_of_len(vals[j], w);
    assert(0 <= j * w && (j + 1) * w <= count * w && j * w + w == (j + 1) * w)
        by (nonlinear_arith)
        requires
            0 <= j,
            j + 1 <= count,
            w >= 1,
    ;
    let pb = padded(allbits, len);
    let bb = bytes_bits(stream_bytes(allbits, len), len);
    assert(pb.take(8 * len) =~= pb);
    assert(bb =~= pb);
    assert forall|t: int| 0 <= t < w implies bb.subrange(base + j * w, base + (j + 1) * w)[t]
        == bits_of(vals[j], w)[t] by {
        assert(bb.subrange(base + j * w, base + (j + 1) * w)[t] == pb[base + j * w + t]);
        assert(pb[base + j * w + t] == allbits[base + j * w + t]);
        assert(allbits[base + j * w + t] == allbits.subrange(base, base + count * w)[j * w + t]);
        assert(block_bits(vals, w, count)[j * w + t] == block_bits(vals, w, count).subrange(
            j * w,
            (j + 1) * w,
        )[t]);
    }
    assert(bb.subrange(base + j * w, base + (j + 1) * w) =~= bits_of(vals[j], w));
    lemma_val_of_bits_of(vals[j], w);
}

/// The integer values of a challenge index list.
pub open spec fn idx_ints(c: Seq<usize>) -> Seq<int> {
    c.map_values(|u: usize| u as int)
}

/// The bit stream of a serialized public key: the unsigned `a` block.
pub open spec fn publickey_bits_spec(a: Seq<i32>, ps: ParameterSet) -> Seq<bool> {
    block_bits(offs(a, 0), ps.a_bits as int, ps.n as int)
}

/// Whether every coefficient of a public key fits its serialized field.
pub open spec fn publickey_in_range(a: Seq<i32>, ps: ParameterSet) -> bool {
    forall|j: int| 0 <= j < ps.n ==> 0 <= ((#[trigger] a[j]) as int) < pow2(ps.a_bits as nat)
}

/// The serialized bytes of a public key.
pub open spec fn encode_publickey_spec(a: Seq<i32>, ps: ParameterSet) -> Seq<u8> {
    stream_bytes(publickey_bits_spec(a, ps), ps.publickey_length_spec())
}

/// The bit stream of a serialized signature: the biased `t` block, the
/// biased `z` block, then the unsigned challenge index block.
pub open spec fn signature_bits_spec(
    t: Seq<i32>,
    z: Seq<i32>,
    c: Seq<usize>,
    ps: ParameterSet,
) -> Seq<bool> {
    block_bits(offs(t, pow2((ps.t_bits - 1) as nat) as int), ps.t_bits as int, ps.n as int)
        + block_bits(offs(z, pow2((ps.z_bits - 1) as nat) as int), ps.z_bits as int, ps.n as int)
        + block_bits(idx_ints(c), ps.cidx_bits as int, ps.kappa as int)
}

/// Whether every component of a signature fits its serialized field.
pub open spec fn signature_in_range(t: Seq<i32>, z: Seq<i32>, c: Seq<usize>, ps: ParameterSet) -> bool {
    &&& forall|j: int|
        0 <= j < ps.n ==> 0 <= (#[trigger] t[j]) + pow2((ps.t_bits - 1) as nat) < pow2(
            ps.t_bits as nat,
        )
    &&& forall|j: int|
        0 <= j < ps.n ==> 0 <= (#[trigger] z[j]) + pow2((ps.z_bits - 1) as nat) < pow2(
            ps.z_bits as nat,
        )
    &&& forall|j: int| 0 <= j < ps.kappa ==> ((#[trigger] c[j]) as int) < pow2(ps.cidx_bits as nat)
}

/// The serialized bytes of a signature.
pub open spec fn encode_signature_spec(
    t: Seq<i32>,
    z: Seq<i32>,
    c: Seq<usize>,
    ps: ParameterSet,
) -> Seq<u8> {
    stream_bytes(signature_bits_spec(t, z, c, ps), ps.signature_length_spec())
}

/// Round trip of the private-key codec: whenever every coefficient fits
/// its field — so encoding succeeds — every field decoded from the
/// encoded buffer is the original coefficient.
pub proof fn lemma_privatekey_round_trip(f: Seq<i32>, g: Seq<i32>, a: Seq<i32>, ps: ParameterSet)
    requires
        ps.wf(),
        f.len() == ps.n,
        g.len() == ps.n,
        a.len() == ps.n,
        privatekey_in_range(f, g, a, ps),
    ensures
        encode_privatekey_spec(f, g, a, ps).len() == ps.privatekey_length_spec(),
        forall|j: int|
            0 <= j < ps.n ==> #[trigger] decoded_field(
                encode_privatekey_spec(f, g, a, ps),
                j * ps.f_bits,
                ps.f_bits as int,
                pow2((ps.f_bits - 1) as nat) as int,
            ) == f[j],
        forall|j: int|
            0 <= j < ps.n ==> #[trigger] decoded_field(
                encode_privatekey_spec(f, g, a, ps),
                ps.n * ps.f_bits + j * ps.g_bits,
                ps.g_bits as int,
                pow2((ps.g_bits - 1) as nat) as int,
            ) == g[j],
        forall|j: int|
            0 <= j < ps.n ==> #[trigger] decoded_field(
                encode_privatekey_spec(f, g, a, ps),
                ps.n * ps.f_bits + ps.n * ps.g_bits + j * ps.a_bits,
                ps.a_bits as int,
                0,
            ) == a[j],
{
    let n = ps.n as int;
    let fb = ps.f_bits as int;
    let gb = ps.g_bits as int;
    let ab = ps.a_bits as int;
    let off_f = pow2((ps.f_bits - 1) as nat) as int;
    let off_g = pow2((ps.g_bits - 1) as nat) as int;
    let b1 = block_bits(offs(f, off_f), fb, n);
    let b2 = block_bits(offs(g, off_g), gb, n);
    let b3 = block_bits(offs(a, 0), ab, n);
    let allbits = privatekey_bits_spec(f, g, a, ps);
    let len = ps.privatekey_length_spec();
    lemma_block_bits_len(offs(f, off_f), fb, n);
    lemma_block_bits_len(offs(g, off_g), gb, n);
    lemma_block_bits_len(offs(a, 0), ab, n);
    lemma_eight_div(fb, n);
    lemma_eight_div(gb, n);
    lemma_eight_div(ab, n);
    assert(allbits.len() == n * fb + n * gb + n * ab);
    assert(8 * len == fb * n + gb * n + ab * n);
    assert(fb * n == n * fb && gb * n == n * gb && ab * n == n * ab) by (nonlinear_arith);
    let enc = encode_privatekey_spec(f, g, a, ps);
    assert(enc.len() == len);
    assert(allbits.subrange(0, n * fb) =~= b1);
    assert(allbits.subrange(n * fb, n * fb + n * gb) =~= b2);
    assert(allbits.subrange(n * fb + n * gb, n * fb + n * gb + n * ab) =~= b3);
    assert forall|j: int| 0 <= j < ps.n implies #[trigger] decoded_field(
        enc,
        j * ps.f_bits,
        fb,
        off_f,
    ) == f[j] by {
        assert(offs(f, off_f)[j] == f[j] + off_f);
        assert(j * fb + fb == (j + 1) * fb) by (nonlinear_arith);
        assert(0 <= offs(f, off_f)[j] < pow2(ps.f_bits as nat));
        lemma_block_in_stream(allbits, len, 0, offs(f, off_f), fb, n, j);
        assert(bytes_bits(enc, enc.len() as int) == bytes_bits(stream_bytes(allbits, len), len));
    }
    assert forall|j: int| 0 <= j < ps.n implies #[trigger] decoded_field(
        enc,
        ps.n * ps.f_bits + j * ps.g_bits,
        gb,
        off_g,
    ) == g[j] by {
        assert(offs(g, off_g)[j] == g[j] + off_g);
        assert(j * gb + gb == (j + 1) * gb) by (nonlinear_arith);
        assert(0 <= offs(g, off_g)[j] < pow2(ps.g_bits as nat));
        lemma_block_in_stream(allbits, len, n * fb, offs(g, off_g), gb, n, j);
        assert(bytes_bits(enc, enc.len() as int) == bytes_bits(stream_bytes(allbits, len), len));
    }
    assert forall|j: int| 0 <= j < ps.n implies #[trigger] decoded_field(
        enc,
        ps.n * ps.f_bits + ps.n * ps.g_bits + j * ps.a_bits,
        ab,
        0,
    ) == a[j] by {
        assert(offs(a, 0)[j] == a[j] + 0);
        assert(j * ab + ab == (j + 1) * ab) by (nonlinear_arith);
        assert(0 <= offs(a, 0)[j] < pow2(ps.a_bits as nat));
        lemma_block_in_stream(allbits, len, n * fb + n * gb, offs(a, 0), ab, n, j);
        assert(bytes_bits(enc, enc.len() as int) == bytes_bits(stream_bytes(allbits, len), len));
    }
}

/// Round trip of the public-key codec.
pub proof fn lemma_publickey_round_trip(a: Seq<i32>, ps: ParameterSet)
    requires
        ps.wf(),
        a.len() == ps.n,
        publickey_in_range(a, ps),
    ensures
        encode_publickey_spec(a, ps).len() == ps.publickey_length_spec(),
        forall|j: int|
            0 <= j < ps.n ==> #[trigger] decoded_field(
                encode_publickey_spec(a, ps),
                j * ps.a_bits,
                ps.a_bits as int,
                0,
            ) == a[j],
{
    let n = ps.n as int;
    let ab = ps.a_bits as int;
    let allbits = publickey_bits_spec(a, ps);
    let len = ps.publickey_length_spec();
    lemma_block_bits_len(offs(a, 0), ab, n);
    lemma_eight_div(ab, n);
    assert(ab * n == n * ab) by (nonlinear_arith);
    let enc = encode_publickey_spec(a, ps);
    assert(allbits.subrange(0, n * ab) =~= allbits);
    assert forall|j: int| 0 <= j < ps.n implies #[trigger] decoded_field(
        enc,
        j * ps.a_bits,
        ab,
        0,
    ) == a[j] by {
        assert(offs(a, 0)[j] == a[j] + 0);
        assert(j * ab + ab == (j + 1) * ab) by (nonlinear_arith);
        assert(0 <= offs(a, 0)[j] < pow2(ps.a_bits as nat));
        lemma_block_in_stream(allbits, len, 0, offs(a, 0), ab, n, j);
        assert(bytes_bits(enc, enc.len() as int) == bytes_bits(stream_bytes(allbits, len), len));
    }
}

/// Round trip of the signature codec.
pub proof fn lemma_signature_round_trip(t: Seq<i32>, z: Seq<i32>, c: Seq<usize>, ps: ParameterSet)
    requires
        ps.wf(),
        t.len() == ps.n,
        z.len() == ps.n,
        c.len() == ps.kappa,
        signature_in_range(t, z, c, ps),
    ensures
        encode_signature_spec(t, z, c, ps).len() == ps.signature_length_spec(),
        forall|j: int|
            0 <= j < ps.n ==> #[trigger] decoded_field(
                encode_signature_spec(t, z, c, ps),
                j * ps.t_bits,
                ps.t_bits as int,
                pow2((ps.t_bits - 1) as nat) as int,
            ) == t[j],
        forall|j: int|
            0 <= j < ps.n ==> #[trigger] decoded_field(
                encode_signature_spec(t, z, c, ps),
                ps.n * ps.t_bits + j * ps.z_bits,
                ps.z_bits as int,
                pow2((ps.z_bits - 1) as nat) as int,
            ) == z[j],
        forall|j: int|
            0 <= j < ps.kappa ==> #[trigger] decoded_field(
                encode_signature_spec(t, z, c, ps),
                ps.n * ps.t_bits + ps.n * ps.z_bits + j * ps.cidx_bits,
                ps.cidx_bits as int,
                0,
            ) == c[j] as int,
{
    let n = ps.n as int;
    let tb = ps.t_bits as int;
    let zb = ps.z_bits as int;
    let cb = ps.cidx_bits as int;
    let kap = ps.kappa as int;
    let off_t = pow2((ps.t_bits - 1) as nat) as int;
    let off_z = pow2((ps.z_bits - 1) as nat) as int;
    let b1 = block_bits(offs(t, off_t), tb, n);
    let b2 = block_bits(offs(z, off_z), zb, n);
    let b3 = block_bits(idx_ints(c), cb, kap);
    let allbits = signature_bits_spec(t, z, c, ps);
    let len = ps.signature_length_spec();
    lemma_block_bits_len(offs(t, off_t), tb, n);
    lemma_block_bits_len(offs(z, off_z), zb, n);
    lemma_block_bits_len(idx_ints(c), cb, kap);
    lemma_eight_div(tb, n);
    lemma_eight_div(zb, n);
    assert(tb * n == n * tb && zb * n == n * zb) by (nonlinear_arith);
    vstd::arithmetic::div_mod::lemma_fundamental_div_mod(cb * kap, 8);
    vstd::arithmetic::div_mod::lemma_mod_bound(cb * kap, 8);
    vstd::arithmetic::div_mod::lemma_mod_bound(cb * kap / 8, 4);
    assert(cb * kap >= 0) by (nonlinear_arith)
        requires
            cb >= 0,
            kap >= 0,
    ;
    vstd::arithmetic::div_mod::lemma_div_pos_is_pos(cb * kap, 8);
    assert(cb * kap == kap * cb) by (nonlinear_arith);
    assert(allbits.len() == n * tb + n * zb + kap * cb);
    assert(8 * len == n * tb + n * zb + 8 * (cb * kap / 8) + 8 * (4 - (cb * kap / 8) % 4));
    assert(allbits.len() <= 8 * len);
    let enc = encode_signature_spec(t, z, c, ps);
    assert(enc.len() == len);
    assert(allbits.subrange(0, n * tb) =~= b1);
    assert(allbits.subrange(n * tb, n * tb + n * zb) =~= b2);
    assert(allbits.subrange(n * tb + n * zb, n * tb + n * zb + kap * cb) =~= b3);
    assert forall|j: int| 0 <= j < ps.n implies #[trigger] decoded_field(
        enc,
        j * ps.t_bits,
        tb,
        off_t,
    ) == t[j] by {
        assert(offs(t, off_t)[j] == t[j] + off_t);
        assert(j * tb + tb == (j + 1) * tb) by (nonlinear_arith);
        assert(0 <= offs(t, off_t)[j] < pow2(ps.t_bits as nat));
        lemma_block_in_stream(allbits, len, 0, offs(t, off_t), tb, n, j);
        assert(bytes_bits(enc, enc.len() as int) == bytes_bits(stream_bytes(allbits, len), len));
    }
    assert forall|j: int| 0 <= j < ps.n implies #[trigger] decoded_field(
        enc,
        ps.n * ps.t_bits + j * ps.z_bits,
        zb,
        off_z,
    ) == z[j] by {
        assert(offs(z, off_z)[j] == z[j] + off_z);
        assert(j * zb + zb == (j + 1) * zb) by (nonlinear_arith);
        assert(0 <= offs(z, off_z)[j] < pow2(ps.z_bits as nat));
        lemma_block_in_stream(allbits, len, n * tb, offs(z, off_z), zb, n, j);
        assert(bytes_bits(enc, enc.len() as int) == bytes_bits(stream_bytes(allbits, len), len));
    }
    assert forall|j: int| 0 <= j < ps.kappa implies #[trigger] decoded_field(
        enc,
        ps.n * ps.t_bits + ps.n * ps.z_bits + j * ps.cidx_bits,
        cb,
        0,
    ) == c[j] as int by {
        assert(idx_ints(c)[j] == c[j] as int);
        assert(j * cb + cb == (j + 1) * cb) by (nonlinear_arith);
        assert(0 <= idx_ints(c)[j] < pow2(ps.cidx_bits as nat));
        lemma_block_in_stream(allbits, len, n * tb + n * zb, idx_ints(c), cb, kap, j);
        assert(bytes_bits(enc, enc.len() as int) == bytes_bits(stream_bytes(allbits, len), len));
    }
}

/// Bit-layout arithmetic of the private-key buffer: the three blocks
/// fill the buffer exactly.
pub proof fn lemma_privatekey_layout(ps: ParameterSet)
    requires
        ps.wf(),
    ensures
        8 * ps.privatekey_length_spec() == ps.n * ps.f_bits + ps.n * ps.g_bits + ps.n
            * ps.a_bits,
        ps.n * ps.f_bits <= 0x10_0000,
        ps.n * ps.g_bits <= 0x10_0000,
        ps.n * ps.a_bits <= 0x10_0000,
        0 <= ps.privatekey_length_spec() <= 0x100_0000,
{
    let n = ps.n as int;
    lemma_eight_div(ps.f_bits as int, n);
    lemma_eight_div(ps.g_bits as int, n);
    lemma_eight_div(ps.a_bits as int, n);
    assert(ps.f_bits * n == n * ps.f_bits && ps.g_bits * n == n * ps.g_bits && ps.a_bits * n == n
        * ps.a_bits) by (nonlinear_arith);
    assert(n * ps.f_bits <= 512 * 30 && n * ps.g_bits <= 512 * 30 && n * ps.a_bits <= 512 * 30)
        by (nonlinear_arith)
        requires
            n <= 512,
            ps.f_bits <= 30,
            ps.g_bits <= 30,
            ps.a_bits <= 30,
            n >= 0,
            ps.f_bits >= 0,
            ps.g_bits >= 0,
            ps.a_bits >= 0,
    ;
}

/// The private-key bit stream is exactly as long as its buffer.
pub proof fn lemma_privatekey_stream_len(f: Seq<i32>, g: Seq<i32>, a: Seq<i32>, ps: ParameterSet)
    requires
        ps.wf(),
        f.len() == ps.n,
        g.len() == ps.n,
        a.len() == ps.n,
    ensures
        privatekey_bits_spec(f, g, a, ps).len() == 8 * ps.privatekey_length_spec(),
{
    let n = ps.n as int;
    lemma_block_bits_len(offs(f, pow2((ps.f_bits - 1) as nat) as int), ps.f_bits as int, n);
    lemma_block_bits_len(offs(g, pow2((ps.g_bits - 1) as nat) as int), ps.g_bits as int, n);
    lemma_block_bits_len(offs(a, 0), ps.a_bits as int, n);
    lemma_privatekey_layout(ps);
}

/// Bit-layout arithmetic of the public-key buffer.
pub proof fn lemma_publickey_layout(ps: ParameterSet)
    requires
        ps.wf(),
    ensures
        8 * ps.publickey_length_spec() == ps.n * ps.a_bits,
        ps.n * ps.a_bits <= 0x10_0000,
        0 <= ps.publickey_length_spec() <= 0x100_0000,
{
    let n = ps.n as int;
    lemma_eight_div(ps.a_bits as int, n);
    assert(ps.a_bits * n == n * ps.a_bits) by (nonlinear_arith);
    assert(n * ps.a_bits <= 512 * 30) by (nonlinear_arith)
        requires
            n <= 512,
            ps.a_bits <= 30,
            n >= 0,
            ps.a_bits >= 0,
    ;
}

/// The public-key bit stream is exactly as long as its buffer.
pub proof fn lemma_publickey_stream_len(a: Seq<i32>, ps: ParameterSet)
    requires
        ps.wf(),
        a.len() == ps.n,
    ensures
        publickey_bits_spec(a, ps).len() == 8 * ps.publickey_length_spec(),
{
    lemma_block_bits_len(offs(a, 0), ps.a_bits as int, ps.n as int);
    lemma_publickey_layout(ps);
}

/// Bit-layout arithmetic of the signature buffer: the three blocks fit,
/// with zero padding up to the four-byte-aligned length.
pub proof fn lemma_signature_layout(ps: ParameterSet)
    requires
        ps.wf(),
    ensures
        ps.n * ps.t_bits + ps.n * ps.z_bits + ps.kappa * ps.cidx_bits <= 8
            * ps.signature_length_spec(),
        ps.n * ps.t_bits <= 0x10_0000,
        ps.n * ps.z_bits <= 0x10_0000,
        ps.kappa * ps.cidx_bits <= 0x10_0000,
        0 <= ps.signature_length_spec() <= 0x100_0000,
{
    let n = ps.n as int;
    let kap = ps.kappa as int;
    let cb = ps.cidx_bits as int;
    lemma_eight_div(ps.t_bits as int, n);
    lemma_eight_div(ps.z_bits as int, n);
    assert(ps.t_bits * n == n * ps.t_bits && ps.z_bits * n == n * ps.z_bits && cb * kap == kap
        * cb) by (nonlinear_arith);
    vstd::arithmetic::div_mod::lemma_fundamental_div_mod(cb * kap, 8);
    vstd::arithmetic::div_mod::lemma_mod_bound(cb * kap, 8);
    assert(cb * kap >= 0 && cb * kap <= 64 * 30) by (nonlinear_arith)
        requires
            cb >= 0,
            kap >= 0,
            cb <= 30,
            kap <= 64,
    ;
    vstd::arithmetic::div_mod::lemma_div_pos_is_pos(cb * kap, 8);
    vstd::arithmetic::div_mod::lemma_mod_bound(cb * kap / 8, 4);
    assert(n * ps.t_bits <= 512 * 30 && n * ps.z_bits <= 512 * 30) by (nonlinear_arith)
        requires
            n <= 512,
            ps.t_bits <= 30,
            ps.z_bits <= 30,
            n >= 0,
            ps.t_bits >= 0,
            ps.z_bits >= 0,
    ;
}

/// The signature bit stream fits its buffer.
pub proof fn lemma_signature_stream_len(t: Seq<i32>, z: Seq<i32>, c: Seq<usize>, ps: ParameterSet)
    requires
        ps.wf(),
        t.len() == ps.n,
        z.len() == ps.n,
        c.len() == ps.kappa,
    ensures
        signature_bits_spec(t, z, c, ps).len() == ps.n * ps.t_bits + ps.n * ps.z_bits + ps.kappa
            * ps.cidx_bits,
        signature_bits_spec(t, z, c, ps).len() <= 8 * ps.signature_length_spec(),
{
    let n = ps.n as int;
    lemma_block_bits_len(offs(t, pow2((ps.t_bits - 1) as nat) as int), ps.t_bits as int, n);
    lemma_block_bits_len(offs(z, pow2((ps.z_bits - 1) as nat) as int), ps.z_bits as int, n);
    lemma_block_bits_len(idx_ints(c), ps.cidx_bits as int, ps.kappa as int);
    lemma_signature_layout(ps);
}

/// Appends one block of unsigned challenge indices, `w` bits wide each.
/// Returns `false`, leaving the stream in an unspecified state, if some
/// index does not fit in `w` bits.
pub fn push_idx_block(bits: &mut Vec<bool>, vals: &Vec<usize>, w: usize) -> (ok: bool)
    requires
        1 <= w <= 30,
        vals@.len() <= 1024,
    ensures
        ok <==> forall|j: int|
            0 <= j < vals@.len() ==> (#[trigger] idx_ints(vals@)[j]) < pow2(w as nat),
        ok ==> final(bits)@ == old(bits)@ + block_bits(
            idx_ints(vals@),
            w as int,
            vals@.len() as int,
        ),
{
    let lim64 = pow2_i64(w);
    let mut j: usize = 0;
    while j < vals.len()
        invariant
            1 <= w <= 30,
            vals@.len() <= 1024,
            lim64 == pow2(w as nat),
            j <= vals@.len(),
            bits@ == old(bits)@ + block_bits(idx_ints(vals@), w as int, j as int),
            forall|t: int| 0 <= t < j ==> (#[trigger] idx_ints(vals@)[t]) < pow2(w as nat),
        decreases vals@.len() - j,
    {
        let v = vals[j];
        if v as u64 >= lim64 as u64 {
            proof {
                assert(!(idx_ints(vals@)[j as int] < pow2(w as nat)));
            }
            return false;
        }
        proof {
            vstd::arithmetic::power2::lemma2_to64();
            if (w as nat) < 31 {
                vstd::arithmetic::power2::lemma_pow2_strictly_increases(w as nat, 31);
            }
        }
        push_bits(bits, v as u32, w);
        proof {
            assert(idx_ints(vals@)[j as int] == v as u32 as int);
            assert(bits@ =~= old(bits)@ + block_bits(idx_ints(vals@), w as int, j as int + 1));
        }
        j += 1;
    }
    true
}

/// Reads one block of unsigned challenge indices starting at bit `pos`.
pub fn read_idx_block(bits: &Vec<bool>, pos: usize, w: usize, count: usize) -> (out: Vec<usize>)
    requires
        1 <= w <= 30,
        count <= 1024,
        pos + count * w <= bits@.len(),
        pos <= 0x1000_0000,
    ensures
        out@.len() == count,
        forall|j: int|
            0 <= j < count ==> #[trigger] out@[j] as int == val_of(
                bits@.subrange(pos + j * w, pos + (j + 1) * w),
            ),
{
    let total: usize = bits.len();
    let mut out: Vec<usize> = Vec::new();
    let mut j: usize = 0;
    while j < count
        invariant
            1 <= w <= 30,
            count <= 1024,
            pos + count * w <= bits@.len(),
            pos <= 0x1000_0000,
            total == bits@.len(),
            j <= count,
            out@.len() == j,
            forall|t: int|
                0 <= t < j ==> #[trigger] out@[t] as int == val_of(
                    bits@.subrange(pos + t * w, pos + (t + 1) * w),
                ),
        decreases count - j,
    {
        proof {
            assert(j * w + w == (j + 1) * w) by (nonlinear_arith);
            assert(0 <= j * w && (j + 1) * w <= count * w && j * w <= 1024 * 30)
                by (nonlinear_arith)
                requires
                    0 <= j,
                    j + 1 <= count,
                    count <= 1024,
                    w >= 1,
                    w <= 30,
            ;
            assert(pos + (j + 1) * w <= total);
        }
        let r = read_bits(bits, pos + j * w, w);
        out.push(r as usize);
        j += 1;
    }
    out
}

} // verus!
