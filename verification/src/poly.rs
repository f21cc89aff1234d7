use vstd::prelude::*;
use crate::param::ParameterSet;
use crate::rng::EntropySource;

verus! {

use vstd::math::abs;
use vstd::math::max;

/// The integer sequence a coefficient vector stands for.
pub open spec fn ints(s: Seq<i32>) -> Seq<int> {
    s.map_values(|a: i32| a as int)
}

/// Largest absolute value in `s` (0 for the empty sequence).
pub open spec fn absmax(s: Seq<i32>) -> int
    decreases s.len(),
{
    if s.len() == 0 {
        0
    } else {
        max(absmax(s.drop_last()), abs(s.last() as int) as int)
    }
}

/// Inner product of two coefficient vectors.
pub open spec fn dot(s: Seq<i32>, t: Seq<i32>) -> int
    decreases s.len(),
{
    if s.len() == 0 || t.len() == 0 {
        0
    } else {
        dot(s.drop_last(), t.drop_last()) + s.last() * t.last()
    }
}

/// How many entries of `s` have absolute value `a`.
pub open spec fn count_abs(s: Seq<i32>, a: int) -> int
    decreases s.len(),
{
    if s.len() == 0 {
        0
    } else {
        count_abs(s.drop_last(), a) + if abs(s.last() as int) == a {
            1int
        } else {
            0
        }
    }
}

proof fn lemma_count_abs_zero(s: Seq<i32>, a: int)
    requires
        forall|k: int| 0 <= k < s.len() ==> s[k] == 0,
        a != 0,
    ensures
        count_abs(s, a) == 0,
    decreases s.len(),
{
    if s.len() > 0 {
        lemma_count_abs_zero(s.drop_last(), a);
    }
}

proof fn lemma_count_abs_update(s: Seq<i32>, j: int, x: i32, a: int)
    requires
        0 <= j < s.len(),
    ensures
        count_abs(s.update(j, x), a) == count_abs(s, a) + (if abs(x as int) == a {
            1int
        } else {
            0
        }) - (if abs(s[j] as int) == a {
            1int
        } else {
            0
        }),
    decreases s.len(),
{
    let su = s.update(j, x);
    if j == s.len() - 1 {
        assert(su.drop_last() =~= s.drop_last());
        assert(su.last() == x);
    } else {
        assert(su.drop_last() =~= s.drop_last().update(j, x));
        lemma_count_abs_update(s.drop_last(), j, x, a);
        assert(su.last() == s.last());
    }
}

/// Product of two 32-bit coefficients, exactly, in 64 bits.
fn mul64(a: i32, b: i32) -> (r: i64)
    ensures
        r == a as int * b as int,
{
    proof {
        assert(-0x4000_0000_0000_0000 <= (a as int) * (b as int)
            <= 0x4000_0000_0000_0000) by (nonlinear_arith)
            requires
                -0x8000_0000 <= a as int <= 0x7fff_ffff,
                -0x8000_0000 <= b as int <= 0x7fff_ffff,
        ;
    }
    (a as i64) * (b as i64)
}

/// A fresh all-zero coefficient vector of length `n`.
pub fn zero_poly(n: usize) -> (v: Vec<i32>)
    ensures
        v@.len() == n,
        forall|k: int| 0 <= k < n ==> v@[k] == 0,
{
    let mut v: Vec<i32> = Vec::new();
    let mut i: usize = 0;
    while i < n
        invariant
            i <= n,
            v@.len() == i,
            forall|k: int| 0 <= k < i ==> v@[k] == 0,
        decreases n - i,
    {
        v.push(0);
        i += 1;
    }
    v
}

/// The largest absolute value of any coefficient of `v`.
pub fn vecabsmax(v: &Vec<i32>) -> (r: i64)
    ensures
        r == absmax(v@),
        0 <= r <= 0x8000_0000,
        forall|k: int| 0 <= k < v@.len() ==> abs(v@[k] as int) <= r,
{
    let mut m: i64 = 0;
    let mut i: usize = 0;
    while i < v.len()
        invariant
            i <= v@.len(),
            m == absmax(v@.take(i as int)),
            0 <= m <= 0x8000_0000,
            forall|k: int| 0 <= k < i ==> abs(v@[k] as int) <= m,
        decreases v@.len() - i,
    {
        let a = v[i];
        let ai: i64 = if a < 0 {
            -(a as i64)
        } else {
            a as i64
        };
        if ai > m {
            m = ai;
        }
        proof {
            assert(v@.take(i + 1).drop_last() =~= v@.take(i as int));
            assert(v@.take(i + 1).last() == v@[i as int]);
        }
        i += 1;
    }
    proof {
        assert(v@.take(v@.len() as int) =~= v@);
    }
    m
}

/// The inner product of `t` and `u`.
pub fn vecscalar(t: &Vec<i32>, u: &Vec<i32>) -> (r: i64)
    requires
        t@.len() == u@.len(),
        t@.len() <= 1024,
        forall|k: int| 0 <= k < t@.len() ==> abs(t@[k] as int) <= 0x20_0000,
        forall|k: int| 0 <= k < u@.len() ==> abs(u@[k] as int) <= 0x20_0000,
    ensures
        r == dot(t@, u@),
{
    let mut acc: i64 = 0;
    let mut i: usize = 0;
    while i < t.len()
        invariant
            t@.len() == u@.len(),
            t@.len() <= 1024,
            forall|k: int| 0 <= k < t@.len() ==> abs(t@[k] as int) <= 0x20_0000,
            forall|k: int| 0 <= k < u@.len() ==> abs(u@[k] as int) <= 0x20_0000,
            i <= t@.len(),
            acc == dot(t@.take(i as int), u@.take(i as int)),
            -0x4_0000_0000_0000 * (i as int) <= acc <= 0x4_0000_0000_0000 * (i as int),
        decreases t@.len() - i,
    {
        let p = mul64(t[i], u[i]);
        proof {
            assert(-0x4_0000_0000_0000 <= (t@[i as int] as int) * (u@[i as int] as int)
                <= 0x4_0000_0000_0000) by (nonlinear_arith)
                requires
                    abs(t@[i as int] as int) <= 0x20_0000,
                    abs(u@[i as int] as int) <= 0x20_0000,
            ;
            assert(t@.take(i + 1).drop_last() =~= t@.take(i as int));
            assert(u@.take(i + 1).drop_last() =~= u@.take(i as int));
            assert(-0x4_0000_0000_0000 * (i as int) - 0x4_0000_0000_0000 <= acc + p
                <= 0x4_0000_0000_0000 * (i as int) + 0x4_0000_0000_0000) by (nonlinear_arith)
                requires
                    -0x4_0000_0000_0000 * (i as int) <= acc <= 0x4_0000_0000_0000 * (i as int),
                    -0x4_0000_0000_0000 <= p <= 0x4_0000_0000_0000,
            ;
            assert(-0x4_0000_0000_0000 * (i as int + 1) <= acc + p
                <= 0x4_0000_0000_0000 * (i as int + 1)) by (nonlinear_arith)
                requires
                    -0x4_0000_0000_0000 * (i as int) - 0x4_0000_0000_0000 <= acc + p
                        <= 0x4_0000_0000_0000 * (i as int) + 0x4_0000_0000_0000,
            ;
            assert(0x4_0000_0000_0000 * (i as int + 1) <= 0x4_0000_0000_0000 * 1025)
                by (nonlinear_arith)
                requires
                    i as int + 1 <= 1025,
            ;
        }
        acc = acc + p;
        i += 1;
    }
    proof {
        assert(t@.take(t@.len() as int) =~= t@);
        assert(u@.take(u@.len() as int) =~= u@);
    }
    acc
}

/// Sparse-ternary sampling: starting from an all-zero vector, repeatedly
/// draws a 64-bit value, takes its low bit as a sign and the remaining
/// bits reduced modulo `n` as a slot, and fills the slot if it is still
/// zero — first `nz1` placements of value 1 or -1, then `nz2` placements
/// of value 2 or -2.  Draws landing on occupied slots are discarded.
///
/// Returns `false` only if the attempt ceiling is exhausted before the
/// counts are reached; with honest entropy that is never observed, and
/// the caller treats it as a failed generation attempt.
pub fn uniform_poly<R: EntropySource>(v: &mut Vec<i32>, ps: &ParameterSet, rng: &mut R) -> (ok:
    bool)
    requires
        ps.wf(),
        old(v)@.len() == ps.n,
        forall|k: int| 0 <= k < old(v)@.len() ==> old(v)@[k] == 0,
    ensures
        final(v)@.len() == ps.n,
        forall|k: int| 0 <= k < ps.n ==> -2 <= #[trigger] final(v)@[k] <= 2,
        ok ==> count_abs(final(v)@, 1) == ps.nz1 && count_abs(final(v)@, 2) == ps.nz2,
{
    let n = ps.n;
    proof {
        lemma_count_abs_zero(old(v)@, 1);
        lemma_count_abs_zero(old(v)@, 2);
    }
    let mut placed: usize = 0;
    let mut attempts: u64 = 0;
    while placed < ps.nz1 && attempts < 0x10_0000
        invariant
            ps.wf(),
            n == ps.n,
            v@.len() == n,
            placed <= ps.nz1,
            count_abs(v@, 1) == placed,
            count_abs(v@, 2) == 0,
            forall|k: int| 0 <= k < n ==> -1 <= #[trigger] v@[k] <= 1,
        decreases 0x10_0000 - attempts,
    {
        attempts += 1;
        let x = rng.next_u64();
        let j = ((x >> 1u64) as usize) % n;
        if v[j] == 0 {
            let val: i32 = if x & 1u64 != 0 {
                1
            } else {
                -1
            };
            let ghost vpre = v@;
            v[j] = val;
            placed += 1;
            proof {
                lemma_count_abs_update(vpre, j as int, val, 1);
                lemma_count_abs_update(vpre, j as int, val, 2);
            }
        }
    }
    if placed < ps.nz1 {
        return false;
    }
    let mut placed2: usize = 0;
    let mut attempts2: u64 = 0;
    while placed2 < ps.nz2 && attempts2 < 0x10_0000
        invariant
            ps.wf(),
            n == ps.n,
            v@.len() == n,
            placed2 <= ps.nz2,
            count_abs(v@, 1) == ps.nz1,
            count_abs(v@, 2) == placed2,
            forall|k: int| 0 <= k < n ==> -2 <= #[trigger] v@[k] <= 2,
        decreases 0x10_0000 - attempts2,
    {
        attempts2 += 1;
        let x = rng.next_u64();
        let j = ((x >> 1u64) as usize) % n;
        if v[j] == 0 {
            let val: i32 = if x & 1u64 != 0 {
                2
            } else {
                -2
            };
            let ghost vpre = v@;
            v[j] = val;
            placed2 += 1;
            proof {
                lemma_count_abs_update(vpre, j as int, val, 1);
                lemma_count_abs_update(vpre, j as int, val, 2);
            }
        }
    }
    placed2 == ps.nz2
}

/// The signed negacyclic correlation of `(f, g)` against `(x, y)` at
/// cyclic shift `i`, summed over positions `0 <= j < jend`: positions that
/// wrap past the end of the ring enter with a negated sign.
pub open spec fn corr(f: Seq<int>, g: Seq<int>, x: Seq<int>, y: Seq<int>, i: int, jend: int) -> int
    decreases jend,
{
    if jend <= 0 {
        0
    } else {
        let j = jend - 1;
        let n = f.len() as int;
        corr(f, g, x, y, i, j) + (if i + j < n {
            f[j] * x[i + j] + g[j] * y[i + j]
        } else {
            -(f[j] * x[i + j - n]) - g[j] * y[i + j - n]
        })
    }
}

/// `x` plus `s` times the negacyclic shift of `f` by `i` places: the
/// wrapped-around part of the shift enters with the opposite sign.
pub open spec fn neg_shift_add(x: Seq<int>, f: Seq<int>, i: int, s: int) -> Seq<int> {
    Seq::new(
        x.len(),
        |m: int|
            if m >= i {
                x[m] + s * f[m - i]
            } else {
                x[m] - s * f[m + x.len() - i]
            },
    )
}

/// The greedy sparse combination after the first `k` challenge indices
/// have been processed, starting from all-zero accumulators: for each
/// index in order, the correlation picks a sign and the negacyclic shifts
/// of `f` and `g` are added into the accumulators with that sign.
pub open spec fn greedy_rec(f: Seq<int>, g: Seq<int>, idx: Seq<usize>, k: int) -> (Seq<int>, Seq<
    int,
>)
    decreases k,
{
    if k <= 0 {
        (Seq::new(f.len(), |m: int| 0), Seq::new(f.len(), |m: int| 0))
    } else {
        let prev = greedy_rec(f, g, idx, k - 1);
        let i = idx[k - 1] as int;
        let s: int = if corr(f, g, prev.0, prev.1, i, f.len() as int) > 0 {
            -1
        } else {
            1
        };
        (neg_shift_add(prev.0, f, i, s), neg_shift_add(prev.1, g, i, s))
    }
}

/// Greedy accumulation of the sparse challenge against the two secret
/// polynomials: processes the challenge indices in oracle order and, for
/// each, adds or subtracts the negacyclic shifts of `f` and `g` so the
/// running correlation stays small.  The accumulators are zeroed first.
#[verifier::rlimit(60)]
pub fn greedy_sc(
    f: &Vec<i32>,
    g: &Vec<i32>,
    c_idx: &Vec<usize>,
    x: &mut Vec<i32>,
    y: &mut Vec<i32>,
    ps: &ParameterSet,
)
    requires
        ps.wf(),
        f@.len() == ps.n,
        g@.len() == ps.n,
        old(x)@.len() == ps.n,
        old(y)@.len() == ps.n,
        c_idx@.len() == ps.kappa,
        forall|t: int| 0 <= t < c_idx@.len() ==> (#[trigger] c_idx@[t]) < ps.n,
        forall|t: int| 0 <= t < ps.n ==> abs(f@[t] as int) <= 4,
        forall|t: int| 0 <= t < ps.n ==> abs(g@[t] as int) <= 8,
    ensures
        final(x)@.len() == ps.n,
        final(y)@.len() == ps.n,
        ints(final(x)@) == greedy_rec(ints(f@), ints(g@), c_idx@, ps.kappa as int).0,
        ints(final(y)@) == greedy_rec(ints(f@), ints(g@), c_idx@, ps.kappa as int).1,
        forall|t: int| 0 <= t < ps.n ==> abs(final(x)@[t] as int) <= 4 * ps.kappa,
        forall|t: int| 0 <= t < ps.n ==> abs(final(y)@[t] as int) <= 8 * ps.kappa,
{
    let n = ps.n;
    let ghost fs = ints(f@);
    let ghost gs = ints(g@);
    let mut z: usize = 0;
    while z < n
        invariant
            n == ps.n,
            x@.len() == n,
            y@.len() == n,
            z <= n,
            forall|t: int| 0 <= t < z ==> x@[t] == 0 && y@[t] == 0,
        decreases n - z,
    {
        x[z] = 0;
        y[z] = 0;
        z += 1;
    }
    proof {
        assert(ints(x@) =~= greedy_rec(fs, gs, c_idx@, 0).0);
        assert(ints(y@) =~= greedy_rec(fs, gs, c_idx@, 0).1);
    }
    let mut kk: usize = 0;
    while kk < ps.kappa
        invariant
            ps.wf(),
            n == ps.n,
            fs == ints(f@),
            gs == ints(g@),
            f@.len() == n,
            g@.len() == n,
            x@.len() == n,
            y@.len() == n,
            c_idx@.len() == ps.kappa,
            forall|t: int| 0 <= t < c_idx@.len() ==> (#[trigger] c_idx@[t]) < ps.n,
            forall|t: int| 0 <= t < n ==> abs(f@[t] as int) <= 4,
            forall|t: int| 0 <= t < n ==> abs(g@[t] as int) <= 8,
            kk <= ps.kappa,
            ints(x@) == greedy_rec(fs, gs, c_idx@, kk as int).0,
            ints(y@) == greedy_rec(fs, gs, c_idx@, kk as int).1,
            forall|t: int| 0 <= t < n ==> abs(x@[t] as int) <= 4 * kk,
            forall|t: int| 0 <= t < n ==> abs(y@[t] as int) <= 8 * kk,
        decreases ps.kappa - kk,
    {
        let ghost xk = greedy_rec(fs, gs, c_idx@, kk as int).0;
        let ghost yk = greedy_rec(fs, gs, c_idx@, kk as int).1;
        let i = c_idx[kk];
        let mut sgn: i64 = 0;
        let mut j: usize = 0;
        while j < n - i
            invariant
                ps.wf(),
                n == ps.n,
                i < n,
                f@.len() == n,
                g@.len() == n,
                x@.len() == n,
                y@.len() == n,
                kk < ps.kappa,
                xk == ints(x@),
                yk == ints(y@),
                fs == ints(f@),
                gs == ints(g@),
                forall|t: int| 0 <= t < n ==> abs(f@[t] as int) <= 4,
                forall|t: int| 0 <= t < n ==> abs(g@[t] as int) <= 8,
                forall|t: int| 0 <= t < n ==> abs(x@[t] as int) <= 4 * kk,
                forall|t: int| 0 <= t < n ==> abs(y@[t] as int) <= 8 * kk,
                j <= n - i,
                sgn == corr(fs, gs, xk, yk, i as int, j as int),
                -6144 * (j as int) <= sgn <= 6144 * (j as int),
            decreases n - i - j,
        {
            let t1 = mul64(f[j], x[i + j]);
            let t2 = mul64(g[j], y[i + j]);
            proof {
                lemma_term_bounds(f@[j as int] as int, x@[i + j] as int, g@[j as int] as int,
                    y@[i + j] as int, kk as int, j as int, sgn as int);
            }
            sgn = sgn + t1 + t2;
            j += 1;
        }
        while j < n
            invariant
                ps.wf(),
                n == ps.n,
                i < n,
                f@.len() == n,
                g@.len() == n,
                x@.len() == n,
                y@.len() == n,
                kk < ps.kappa,
                xk == ints(x@),
                yk == ints(y@),
                fs == ints(f@),
                gs == ints(g@),
                forall|t: int| 0 <= t < n ==> abs(f@[t] as int) <= 4,
                forall|t: int| 0 <= t < n ==> abs(g@[t] as int) <= 8,
                forall|t: int| 0 <= t < n ==> abs(x@[t] as int) <= 4 * kk,
                forall|t: int| 0 <= t < n ==> abs(y@[t] as int) <= 8 * kk,
                n - i <= j <= n,
                sgn == corr(fs, gs, xk, yk, i as int, j as int),
                -6144 * (j as int) <= sgn <= 6144 * (j as int),
            decreases n - j,
        {
            let t1 = mul64(f[j], x[i + j - n]);
            let t2 = mul64(g[j], y[i + j - n]);
            proof {
                lemma_term_bounds(f@[j as int] as int, x@[i + j - n] as int, g@[j as int] as int,
                    y@[i + j - n] as int, kk as int, j as int, sgn as int);
            }
            sgn = sgn - t1 - t2;
            j += 1;
        }
        let neg: bool = sgn > 0;
        let ghost sg: int = if neg {
            -1int
        } else {
            1int
        };
        let ghost tx = neg_shift_add(xk, fs, i as int, sg);
        let ghost ty = neg_shift_add(yk, gs, i as int, sg);
        proof {
            assert(greedy_rec(fs, gs, c_idx@, kk + 1).0 == tx && greedy_rec(
                fs,
                gs,
                c_idx@,
                kk + 1,
            ).1 == ty);
            assert forall|m: int| 0 <= m < n implies -4 <= sg * #[trigger] fs[m] <= 4 && -8 <= sg
                * #[trigger] gs[m] <= 8 by {
                assert(fs[m] == f@[m] as int);
                assert(gs[m] == g@[m] as int);
            }
        }
        let mut j: usize = 0;
        while j < n - i
            invariant
                ps.wf(),
                n == ps.n,
                i < n,
                f@.len() == n,
                g@.len() == n,
                x@.len() == n,
                y@.len() == n,
                kk < ps.kappa,
                fs == ints(f@),
                gs == ints(g@),
                tx == neg_shift_add(xk, fs, i as int, sg),
                ty == neg_shift_add(yk, gs, i as int, sg),
                sg == 1 || sg == -1,
                neg ==> sg == -1,
                !neg ==> sg == 1,
                tx.len() == n,
                ty.len() == n,
                forall|t: int| 0 <= t < n ==> abs(f@[t] as int) <= 4,
                forall|t: int| 0 <= t < n ==> abs(g@[t] as int) <= 8,
                forall|m: int|
                    0 <= m < n ==> -4 <= sg * #[trigger] fs[m] <= 4 && -8 <= sg * #[trigger] gs[m]
                        <= 8,
                forall|m: int| 0 <= m < n ==> abs(xk[m]) <= 4 * kk && abs(yk[m]) <= 8 * kk,
                j <= n - i,
                forall|m: int| i <= m < i + j ==> x@[m] as int == tx[m] && y@[m] as int == ty[m],
                forall|m: int|
                    (0 <= m < i || i + j <= m < n) ==> x@[m] as int == xk[m] && y@[m] as int
                        == yk[m],
                forall|t: int| 0 <= t < n ==> abs(x@[t] as int) <= 4 * kk + 4,
                forall|t: int| 0 <= t < n ==> abs(y@[t] as int) <= 8 * kk + 8,
            decreases n - i - j,
        {
            let df: i32 = if neg {
                -f[j]
            } else {
                f[j]
            };
            let dg: i32 = if neg {
                -g[j]
            } else {
                g[j]
            };
            proof {
                lemma_sign_mul(sg, fs[j as int]);
                lemma_sign_mul(sg, gs[j as int]);
                assert(fs[j as int] == f@[j as int] as int);
                assert(gs[j as int] == g@[j as int] as int);
                assert(df as int == sg * fs[j as int] && dg as int == sg * gs[j as int]);
                assert(x@[i + j] as int == xk[i + j as int]);
                assert(abs(xk[i + j as int]) <= 4 * kk);
                assert(y@[i + j] as int == yk[i + j as int]);
                assert(abs(yk[i + j as int]) <= 8 * kk);
            }
            let xv = x[i + j];
            x[i + j] = xv + df;
            let yv = y[i + j];
            y[i + j] = yv + dg;
            j += 1;
        }
        while j < n
            invariant
                ps.wf(),
                n == ps.n,
                i < n,
                f@.len() == n,
                g@.len() == n,
                x@.len() == n,
                y@.len() == n,
                kk < ps.kappa,
                fs == ints(f@),
                gs == ints(g@),
                tx == neg_shift_add(xk, fs, i as int, sg),
                ty == neg_shift_add(yk, gs, i as int, sg),
                sg == 1 || sg == -1,
                neg ==> sg == -1,
                !neg ==> sg == 1,
                tx.len() == n,
                ty.len() == n,
                forall|t: int| 0 <= t < n ==> abs(f@[t] as int) <= 4,
                forall|t: int| 0 <= t < n ==> abs(g@[t] as int) <= 8,
                forall|m: int|
                    0 <= m < n ==> -4 <= sg * #[trigger] fs[m] <= 4 && -8 <= sg * #[trigger] gs[m]
                        <= 8,
                forall|m: int| 0 <= m < n ==> abs(xk[m]) <= 4 * kk && abs(yk[m]) <= 8 * kk,
                n - i <= j <= n,
                forall|m: int| 0 <= m < j - (n - i) ==> x@[m] as int == tx[m] && y@[m] as int
                    == ty[m],
                forall|m: int| j - (n - i) <= m < i ==> x@[m] as int == xk[m] && y@[m] as int
                    == yk[m],
                forall|m: int| i <= m < n ==> x@[m] as int == tx[m] && y@[m] as int == ty[m],
                forall|t: int| 0 <= t < n ==> abs(x@[t] as int) <= 4 * kk + 4,
                forall|t: int| 0 <= t < n ==> abs(y@[t] as int) <= 8 * kk + 8,
            decreases n - j,
        {
            let df: i32 = if neg {
                f[j]
            } else {
                -f[j]
            };
            let dg: i32 = if neg {
                g[j]
            } else {
                -g[j]
            };
            proof {
                lemma_sign_mul(sg, fs[j as int]);
                lemma_sign_mul(sg, gs[j as int]);
                assert(fs[j as int] == f@[j as int] as int);
                assert(gs[j as int] == g@[j as int] as int);
                assert(df as int == -(sg * fs[j as int]) && dg as int == -(sg * gs[j as int]));
                assert(x@[i + j - n] as int == xk[i + j - n]);
                assert(abs(xk[i + j - n]) <= 4 * kk);
                assert(y@[i + j - n] as int == yk[i + j - n]);
                assert(abs(yk[i + j - n]) <= 8 * kk);
            }
            let xv = x[i + j - n];
            x[i + j - n] = xv + df;
            let yv = y[i + j - n];
            y[i + j - n] = yv + dg;
            j += 1;
        }
        proof {
            assert(ints(x@) =~= tx);
            assert(ints(y@) =~= ty);
        }
        kk += 1;
    }
}

proof fn lemma_sign_mul(s: int, a: int)
    requires
        s == 1 || s == -1,
    ensures
        s * a == if s == 1 {
            a
        } else {
            -a
        },
{
    assert(s * a == if s == 1 {
        a
    } else {
        -a
    }) by (nonlinear_arith)
        requires
            s == 1 || s == -1,
    ;
}

proof fn lemma_term_bounds(fv: int, xv: int, gv: int, yv: int, kk: int, j: int, sgn: int)
    requires
        abs(fv) <= 4,
        abs(xv) <= 4 * kk,
        abs(gv) <= 8,
        abs(yv) <= 8 * kk,
        0 <= kk <= 64,
        0 <= j <= 1024,
        -6144 * j <= sgn <= 6144 * j,
    ensures
        -1024 <= fv * xv <= 1024,
        -4096 <= gv * yv <= 4096,
        -6144 * (j + 1) <= sgn + fv * xv + gv * yv <= 6144 * (j + 1),
        -6144 * (j + 1) <= sgn - fv * xv - gv * yv <= 6144 * (j + 1),
        -6144 * 1025 <= sgn + fv * xv + gv * yv <= 6144 * 1025,
        -6144 * 1025 <= sgn - fv * xv - gv * yv <= 6144 * 1025,
{
    assert(-1024 <= fv * xv <= 1024 && -4096 <= gv * yv <= 4096) by (nonlinear_arith)
        requires
            abs(fv) <= 4,
            abs(xv) <= 4 * kk,
            abs(gv) <= 8,
            abs(yv) <= 8 * kk,
            0 <= kk <= 64,
    ;
    assert(-6144 * (j + 1) <= sgn + fv * xv + gv * yv <= 6144 * (j + 1) && -6144 * (j + 1) <= sgn
        - fv * xv - gv * yv <= 6144 * (j + 1)) by (nonlinear_arith)
        requires
            -6144 * j <= sgn <= 6144 * j,
            -1024 <= fv * xv <= 1024,
            -4096 <= gv * yv <= 4096,
    ;
    assert(-6144 * 1025 <= sgn + fv * xv + gv * yv <= 6144 * 1025 && -6144 * 1025 <= sgn - fv * xv
        - gv * yv <= 6144 * 1025) by (nonlinear_arith)
        requires
            -6144 * (j + 1) <= sgn + fv * xv + gv * yv <= 6144 * (j + 1),
            -6144 * (j + 1) <= sgn - fv * xv - gv * yv <= 6144 * (j + 1),
            j + 1 <= 1025,
    ;
}

/// The squared norm of a vector with bounded coefficients is bounded by
/// the length times the square of the bound.
pub proof fn lemma_dot_self_bound(s: Seq<i32>, b: int)
    requires
        b >= 0,
        forall|k: int| 0 <= k < s.len() ==> abs(s[k] as int) <= b,
    ensures
        0 <= dot(s, s) <= s.len() * b * b,
    decreases s.len(),
{
    if s.len() == 0 {
        assert(s.len() * b * b == 0) by (nonlinear_arith)
            requires
                s.len() == 0,
        ;
    } else {
        let d = s.drop_last();
        lemma_dot_self_bound(d, b);
        let last = s.last() as int;
        assert(0 <= last * last <= b * b) by (nonlinear_arith)
            requires
                abs(last) <= b,
                b >= 0,
        ;
        assert(d.len() * b * b + b * b == s.len() * b * b) by (nonlinear_arith)
            requires
                d.len() + 1 == s.len(),
        ;
    }
}

/// The inner product of two vectors with bounded coefficients is bounded
/// by the length times the product of the bounds.
pub proof fn lemma_dot_bound(s: Seq<i32>, t: Seq<i32>, b1: int, b2: int)
    requires
        b1 >= 0,
        b2 >= 0,
        s.len() == t.len(),
        forall|k: int| 0 <= k < s.len() ==> abs(s[k] as int) <= b1,
        forall|k: int| 0 <= k < t.len() ==> abs(t[k] as int) <= b2,
    ensures
        -(s.len() * b1 * b2) <= dot(s, t) <= s.len() * b1 * b2,
    decreases s.len(),
{
    if s.len() == 0 {
        assert(s.len() * b1 * b2 == 0) by (nonlinear_arith)
            requires
                s.len() == 0,
        ;
    } else {
        lemma_dot_bound(s.drop_last(), t.drop_last(), b1, b2);
        let p = s.last() as int * t.last() as int;
        assert(-(b1 * b2) <= p <= b1 * b2) by (nonlinear_arith)
            requires
                abs(s.last() as int) <= b1,
                abs(t.last() as int) <= b2,
                b1 >= 0,
                b2 >= 0,
                p == s.last() as int * t.last() as int,
        ;
        assert((s.len() - 1) * b1 * b2 + b1 * b2 == s.len() * b1 * b2) by (nonlinear_arith);
    }
}

} // verus!
