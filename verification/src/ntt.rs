use vstd::prelude::*;
use crate::param::ParameterSet;

verus! {

use vstd::arithmetic::power::pow;

/// Reduces `x * y` into the canonical residue range `[0, n)` using a
/// double-width intermediate.
pub fn muln(x: i32, y: i32, n: i32) -> (r: i32)
    requires
        0 < n,
    ensures
        r == (x as int * y as int) % (n as int),
        0 <= r < n,
{
    proof {
        assert(-0x4000_0000_0000_0000 <= (x as int) * (y as int)
            <= 0x4000_0000_0000_0000) by (nonlinear_arith)
            requires
                -0x8000_0000 <= x as int <= 0x7fff_ffff,
                -0x8000_0000 <= y as int <= 0x7fff_ffff,
        ;
    }
    let p: i64 = (x as i64) * (y as i64);
    let m: i64 = p.checked_rem_euclid(n as i64).unwrap();
    m as i32
}

/// Reduces `x * x` into the canonical residue range `[0, n)`.
fn sqrn(x: i32, n: i32) -> (r: i32)
    requires
        0 < n,
    ensures
        r == (x as int * x as int) % (n as int),
        0 <= r < n,
{
    muln(x, x, n)
}

/// Square-and-multiply modular exponentiation: the canonical residue of
/// `x` raised to the `e`-th power, modulo `n`.
pub fn pwr(x: i32, e: i32, n: i32) -> (r: i32)
    requires
        2 <= n,
        0 <= e,
    ensures
        r == pow(x as int, e as nat) % (n as int),
        0 <= r < n,
{
    let ghost x0 = x as int;
    let ghost e0 = e as nat;
    let mut eu: u32 = e as u32;
    let mut xc: i32 = x;
    let mut y: i32 = if eu % 2 == 1 {
        muln(x, 1, n)
    } else {
        1i32
    };
    proof {
        vstd::arithmetic::power::lemma_pow0(x0);
        vstd::arithmetic::power::lemma_pow1(x0);
        vstd::arithmetic::power::lemma_pow_adds(x0, (e0 % 2) as nat, (2 * (e0 / 2)) as nat);
        vstd::arithmetic::power::lemma_pow_multiplies(x0, 2, (e0 / 2) as nat);
        vstd::arithmetic::power::lemma_square_is_pow2(x0);
        vstd::arithmetic::div_mod::lemma_mul_mod_noop_left(
            pow(x0, (e0 % 2) as nat),
            pow(x0 * x0, (e0 / 2) as nat),
            n as int,
        );
        assert(pow(x0, e0) == pow(x0, (e0 % 2) as nat) * pow(x0 * x0, (e0 / 2) as nat));
    }
    eu = eu / 2;
    while eu > 0
        invariant
            2 <= n,
            0 <= y < n,
            -0x8000_0000 <= xc < 0x8000_0000,
            pow(x0, e0) % (n as int) == (y as int * pow(
                xc as int * xc as int,
                eu as nat,
            )) % (n as int),
        decreases eu,
    {
        let ghost xi = xc as int;
        let ghost yi = y as int;
        let ghost ei = eu as nat;
        xc = sqrn(xc, n);
        if eu % 2 == 1 {
            y = muln(xc, y, n);
        }
        eu = eu / 2;
        proof {
            // pow(xi * xi, ei) == pow(xi * xi, ei % 2) * pow((xi * xi) * (xi * xi), ei / 2)
            vstd::arithmetic::power::lemma_pow_adds(
                xi * xi,
                (ei % 2) as nat,
                (2 * (ei / 2)) as nat,
            );
            vstd::arithmetic::power::lemma_pow_multiplies(xi * xi, 2, (ei / 2) as nat);
            vstd::arithmetic::power::lemma_square_is_pow2(xi * xi);
            vstd::arithmetic::power::lemma_pow1(xi * xi);
            vstd::arithmetic::power::lemma_pow0(xi * xi);
            assert(pow(xi * xi, ei) == pow(xi * xi, (ei % 2) as nat) * pow(
                (xi * xi) * (xi * xi),
                (ei / 2) as nat,
            ));
            // replace the base (xi * xi) * (xi * xi) by xc * xc modulo n
            vstd::arithmetic::power::lemma_pow_mod_noop((xi * xi) * (xi * xi), (ei / 2) as nat, n as int);
            vstd::arithmetic::div_mod::lemma_mul_mod_noop_general(xi * xi, xi * xi, n as int);
            vstd::arithmetic::power::lemma_pow_mod_noop(xc as int * xc as int, (ei / 2) as nat, n as int);
            assert((xc as int * xc as int) % (n as int) == ((xi * xi) * (xi * xi)) % (n as int));
            assert(pow((xi * xi) * (xi * xi), (ei / 2) as nat) % (n as int) == pow(
                xc as int * xc as int,
                (ei / 2) as nat,
            ) % (n as int));
            if ei % 2 == 1 {
                assert(y as int == (xc as int * yi) % (n as int));
                assert(xc as int == (xi * xi) % (n as int));
                // y * pow(xc * xc, eu) == yi * pow(xi * xi, ei) modulo n
                vstd::arithmetic::div_mod::lemma_mul_mod_noop_general(
                    xc as int * yi,
                    pow(xc as int * xc as int, (ei / 2) as nat),
                    n as int,
                );
                vstd::arithmetic::div_mod::lemma_mul_mod_noop_general(
                    xc as int,
                    yi,
                    n as int,
                );
                vstd::arithmetic::div_mod::lemma_mul_mod_noop_general(
                    xi * xi,
                    yi,
                    n as int,
                );
                vstd::arithmetic::div_mod::lemma_mul_mod_noop_general(
                    (xi * xi) * yi,
                    pow((xi * xi) * (xi * xi), (ei / 2) as nat),
                    n as int,
                );
                assert((yi * pow(xi * xi, ei)) % (n as int) == (y as int * pow(
                    xc as int * xc as int,
                    eu as nat,
                )) % (n as int)) by {
                    assert(yi * pow(xi * xi, ei) == ((xi * xi) * yi) * pow(
                        (xi * xi) * (xi * xi),
                        (ei / 2) as nat,
                    )) by (nonlinear_arith)
                        requires
                            pow(xi * xi, ei) == (xi * xi) * pow(
                                (xi * xi) * (xi * xi),
                                (ei / 2) as nat,
                            ),
                    ;
                }
            } else {
                vstd::arithmetic::div_mod::lemma_mul_mod_noop_right(
                    yi,
                    pow((xi * xi) * (xi * xi), (ei / 2) as nat),
                    n as int,
                );
                vstd::arithmetic::div_mod::lemma_mul_mod_noop_right(
                    yi,
                    pow(xc as int * xc as int, (ei / 2) as nat),
                    n as int,
                );
            }
        }
    }
    proof {
        vstd::arithmetic::power::lemma_pow0(xc as int * xc as int);
        vstd::arithmetic::div_mod::lemma_small_mod(y as nat, n as nat);
    }
    y
}


/// The pointwise product of two vectors, each entry reduced into `[0, q)`.
pub open spec fn pointwise_mul(a: Seq<i32>, b: Seq<i32>, q: int) -> Seq<i32> {
    Seq::new(a.len(), |k: int| (((a[k] * b[k]) % q) as i32))
}

/// The finishing reversal: the order of the coefficients reversed keeping
/// index 0 fixed, the (now-first) coefficient negated, everything in
/// `[0, q)`.
pub open spec fn flp_spec(v: Seq<i32>, q: int) -> Seq<i32> {
    Seq::new(
        v.len(),
        |k: int|
            if k == 0 {
                (((q - v[0]) % q) as i32)
            } else {
                v[v.len() - k]
            },
    )
}

/// The full ring multiplication of `t` by the cached twisted transform
/// `qhat`: twist by `w`, transform, multiply pointwise, transform again,
/// untwist by `r`, and finish.
pub open spec fn ring_mul_spec(
    t: Seq<i32>,
    qhat: Seq<i32>,
    w: Seq<i32>,
    r: Seq<i32>,
    q: int,
    n: int,
) -> Seq<i32> {
    flp_spec(
        pointwise_mul(
            fft_spec(pointwise_mul(fft_spec(pointwise_mul(t, w, q), w, q, n), qhat, q), w, q, n),
            r,
            q,
        ),
        q,
    )
}

/// Pointwise product of two transform-domain vectors, every entry reduced
/// into `[0, q)`.
pub fn xmu(v: &mut Vec<i32>, t: &Vec<i32>, u: &Vec<i32>, ps: &ParameterSet)
    requires
        ps.wf(),
        old(v)@.len() == ps.n,
        t@.len() == ps.n,
        u@.len() == ps.n,
    ensures
        final(v)@.len() == ps.n,
        forall|k: int|
            0 <= k < ps.n ==> final(v)@[k] == (t@[k] as int * u@[k] as int) % (ps.q as int),
        forall|k: int| 0 <= k < ps.n ==> 0 <= #[trigger] final(v)@[k] < ps.q,
        final(v)@ == pointwise_mul(t@, u@, ps.q as int),
{
    let n = ps.n;
    let mut i: usize = 0;
    while i < n
        invariant
            n == ps.n,
            ps.wf(),
            v@.len() == n,
            t@.len() == n,
            u@.len() == n,
            0 <= i <= n,
            forall|k: int|
                0 <= k < i ==> v@[k] == (t@[k] as int * u@[k] as int) % (ps.q as int),
            forall|k: int| 0 <= k < i ==> 0 <= #[trigger] v@[k] < ps.q,
        decreases n - i,
    {
        let x = muln(t[i], u[i], ps.q);
        v[i] = x;
        i += 1;
    }
    proof {
        assert forall|k: int| 0 <= k < ps.n implies v@[k] == pointwise_mul(
            t@,
            u@,
            ps.q as int,
        )[k] by {
            vstd::arithmetic::div_mod::lemma_mod_bound(t@[k] as int * u@[k] as int, ps.q as int);
        }
        assert(v@ =~= pointwise_mul(t@, u@, ps.q as int));
    }
}

/// Pointwise product with the constant `c`, every entry reduced into
/// `[0, q)`.
pub fn cmu(v: &mut Vec<i32>, t: &Vec<i32>, c: i32, ps: &ParameterSet)
    requires
        ps.wf(),
        old(v)@.len() == ps.n,
        t@.len() == ps.n,
    ensures
        final(v)@.len() == ps.n,
        forall|k: int|
            0 <= k < ps.n ==> final(v)@[k] == (t@[k] as int * c as int) % (ps.q as int),
        forall|k: int| 0 <= k < ps.n ==> 0 <= #[trigger] final(v)@[k] < ps.q,
{
    let n = ps.n;
    let mut i: usize = 0;
    while i < n
        invariant
            n == ps.n,
            ps.wf(),
            v@.len() == n,
            t@.len() == n,
            0 <= i <= n,
            forall|k: int| 0 <= k < i ==> v@[k] == (t@[k] as int * c as int) % (ps.q as int),
            forall|k: int| 0 <= k < i ==> 0 <= #[trigger] v@[k] < ps.q,
        decreases n - i,
    {
        let x = muln(t[i], c, ps.q);
        v[i] = x;
        i += 1;
    }
}

/// The finishing step of the ring multiplication: reverse the coefficient
/// order keeping index 0 fixed, negate the (now-first) coefficient, and
/// reduce every coefficient into `[0, q)`.
pub fn flp(v: &mut Vec<i32>, ps: &ParameterSet)
    requires
        ps.wf(),
        old(v)@.len() == ps.n,
        forall|k: int| 0 <= k < ps.n ==> 0 <= #[trigger] old(v)@[k] < ps.q,
    ensures
        final(v)@.len() == ps.n,
        final(v)@[0] == ((ps.q - old(v)@[0]) as int) % (ps.q as int),
        forall|k: int| 1 <= k < ps.n ==> final(v)@[k] == old(v)@[ps.n - k],
        forall|k: int| 0 <= k < ps.n ==> 0 <= #[trigger] final(v)@[k] < ps.q,
        final(v)@ == flp_spec(old(v)@, ps.q as int),
{
    let n = ps.n;
    let mut i: usize = 1;
    let mut j: usize = n - 1;
    while i < j
        invariant
            n == ps.n,
            ps.wf(),
            v@.len() == n,
            1 <= i,
            j < n,
            i + j == n,
            v@[0] == old(v)@[0],
            forall|k: int| 1 <= k < i ==> v@[k] == old(v)@[n - k],
            forall|k: int| j < k < n ==> v@[k] == old(v)@[n - k],
            forall|k: int| i <= k <= j ==> v@[k] == old(v)@[k],
            forall|k: int| 0 <= k < n ==> 0 <= #[trigger] v@[k] < ps.q,
        decreases j - i,
    {
        let a = v[i];
        let b = v[j];
        v[i] = b;
        v[j] = a;
        i += 1;
        j -= 1;
    }
    let x0 = v[0];
    let neg = if x0 == 0 {
        0i32
    } else {
        ps.q - x0
    };
    proof {
        if old(v)@[0] == 0 {
            vstd::arithmetic::div_mod::lemma_mod_multiples_basic(1, ps.q as int);
        } else {
            vstd::arithmetic::div_mod::lemma_small_mod((ps.q - old(v)@[0]) as nat, ps.q as nat);
        }
    }
    v[0] = neg;
    proof {
        assert forall|k: int| 0 <= k < ps.n implies v@[k] == flp_spec(old(v)@, ps.q as int)[k] by {
            vstd::arithmetic::div_mod::lemma_mod_bound((ps.q - old(v)@[0]) as int, ps.q as int);
        }
        assert(v@ =~= flp_spec(old(v)@, ps.q as int));
    }
}

/// Proves that two multiples of `m` that are strictly ordered are at
/// least `m` apart.
proof fn lemma_multiple_gap(a: int, b: int, m: int)
    requires
        m > 0,
        a % m == 0,
        b % m == 0,
        a < b,
    ensures
        a + m <= b,
{
    let d = b - a;
    vstd::arithmetic::div_mod::lemma_sub_mod_noop(b, a, m);
    vstd::arithmetic::div_mod::lemma_mod_multiples_basic(0, m);
    assert(d % m == 0);
    vstd::arithmetic::div_mod::lemma_fundamental_div_mod(d, m);
    assert(d == m * (d / m));
    assert(d >= m) by (nonlinear_arith)
        requires
            d == m * (d / m),
            d > 0,
            m > 0,
    ;
}

/// Two values that agree modulo `m` and differ by less than `m` are
/// equal.
proof fn lemma_congruent_unique(a: int, b: int, m: int)
    requires
        m > 0,
        a % m == b % m,
        -m < a - b < m,
    ensures
        a == b,
{
    vstd::arithmetic::div_mod::lemma_mod_multiples_basic(0, m);
    if a >= b {
        vstd::arithmetic::div_mod::lemma_sub_mod_noop(a, b, m);
        assert((a - b) % m == 0);
        vstd::arithmetic::div_mod::lemma_small_mod((a - b) as nat, m as nat);
    } else {
        vstd::arithmetic::div_mod::lemma_sub_mod_noop(b, a, m);
        assert((b - a) % m == 0);
        vstd::arithmetic::div_mod::lemma_small_mod((b - a) as nat, m as nat);
    }
}

/// A slot in lane `j` of the stage at stride `i` has its pair base
/// congruent to `j` modulo twice the stride.
proof fn lemma_lane_base(t: int, i: int, j: int)
    requires
        i >= 1,
        0 <= t,
        0 <= j < i,
        lane_of(t, i) == j,
    ensures
        lo_of(t, i) % (2 * i) == j,
        0 <= lo_of(t, i) <= t,
{
    let m = 2 * i;
    vstd::arithmetic::div_mod::lemma_fundamental_div_mod(t, m);
    vstd::arithmetic::div_mod::lemma_mod_bound(t, m);
    vstd::arithmetic::div_mod::lemma_small_mod(j as nat, m as nat);
    vstd::arithmetic::div_mod::lemma_div_pos_is_pos(t, m);
    assert(m * (t / m) >= 0) by (nonlinear_arith)
        requires
            m > 0,
            t / m >= 0,
    ;
    if t % m < i {
        assert(lo_of(t, i) == t);
        assert(t % m == j);
        assert(t == m * (t / m) + j);
    } else {
        assert(lo_of(t, i) == t - i);
        assert(t % m == j + i);
        assert(t - i == m * (t / m) + j);
        vstd::arithmetic::div_mod::lemma_mod_multiples_basic(t / m, m);
        vstd::arithmetic::div_mod::lemma_add_mod_noop(m * (t / m), j, m);
    }
}

/// The bit-reversal of slot `x` within a ring of `n` slots: the low bit
/// of `x` becomes the high bit of the result, and so on down.
pub open spec fn rev_n(x: int, n: int) -> int
    decreases n,
{
    if n <= 1 {
        0
    } else {
        (x % 2) * (n / 2) + rev_n(x / 2, n / 2)
    }
}

/// The bit-reversal permutation of a whole vector.
pub open spec fn bit_reverse_perm(v: Seq<i32>, n: int) -> Seq<i32> {
    Seq::new(v.len(), |x: int| v[rev_n(x, n)])
}

/// The lane of slot `x` in the stage at stride `i`: which twiddle factor
/// its butterfly uses.
pub open spec fn lane_of(x: int, i: int) -> int {
    let r = x % (2 * i);
    if r < i {
        r
    } else {
        r - i
    }
}

/// The lower slot of the butterfly pair that slot `x` belongs to in the
/// stage at stride `i`.
pub open spec fn lo_of(x: int, i: int) -> int {
    if x % (2 * i) < i {
        x
    } else {
        x - i
    }
}

/// One butterfly stage at stride `i` with twiddle step `l`: every slot is
/// combined with its partner at distance `i`, the partner scaled by the
/// lane's twiddle factor, and both results reduced into `[0, q)`.
pub open spec fn stage_spec(v: Seq<i32>, w: Seq<i32>, q: int, i: int, l: int) -> Seq<i32> {
    Seq::new(
        v.len(),
        |x: int|
            {
                let j = lane_of(x, i);
                let lo = lo_of(x, i);
                let m = if j == 0 {
                    v[lo + i] as int
                } else {
                    (v[lo + i] * w[j * l]) % q
                };
                if x % (2 * i) < i {
                    ((v[x] + m) % q) as i32
                } else {
                    ((v[lo] - m) % q) as i32
                }
            },
    )
}

/// The vector state just before the stage at stride `i`, starting from
/// the permuted input: every stage at a smaller stride already applied,
/// in order of doubling strides.
pub open spec fn stages_before(v: Seq<i32>, w: Seq<i32>, q: int, n: int, i: int) -> Seq<i32>
    decreases i,
{
    if i <= 1 {
        v
    } else {
        stage_spec(stages_before(v, w, q, n, i / 2), w, q, i / 2, n / (i / 2))
    }
}

/// What the transform computes: the bit-reversal permutation of the
/// input followed by all `log2(n)` butterfly stages.
pub open spec fn fft_spec(v: Seq<i32>, w: Seq<i32>, q: int, n: int) -> Seq<i32> {
    stages_before(bit_reverse_perm(v, n), w, q, n, n)
}

/// The bit-reversal of `x` within a ring of `n` slots.
fn bit_reverse(x: usize, n: usize) -> (r: usize)
    requires
        n == 1 || n == 2 || n == 4 || n == 8 || n == 16 || n == 32 || n == 64 || n == 128 || n
            == 256 || n == 512,
    ensures
        r == rev_n(x as int, n as int),
        r < n,
    decreases n,
{
    if n <= 1 {
        0
    } else {
        let rest = bit_reverse(x / 2, n / 2);
        proof {
            assert((x as int % 2) * (n as int / 2) <= n as int / 2) by (nonlinear_arith)
                requires
                    0 <= x as int % 2 <= 1,
                    n as int / 2 >= 0,
            ;
        }
        (x % 2) * (n / 2) + rest
    }
}

/// Radix-2 decimation-in-time transform: the bit-reversal permutation of
/// the `n` slots followed by `log2(n)` butterfly stages, each combining
/// pairs at stride with the matching entry of the twiddle table.  Every
/// coefficient is kept in the canonical residue range `[0, q)`, so all
/// downstream reductions agree with the untransformed arithmetic.
#[verifier::rlimit(100)]
pub fn fft(v: &mut Vec<i32>, ps: &ParameterSet)
    requires
        ps.wf(),
        old(v)@.len() == ps.n,
        forall|k: int| 0 <= k < ps.n ==> 0 <= #[trigger] old(v)@[k] < ps.q,
    ensures
        final(v)@.len() == ps.n,
        final(v)@ == fft_spec(old(v)@, ps.w@, ps.q as int, ps.n as int),
        forall|k: int| 0 <= k < ps.n ==> 0 <= #[trigger] final(v)@[k] < ps.q,
{
    let n = ps.n;
    let q = ps.q;
    let ghost orig = v@;

    // bit-reversal permutation of the n slots
    let mut pv: Vec<i32> = Vec::new();
    let mut x: usize = 0;
    while x < n
        invariant
            n == ps.n,
            ps.wf(),
            v@ == orig,
            v@.len() == n,
            forall|k: int| 0 <= k < n ==> 0 <= #[trigger] orig[k] < ps.q,
            x <= n,
            pv@.len() == x,
            forall|t: int| 0 <= t < x ==> pv@[t] == orig[rev_n(t, n as int)],
            forall|t: int| 0 <= t < x ==> 0 <= #[trigger] pv@[t] < ps.q,
        decreases n - x,
    {
        let ri = bit_reverse(x, n);
        pv.push(v[ri]);
        x += 1;
    }
    *v = pv;
    let ghost pm = v@;
    proof {
        assert(pm =~= bit_reverse_perm(orig, n as int));
    }

    // log2(n) butterfly stages
    let mut i: usize = 1;
    while i < n
        invariant
            n == ps.n,
            q == ps.q,
            ps.wf(),
            v@.len() == n,
            1 <= i <= n,
            (i == 1 || i == 2 || i == 4 || i == 8 || i == 16 || i == 32 || i == 64 || i == 128
                || i == 256 || i == 512),
            v@ == stages_before(pm, ps.w@, q as int, n as int, i as int),
            forall|k: int| 0 <= k < n ==> 0 <= #[trigger] v@[k] < ps.q,
        decreases n - i,
    {
        proof {
            let ii = i as int;
            let nn = n as int;
            assert(nn % ii == 0 && nn % (2 * ii) == 0 && 2 * ii <= nn) by (nonlinear_arith)
                requires
                    ii == 1 || ii == 2 || ii == 4 || ii == 8 || ii == 16 || ii == 32 || ii == 64
                        || ii == 128 || ii == 256,
                    nn == 256 || nn == 512,
                    ii < nn,
            ;
            assert(i == 1 || i == 2 || i == 4 || i == 8 || i == 16 || i == 32 || i == 64
                || i == 128 || i == 256);
        }
        let l = n / i;
        proof {
            vstd::arithmetic::div_mod::lemma_fundamental_div_mod(n as int, i as int);
            assert(n == i * l);
            assert(l >= 1) by (nonlinear_arith)
                requires
                    n == i * l,
                    n >= 1,
                    i >= 1,
                    l >= 0,
            ;
        }
        let ghost prev = v@;
        let ghost tgt = stage_spec(prev, ps.w@, q as int, i as int, l as int);
        let mut j: usize = 0;
        while j < i
            invariant
                n == ps.n,
                q == ps.q,
                ps.wf(),
                v@.len() == n,
                1 <= i < n,
                (i == 1 || i == 2 || i == 4 || i == 8 || i == 16 || i == 32 || i == 64 || i
                    == 128 || i == 256 || i == 512),
                n % i == 0,
                (n as int) % (2 * (i as int)) == 0,
                2 * i <= n,
                l == n / i,
                n == i * l,
                1 <= l,
                0 <= j <= i,
                prev.len() == n,
                forall|t: int| 0 <= t < n ==> 0 <= #[trigger] prev[t] < ps.q,
                tgt == stage_spec(prev, ps.w@, q as int, i as int, l as int),
                forall|t: int|
                    0 <= t < n && lane_of(t, i as int) < j ==> #[trigger] v@[t] == tgt[t],
                forall|t: int|
                    0 <= t < n && lane_of(t, i as int) >= j ==> #[trigger] v@[t] == prev[t],
                forall|t: int| 0 <= t < n ==> 0 <= #[trigger] v@[t] < ps.q,
            decreases i - j,
        {
            let mut k: usize = j;
            proof {
                vstd::arithmetic::div_mod::lemma_small_mod(j as nat, (2 * i) as nat);
                assert forall|t: int|
                    0 <= t < n && lane_of(t, i as int) == j && lo_of(t, i as int)
                        < j implies #[trigger] v@[t] == tgt[t] by {
                    lemma_lane_base(t, i as int, j as int);
                    let lo = lo_of(t, i as int);
                    vstd::arithmetic::div_mod::lemma_small_mod(lo as nat, (2 * i) as nat);
                    assert(false);
                }
            }
            while k < n
                invariant
                    n == ps.n,
                    q == ps.q,
                    ps.wf(),
                    v@.len() == n,
                    1 <= i < n,
                    (n as int) % (2 * (i as int)) == 0,
                    2 * i <= n,
                    l == n / i,
                    n == i * l,
                    1 <= l,
                    0 <= j < i,
                    (k as int) % (2 * (i as int)) == j,
                    prev.len() == n,
                    forall|t: int| 0 <= t < n ==> 0 <= #[trigger] prev[t] < ps.q,
                    tgt == stage_spec(prev, ps.w@, q as int, i as int, l as int),
                    forall|t: int|
                        0 <= t < n && lane_of(t, i as int) < j ==> #[trigger] v@[t] == tgt[t],
                    forall|t: int|
                        0 <= t < n && lane_of(t, i as int) == j && lo_of(t, i as int) < k
                            ==> #[trigger] v@[t] == tgt[t],
                    forall|t: int|
                        0 <= t < n && (lane_of(t, i as int) > j || (lane_of(t, i as int) == j
                            && lo_of(t, i as int) >= k)) ==> #[trigger] v@[t] == prev[t],
                    forall|t: int| 0 <= t < n ==> 0 <= #[trigger] v@[t] < ps.q,
                decreases n + 2 * i - k,
            {
                proof {
                    let m = (2 * i) as int;
                    vstd::arithmetic::div_mod::lemma_fundamental_div_mod(k as int, m);
                    assert(k as int - j == (k as int / m) * m);
                    vstd::arithmetic::div_mod::lemma_mod_multiples_basic(k as int / m, m);
                    assert((k as int - j) % m == 0);
                    vstd::arithmetic::div_mod::lemma_mod_multiples_basic(0, m);
                    lemma_multiple_gap(k as int - j, n as int, m);
                    assert(k + i < n);
                    vstd::arithmetic::div_mod::lemma_add_mod_noop(k as int, m, m);
                    vstd::arithmetic::div_mod::lemma_mod_multiples_basic(1, m);
                    vstd::arithmetic::div_mod::lemma_small_mod(j as nat, m as nat);
                    vstd::arithmetic::div_mod::lemma_small_mod((j + i) as nat, m as nat);
                    assert((k + i) as int % m == j + i) by {
                        vstd::arithmetic::div_mod::lemma_add_mod_noop(k as int, i as int, m);
                        vstd::arithmetic::div_mod::lemma_small_mod(i as nat, m as nat);
                        assert((k as int + i) % m == (j + (i as int) % m) % m);
                    }
                    assert(lane_of(k as int, i as int) == j);
                    assert(lo_of(k as int, i as int) == k);
                    assert(lane_of(k as int + i, i as int) == j);
                    assert(lo_of(k as int + i, i as int) == k);
                }
                let x: i32 = if j == 0 {
                    v[k + i]
                } else {
                    proof {
                        assert(j * l < n) by (nonlinear_arith)
                            requires
                                n == i * l,
                                1 <= l,
                                0 <= j,
                                j < i,
                        ;
                    }
                    muln(v[k + i], ps.w[j * l], q)
                };
                let a = v[k];
                let s1 = a + x;
                let vnew0 = if s1 >= q {
                    s1 - q
                } else {
                    s1
                };
                let s2 = a - x;
                let vnew1 = if s2 < 0 {
                    s2 + q
                } else {
                    s2
                };
                proof {
                    // the two written values are the stage's values
                    let qi = q as int;
                    if s1 >= q {
                        vstd::arithmetic::div_mod::lemma_mod_add_multiples_vanish(
                            a as int + x as int - qi,
                            qi,
                        );
                        vstd::arithmetic::div_mod::lemma_small_mod((s1 - q) as nat, qi as nat);
                        assert((a as int + x as int) % qi == vnew0);
                    } else {
                        vstd::arithmetic::div_mod::lemma_small_mod(s1 as nat, qi as nat);
                    }
                    if s2 < 0 {
                        vstd::arithmetic::div_mod::lemma_mod_sub_multiples_vanish(
                            a as int - x as int + qi,
                            qi,
                        );
                        vstd::arithmetic::div_mod::lemma_small_mod((s2 + q) as nat, qi as nat);
                        assert((a as int - x as int) % qi == vnew1);
                    } else {
                        vstd::arithmetic::div_mod::lemma_small_mod(s2 as nat, qi as nat);
                    }
                    assert(tgt[k as int] == vnew0);
                    assert(tgt[k as int + i] == vnew1);
                }
                let ghost vpre = v@;
                v[k + i] = vnew1;
                v[k] = vnew0;
                proof {
                    let m = (2 * i) as int;
                    // any lane-j slot whose pair base lies in [k, k + 2i)
                    // is one of the two slots just written
                    assert forall|t: int|
                        0 <= t < n && lane_of(t, i as int) == j && lo_of(t, i as int) < k + 2 * i
                            implies #[trigger] v@[t] == tgt[t] || lo_of(t, i as int)
                        < k by {
                        let lo = lo_of(t, i as int);
                        if lo >= k {
                            vstd::arithmetic::div_mod::lemma_fundamental_div_mod(t, m);
                            vstd::arithmetic::div_mod::lemma_small_mod(j as nat, m as nat);
                            vstd::arithmetic::div_mod::lemma_small_mod((j + i) as nat, m as nat);
                            if t % m < i as int {
                                assert(t % m == j);
                                assert(lo == t);
                                lemma_lane_base(t, i as int, j as int);
                                assert(lo % m == j);
                                lemma_congruent_unique(lo, k as int, m);
                                assert(t == k);
                            } else {
                                assert(t % m == j + i);
                                assert(lo == t - i);
                                lemma_lane_base(t, i as int, j as int);
                                assert(lo % m == j);
                                lemma_congruent_unique(lo, k as int, m);
                                assert(t == k as int + i);
                            }
                        }
                    }
                }
                k = k + 2 * i;
            }
            proof {
                assert forall|t: int| 0 <= t < n && lane_of(t, i as int) == j implies #[trigger]
                    v@[t] == tgt[t] by {
                    assert(lo_of(t, i as int) <= t < n <= k);
                }
            }
            j += 1;
        }
        proof {
            assert forall|t: int| 0 <= t < n implies #[trigger] v@[t] == tgt[t] by {
                let m = 2 * (i as int);
                vstd::arithmetic::div_mod::lemma_mod_bound(t, m);
                assert(lane_of(t, i as int) < i);
            }
            assert(v@ =~= tgt);
            assert(stages_before(pm, ps.w@, q as int, n as int, 2 * (i as int)) == stage_spec(
                stages_before(pm, ps.w@, q as int, n as int, i as int),
                ps.w@,
                q as int,
                i as int,
                (n / i) as int,
            ));
        }
        i = 2 * i;
    }
    proof {
        assert(v@ == stages_before(pm, ps.w@, q as int, n as int, n as int));
    }
}

} // verus!
