use vstd::prelude::*;
use crate::param::ParameterSet;

verus! {

/// The 64-byte SHA3-512 digest of a byte string.  The outside hash is a
/// pure function of its input alone; its value is not restated here.
pub uninterp spec fn sha3_512_digest(input: Seq<u8>) -> Seq<u8>;

/// Relies on tiny_keccak's `Keccak::new_sha3_512` / `update` / `finalize`
/// to compute the SHA3-512 digest of `input`; SHA3-512 output is 64 bytes
/// and depends on the input bytes alone.
#[verifier::external_body]
fn sha3_512(input: &Vec<u8>) -> (r: Vec<u8>)
    ensures
        r@ == sha3_512_digest(input@),
        r@.len() == 64,
{
    let mut sha3 = tiny_keccak::Keccak::new_sha3_512();
    sha3.update(input.as_slice());
    let mut output = [0u8; 64];
    sha3.finalize(&mut output);
    output.to_vec()
}

/// The rounded commitment serialized as big-endian 16-bit values, over
/// its first `k` entries.
pub open spec fn w_bytes(w: Seq<i32>, k: int) -> Seq<u8>
    decreases k,
{
    if k <= 0 {
        Seq::empty()
    } else {
        w_bytes(w, k - 1) + seq![
            ((w[k - 1] as int) / 256) as u8,
            ((w[k - 1] as int) % 256) as u8,
        ]
    }
}

/// The byte string hashed in counter round `r`: the digest, then every
/// entry of the rounded commitment as a big-endian 16-bit value, then the
/// counter itself as a big-endian 16-bit value.
pub open spec fn oracle_input(digest: Seq<u8>, w: Seq<i32>, r: int) -> Seq<u8> {
    digest + w_bytes(w, w.len() as int) + seq![(r / 256) as u8, (r % 256) as u8]
}

/// The 32 candidate indices one hash output yields: consecutive byte
/// pairs read as big-endian 16-bit values, reduced modulo `n`.
pub open spec fn round_candidates(h: Seq<u8>, n: int) -> Seq<usize> {
    Seq::new(32, |t: int| (((h[2 * t] * 256 + h[2 * t + 1]) % n) as usize))
}

/// Appends candidates not yet selected, in encounter order, until `kappa`
/// indices are collected.
pub open spec fn take_distinct(cands: Seq<usize>, acc: Seq<usize>, kappa: int) -> Seq<usize>
    decreases cands.len(),
{
    if cands.len() == 0 || acc.len() >= kappa {
        acc
    } else {
        let c = cands.first();
        let acc2 = if acc.contains(c) {
            acc
        } else {
            acc.push(c)
        };
        take_distinct(cands.drop_first(), acc2, kappa)
    }
}

/// The oracle's remaining computation from counter round `r` with the
/// indices in `acc` already selected: rounds are scanned in order until
/// `kappa` distinct indices are collected or the counter ceiling 65535 is
/// reached.
pub open spec fn oracle_rec(
    digest: Seq<u8>,
    w: Seq<i32>,
    n: int,
    kappa: int,
    r: int,
    acc: Seq<usize>,
) -> Option<Seq<usize>>
    decreases 65535 - r,
{
    if acc.len() >= kappa {
        Some(acc)
    } else if r >= 65535 {
        None
    } else {
        oracle_rec(
            digest,
            w,
            n,
            kappa,
            r + 1,
            take_distinct(
                round_candidates(sha3_512_digest(oracle_input(digest, w, r)), n),
                acc,
                kappa,
            ),
        )
    }
}

/// The ordered challenge index sequence derived from a digest and a
/// rounded commitment, or `None` if the counter ceiling is exhausted.
pub open spec fn challenge_spec(digest: Seq<u8>, w: Seq<i32>, n: int, kappa: int) -> Option<
    Seq<usize>,
> {
    oracle_rec(digest, w, n, kappa, 0, Seq::empty())
}

/// Oracle determinism: the challenge derivation is a pure function of the
/// digest and the rounded commitment, so two derivations from identical
/// inputs always yield identical ordered index sequences.
pub proof fn lemma_oracle_deterministic(
    digest: Seq<u8>,
    w: Seq<i32>,
    n: int,
    kappa: int,
    r1: Option<Seq<usize>>,
    r2: Option<Seq<usize>>,
)
    requires
        r1 == challenge_spec(digest, w, n, kappa),
        r2 == challenge_spec(digest, w, n, kappa),
    ensures
        r1 == r2,
{
}

/// Deterministic hash-driven challenge selection: for counter rounds
/// r = 0, 1, 2, ... below 65535, hashes (digest, commitment, r), scans
/// the output two bytes at a time as big-endian values reduced modulo
/// `n`, and collects the first `kappa` distinct indices in encounter
/// order into `c_idx`.  Returns `false` if the counter ceiling is
/// exhausted first.
#[verifier::rlimit(60)]
pub fn c_oracle(c_idx: &mut Vec<usize>, hash: &Vec<u8>, w: &Vec<i32>, ps: &ParameterSet) -> (ok:
    bool)
    requires
        ps.wf(),
        old(c_idx)@.len() == ps.kappa,
        hash@.len() == 64,
        w@.len() == ps.n,
        forall|k: int| 0 <= k < w@.len() ==> 0 <= #[trigger] w@[k] < 65536,
    ensures
        final(c_idx)@.len() == ps.kappa,
        ok <==> challenge_spec(hash@, w@, ps.n as int, ps.kappa as int) is Some,
        ok ==> Some(final(c_idx)@) == challenge_spec(hash@, w@, ps.n as int, ps.kappa as int),
        ok ==> forall|t: int| 0 <= t < ps.kappa ==> (#[trigger] final(c_idx)@[t]) < ps.n,
        ok ==> forall|t1: int, t2: int|
            0 <= t1 < t2 < ps.kappa ==> final(c_idx)@[t1] != final(c_idx)@[t2],
{
    let n = ps.n;
    let kappa = ps.kappa;
    let ghost ni = n as int;
    let ghost ki = kappa as int;
    let mut fl: Vec<u8> = Vec::new();
    let mut z: usize = 0;
    while z < n
        invariant
            z <= n,
            fl@.len() == z,
            forall|t: int| 0 <= t < z ==> fl@[t] == 0,
        decreases n - z,
    {
        fl.push(0);
        z += 1;
    }
    let mut idx_i: usize = 0;
    let ghost mut acc: Seq<usize> = Seq::empty();
    let mut r: u32 = 0;
    while r < 65535
        invariant
            ps.wf(),
            n == ps.n,
            kappa == ps.kappa,
            ni == n as int,
            ki == kappa as int,
            w@.len() == n,
            forall|k: int| 0 <= k < w@.len() ==> 0 <= #[trigger] w@[k] < 65536,
            c_idx@.len() == kappa,
            fl@.len() == n,
            idx_i < kappa,
            acc.len() == idx_i,
            acc == c_idx@.take(idx_i as int),
            forall|t: int| 0 <= t < n ==> (fl@[t] == 1 <==> acc.contains(t as usize)),
            forall|t: int| 0 <= t < n ==> fl@[t] == 0 || fl@[t] == 1,
            forall|t: int| 0 <= t < acc.len() ==> (#[trigger] acc[t]) < n,
            forall|t1: int, t2: int| 0 <= t1 < t2 < acc.len() ==> acc[t1] != acc[t2],
            challenge_spec(hash@, w@, ni, ki) == oracle_rec(hash@, w@, ni, ki, r as int, acc),
        decreases 65535 - r,
    {
        // the bytes hashed this round: digest, commitment, counter
        let mut msg: Vec<u8> = Vec::new();
        let mut a: usize = 0;
        while a < hash.len()
            invariant
                a <= hash@.len(),
                msg@ == hash@.take(a as int),
            decreases hash@.len() - a,
        {
            msg.push(hash[a]);
            a += 1;
        }
        proof {
            assert(hash@.take(hash@.len() as int) =~= hash@);
        }
        let mut a: usize = 0;
        while a < n
            invariant
                n == ps.n,
                w@.len() == n,
                forall|k: int| 0 <= k < w@.len() ==> 0 <= #[trigger] w@[k] < 65536,
                a <= n,
                msg@ == hash@ + w_bytes(w@, a as int),
            decreases n - a,
        {
            let wv = w[a];
            msg.push((wv / 256) as u8);
            msg.push((wv % 256) as u8);
            a += 1;
        }
        msg.push((r / 256) as u8);
        msg.push((r % 256) as u8);
        proof {
            assert(msg@ =~= oracle_input(hash@, w@, r as int));
        }
        let h = sha3_512(&msg);
        let ghost cands = round_candidates(h@, ni);
        proof {
            assert(h@ == sha3_512_digest(oracle_input(hash@, w@, r as int)));
            assert(cands.skip(0) =~= cands);
            assert(oracle_rec(hash@, w@, ni, ki, r as int, acc) == oracle_rec(
                hash@,
                w@,
                ni,
                ki,
                r as int + 1,
                take_distinct(cands, acc, ki),
            ));
        }
        let mut t: usize = 0;
        while t < 32
            invariant
                ps.wf(),
                n == ps.n,
                kappa == ps.kappa,
                ni == n as int,
                ki == kappa as int,
                h@.len() == 64,
                cands == round_candidates(h@, ni),
                c_idx@.len() == kappa,
                fl@.len() == n,
                t <= 32,
                idx_i < kappa,
                acc.len() == idx_i,
                acc == c_idx@.take(idx_i as int),
                forall|u: int| 0 <= u < n ==> (fl@[u] == 1 <==> acc.contains(u as usize)),
                forall|u: int| 0 <= u < n ==> fl@[u] == 0 || fl@[u] == 1,
                forall|u: int| 0 <= u < acc.len() ==> (#[trigger] acc[u]) < n,
                forall|t1: int, t2: int| 0 <= t1 < t2 < acc.len() ==> acc[t1] != acc[t2],
                challenge_spec(hash@, w@, ni, ki) == oracle_rec(
                    hash@,
                    w@,
                    ni,
                    ki,
                    r as int + 1,
                    take_distinct(cands.skip(t as int), acc, ki),
                ),
            decreases 32 - t,
        {
            let b0 = h[2 * t];
            let b1 = h[2 * t + 1];
            let idx = ((b0 as usize) * 256 + (b1 as usize)) % n;
            proof {
                assert(cands.skip(t as int).first() == cands[t as int]);
                assert(cands.skip(t as int).drop_first() =~= cands.skip(t as int + 1));
                assert(idx == cands[t as int]);
            }
            if fl[idx] == 0 {
                proof {
                    assert(!acc.contains(idx));
                }
                c_idx[idx_i] = idx;
                fl[idx] = 1;
                let ghost accpre = acc;
                proof {
                    acc = acc.push(idx);
                    assert(acc == accpre.push(idx));
                    assert forall|u: int| 0 <= u < n implies (fl@[u] == 1 <==> acc.contains(
                        u as usize,
                    )) by {
                        if u == idx {
                            assert(acc[acc.len() - 1] == idx);
                            assert(acc.contains(idx));
                        } else {
                            assert(forall|v: int|
                                0 <= v < accpre.len() ==> acc[v] == accpre[v]);
                            if acc.contains(u as usize) {
                                let v = choose|v: int|
                                    0 <= v < acc.len() && acc[v] == u as usize;
                                assert(v < accpre.len());
                                assert(accpre.contains(u as usize));
                            }
                            if accpre.contains(u as usize) {
                                let v = choose|v: int|
                                    0 <= v < accpre.len() && accpre[v] == u as usize;
                                assert(acc[v] == u as usize);
                            }
                        }
                    }
                    assert(acc =~= c_idx@.take(idx_i as int + 1));
                }
                idx_i += 1;
                if idx_i == kappa {
                    proof {
                        assert(take_distinct(cands.skip(t as int), accpre, ki) == take_distinct(
                            cands.skip(t as int + 1),
                            acc,
                            ki,
                        ));
                        assert(take_distinct(cands.skip(t as int + 1), acc, ki) == acc);
                        assert(oracle_rec(hash@, w@, ni, ki, r as int + 1, acc) == Some(acc));
                        assert(c_idx@.take(ki) =~= c_idx@);
                    }
                    return true;
                }
            }
            t += 1;
        }
        proof {
            assert(cands.skip(32) =~= Seq::<usize>::empty());
            assert(take_distinct(cands.skip(32), acc, ki) == acc);
        }
        r += 1;
    }
    proof {
        assert(oracle_rec(hash@, w@, ni, ki, 65535, acc) is None);
    }
    false
}

} // verus!
