use blissb::ntt::{fft, flp, pwr, xmu};
use blissb::oracle::c_oracle;
use blissb::param::ParameterSet;
use blissb::poly::{greedy_sc, uniform_poly, vecabsmax, vecscalar};
use blissb::rng::EntropySource;
use blissb::BlissError;
use blissb::PrivateKey;
use blissb::PublicKey;
use blissb::Signature;
use rand::Rng;
use rand::SeedableRng;

struct SeededEntropy {
    rng: rand::rngs::StdRng,
}

impl SeededEntropy {
    fn new(seed: u64) -> SeededEntropy {
        SeededEntropy { rng: rand::rngs::StdRng::seed_from_u64(seed) }
    }
}

impl EntropySource for SeededEntropy {
    fn next_u64(&mut self) -> u64 {
        self.rng.gen()
    }

    fn gauss(&mut self, sigma: u32) -> i32 {
        loop {
            let u1: f64 = self.rng.gen();
            if u1 > 0.0 {
                let u2: f64 = self.rng.gen();
                let r = (-2.0 * u1.ln()).sqrt();
                let v = r * (2.0 * std::f64::consts::PI * u2).cos() * (sigma as f64);
                return v as i32;
            }
        }
    }

    fn coin(&mut self) -> bool {
        self.rng.gen()
    }

    fn accept_bimodal(&mut self, m_milli: u32, sigma: u32, norm_sq: i64, dot: i64) -> bool {
        let s2 = (sigma as f64) * (sigma as f64);
        let m = (m_milli as f64) / 1000.0;
        let d = 1.0 / (m * (-0.5 * (norm_sq as f64) / s2).exp() * ((dot as f64) / s2).cosh());
        self.rng.gen::<f64>() <= d
    }
}

fn sha3_512_of(msg: &[u8]) -> Vec<u8> {
    let mut sha3 = tiny_keccak::Keccak::new_sha3_512();
    sha3.update(msg);
    let mut out = [0u8; 64];
    sha3.finalize(&mut out);
    out.to_vec()
}

/// Ring multiplication through the public transform pipeline.
fn ring_mul(ps: &ParameterSet, p1: &Vec<i32>, qhat: &Vec<i32>) -> Vec<i32> {
    let n = ps.n;
    let mut v = vec![0i32; n];
    let mut vv = vec![0i32; n];
    xmu(&mut v, p1, &ps.w, ps);
    fft(&mut v, ps);
    xmu(&mut vv, &v, qhat, ps);
    fft(&mut vv, ps);
    xmu(&mut v, &vv, &ps.r, ps);
    flp(&mut v, ps);
    v
}

/// The twisted transform of a coefficient vector.
fn twist_fft(ps: &ParameterSet, p: &Vec<i32>) -> Vec<i32> {
    let n = ps.n;
    let mut v = vec![0i32; n];
    xmu(&mut v, p, &ps.w, ps);
    fft(&mut v, ps);
    v
}

/// Schoolbook negacyclic product modulo (X^n + 1, q).
fn schoolbook(ps: &ParameterSet, p1: &Vec<i32>, p2: &Vec<i32>) -> Vec<i32> {
    let n = ps.n;
    let q = ps.q as i64;
    let mut out = vec![0i64; n];
    for i in 0..n {
        for j in 0..n {
            let prod = (p1[i] as i64) * (p2[j] as i64) % q;
            if i + j < n {
                out[i + j] = (out[i + j] + prod).rem_euclid(q);
            } else {
                out[i + j - n] = (out[i + j - n] - prod).rem_euclid(q);
            }
        }
    }
    out.iter().map(|&x| x as i32).collect()
}

#[test]
fn test_ring_multiply_matches_schoolbook() {
    for ps in [ParameterSet::bliss_0(), ParameterSet::bliss_i()] {
        let n = ps.n;
        let mut p1 = vec![0i32; n];
        let mut p2 = vec![0i32; n];
        let mut seed: u64 = 12345;
        for i in 0..n {
            seed = seed.wrapping_mul(6364136223846793005).wrapping_add(1442695040888963407);
            p1[i] = ((seed >> 33) % 7) as i32 - 3;
            seed = seed.wrapping_mul(6364136223846793005).wrapping_add(1442695040888963407);
            p2[i] = ((seed >> 33) % 7) as i32 - 3;
        }
        let qhat = twist_fft(&ps, &p2);
        let got = ring_mul(&ps, &p1, &qhat);
        let want = schoolbook(&ps, &p1, &p2);
        assert_eq!(got, want);
    }
}

#[test]
fn test_generated_key_satisfies_ring_identity() {
    let ps = ParameterSet::bliss_0();
    let q = ps.q;
    let mut rng = SeededEntropy::new(42);
    let sk = PrivateKey::new(&ps, &mut rng).unwrap();
    // the stored public transform, multiplied by f, yields g up to sign
    let rm = ring_mul(&ps, &sk.f, &sk.a);
    let n = ps.n;
    let eq_g = (0..n).all(|i| rm[i] == sk.g[i].rem_euclid(q));
    let eq_neg_g = (0..n).all(|i| (rm[i] + sk.g[i].rem_euclid(q)) % q == 0);
    assert!(eq_g || eq_neg_g);
}

#[test]
fn test_fermat_invertibility() {
    // every coefficient of the transformed secret is invertible modulo q
    let ps = ParameterSet::bliss_0();
    let q = ps.q;
    let mut rng = SeededEntropy::new(77);
    let sk = PrivateKey::new(&ps, &mut rng).unwrap();
    let transformed_f = twist_fft(&ps, &sk.f);
    for i in 0..ps.n {
        assert_eq!(pwr(transformed_f[i], q - 1, q), 1);
    }
}

#[test]
fn test_round_trip_private_key() {
    let ps = ParameterSet::bliss_i();
    let mut rng = SeededEntropy::new(5);
    let sk = PrivateKey::new(&ps, &mut rng).unwrap();
    let bytes = sk.export(&ps).unwrap();
    assert_eq!(bytes.len(), ps.privatekey_length());
    let sk2 = PrivateKey::import(&bytes, &ps).unwrap();
    assert_eq!(sk.f, sk2.f);
    assert_eq!(sk.g, sk2.g);
    assert_eq!(sk.a, sk2.a);
}

#[test]
fn test_round_trip_public_key() {
    let ps = ParameterSet::bliss_i();
    let mut rng = SeededEntropy::new(6);
    let sk = PrivateKey::new(&ps, &mut rng).unwrap();
    let pk = sk.public();
    let bytes = pk.export(&ps).unwrap();
    assert_eq!(bytes.len(), ps.publickey_length());
    let pk2 = PublicKey::import(&bytes, &ps).unwrap();
    assert_eq!(pk.a, pk2.a);
}

#[test]
fn test_round_trip_signature() {
    let ps = ParameterSet::bliss_i();
    let mut rng = SeededEntropy::new(7);
    let sk = PrivateKey::new(&ps, &mut rng).unwrap();
    let hash = sha3_512_of(b"round trip");
    let sig = sk.signature(&ps, &hash, &mut rng).unwrap();
    let bytes = sig.export(&ps).unwrap();
    assert_eq!(bytes.len(), ps.signature_length());
    assert_eq!(bytes.len() % 4, 0);
    let sig2 = Signature::import(&bytes, &ps).unwrap();
    assert_eq!(sig.t, sig2.t);
    assert_eq!(sig.z, sig2.z);
    assert_eq!(sig.c_idx, sig2.c_idx);
}

#[test]
fn test_export_rejects_out_of_range() {
    let ps = ParameterSet::bliss_i();
    let n = ps.n;
    let key = PrivateKey { f: vec![100; n], g: vec![0; n], a: vec![0; n] };
    assert_eq!(key.export(&ps).unwrap_err(), BlissError::EncodingError);
    let sig = Signature { t: vec![0; n], z: vec![100; n], c_idx: vec![0; ps.kappa] };
    assert_eq!(sig.export(&ps).unwrap_err(), BlissError::EncodingError);
}

#[test]
fn test_import_rejects_wrong_length() {
    let ps = ParameterSet::bliss_i();
    let short = vec![0u8; 3];
    assert_eq!(PrivateKey::import(&short, &ps).unwrap_err(), BlissError::DecodingError);
    assert_eq!(PublicKey::import(&short, &ps).unwrap_err(), BlissError::DecodingError);
    assert_eq!(Signature::import(&short, &ps).unwrap_err(), BlissError::DecodingError);
}

#[test]
fn test_oracle_deterministic() {
    let ps = ParameterSet::bliss_0();
    let hash = sha3_512_of(b"oracle determinism");
    let w: Vec<i32> = (0..ps.n).map(|i| (i as i32 * 7) % ps.p).collect();
    let mut idx1 = vec![0usize; ps.kappa];
    let mut idx2 = vec![0usize; ps.kappa];
    assert!(c_oracle(&mut idx1, &hash, &w, &ps));
    assert!(c_oracle(&mut idx2, &hash, &w, &ps));
    assert_eq!(idx1, idx2);
}

#[test]
fn test_oracle_matches_direct_hash() {
    // recompute the first selection round by hand; if the hash primitive
    // mangled or echoed its input the indices would differ
    let ps = ParameterSet::bliss_0();
    let n = ps.n;
    let hash = sha3_512_of(b"oracle direct");
    let w: Vec<i32> = (0..n).map(|i| (i as i32 * 3 + 1) % ps.p).collect();
    let mut msg = hash.clone();
    for i in 0..n {
        msg.push((w[i] / 256) as u8);
        msg.push((w[i] % 256) as u8);
    }
    msg.push(0);
    msg.push(0);
    let digest = sha3_512_of(&msg);
    let mut expected = Vec::new();
    for i in (0..64).step_by(2) {
        let idx = ((digest[i] as usize) * 256 + digest[i + 1] as usize) % n;
        if !expected.contains(&idx) {
            expected.push(idx);
            if expected.len() == ps.kappa {
                break;
            }
        }
    }
    assert_eq!(expected.len(), ps.kappa);
    let mut got = vec![0usize; ps.kappa];
    assert!(c_oracle(&mut got, &hash, &w, &ps));
    assert_eq!(got, expected);
}

#[test]
fn test_oracle_digest_sensitivity() {
    let ps = ParameterSet::bliss_0();
    let w: Vec<i32> = (0..ps.n).map(|i| (i as i32 * 5) % ps.p).collect();
    let mut idx1 = vec![0usize; ps.kappa];
    let mut idx2 = vec![0usize; ps.kappa];
    assert!(c_oracle(&mut idx1, &sha3_512_of(b"one"), &w, &ps));
    assert!(c_oracle(&mut idx2, &sha3_512_of(b"two"), &w, &ps));
    assert_ne!(idx1, idx2);
}

#[test]
fn test_norm_rejection() {
    // an oversized t coefficient must fail verification even though the
    // challenge recombination would otherwise match
    let ps = ParameterSet::bliss_i();
    let mut rng = SeededEntropy::new(11);
    let sk = PrivateKey::new(&ps, &mut rng).unwrap();
    let pk = sk.public();
    let hash = sha3_512_of(b"norm rejection");
    let mut sig = sk.signature(&ps, &hash, &mut rng).unwrap();
    assert!(pk.verify(&ps, &sig, &hash));
    sig.t[0] = ps.b_inf + 1;
    assert!(!pk.verify(&ps, &sig, &hash));
    sig.t[0] = -(ps.b_inf + 1);
    assert!(!pk.verify(&ps, &sig, &hash));
}

#[test]
fn test_verify_rejects_out_of_range_index() {
    let ps = ParameterSet::bliss_i();
    let mut rng = SeededEntropy::new(12);
    let sk = PrivateKey::new(&ps, &mut rng).unwrap();
    let pk = sk.public();
    let hash = sha3_512_of(b"bad index");
    let mut sig = sk.signature(&ps, &hash, &mut rng).unwrap();
    assert!(pk.verify(&ps, &sig, &hash));
    sig.c_idx[0] = ps.n;
    assert!(!pk.verify(&ps, &sig, &hash));
}

#[test]
fn test_sign_smallest_preset() {
    // the toy preset's squared-norm bound statistically rejects a small
    // fraction of honest signatures, so the scenario allows a few tries
    let ps = ParameterSet::bliss_0();
    let hash = sha3_512_of(b"Hello blissb.");
    let zero = vec![0u8; 64];
    let mut rng = SeededEntropy::new(13);
    let mut done = false;
    for _ in 0..64 {
        let sk = PrivateKey::new(&ps, &mut rng).unwrap();
        let pk = sk.public();
        let sig = sk.signature(&ps, &hash, &mut rng).unwrap();
        if pk.verify(&ps, &sig, &hash) {
            assert!(!pk.verify(&ps, &sig, &zero));
            done = true;
            break;
        }
    }
    assert!(done);
}

#[test]
fn test_pwr_exact() {
    assert_eq!(pwr(3, 10, 1000), 49);
    assert_eq!(pwr(5, 0, 7), 1);
    assert_eq!(pwr(0, 5, 7), 0);
    assert_eq!(pwr(-2, 3, 7), 6);
    assert_eq!(pwr(2, 12, 7681), 4096);
    assert_eq!(pwr(2, 13, 7681), 511);
}

#[test]
fn test_vector_helpers_exact() {
    let v = vec![3, -7, 5, 0];
    assert_eq!(vecabsmax(&v), 7);
    assert_eq!(vecabsmax(&vec![]), 0);
    let t = vec![1, 2, 3];
    let u = vec![4, -5, 6];
    assert_eq!(vecscalar(&t, &u), 4 - 10 + 18);
}

#[test]
fn test_uniform_poly_counts() {
    let ps = ParameterSet::bliss_0();
    let mut rng = SeededEntropy::new(21);
    let mut v = vec![0i32; ps.n];
    assert!(uniform_poly(&mut v, &ps, &mut rng));
    let ones = v.iter().filter(|&&x| x == 1 || x == -1).count();
    let twos = v.iter().filter(|&&x| x == 2 || x == -2).count();
    let others = v.iter().filter(|&&x| x != 0 && x.abs() != 1 && x.abs() != 2).count();
    assert_eq!(ones, ps.nz1);
    assert_eq!(twos, ps.nz2);
    assert_eq!(others, 0);
}

#[test]
fn test_greedy_first_index_zero() {
    // with zero accumulators the correlation is zero, so the shift is
    // added: index 0 adds f and g themselves
    let ps = ParameterSet::bliss_0();
    let n = ps.n;
    let mut f = vec![0i32; n];
    let mut g = vec![0i32; n];
    f[0] = 1;
    f[1] = -2;
    g[0] = 3;
    g[2] = -1;
    let c_idx: Vec<usize> = (0..ps.kappa).map(|k| 10 + k).collect();
    let mut x = vec![0i32; n];
    let mut y = vec![0i32; n];
    // only the first index matters here: make all later shifts collide
    // with nothing by using a single-index run via kappa-many distinct
    // indices and checking the first shift's effect at untouched slots
    greedy_sc(&f, &g, &c_idx, &mut x, &mut y, &ps);
    // every shift of f touches slots {i, i+1}; with indices 10..10+kappa
    // the slot 10 is touched once, by the first shift, with sign +1
    assert_eq!(x[10], 1);
    assert_eq!(y[10], 3);
}

#[test]
fn test_greedy_wraparound_negates() {
    let ps = ParameterSet::bliss_0();
    let n = ps.n;
    let mut f = vec![0i32; n];
    let mut g = vec![0i32; n];
    f[n - 1] = 2;
    g[n - 1] = 1;
    let mut c_idx: Vec<usize> = (0..ps.kappa).map(|k| k + 1).collect();
    c_idx[0] = 1;
    let mut x = vec![0i32; n];
    let mut y = vec![0i32; n];
    greedy_sc(&f, &g, &c_idx, &mut x, &mut y, &ps);
    // the shift by 1 wraps f[n-1] to slot 0 with negated sign; the first
    // step adds (correlation 0), later steps wrap to slots 1..kappa-1
    assert_eq!(x[0], -2);
    assert_eq!(y[0], -1);
}

/// An entropy source that always lands on slot zero and always draws the
/// same huge Gaussian sample.
struct StuckEntropy;

impl EntropySource for StuckEntropy {
    fn next_u64(&mut self) -> u64 {
        0
    }

    fn gauss(&mut self, _sigma: u32) -> i32 {
        i32::MAX
    }

    fn coin(&mut self) -> bool {
        false
    }

    fn accept_bimodal(&mut self, _m: u32, _s: u32, _n: i64, _d: i64) -> bool {
        false
    }
}

#[test]
fn test_keygen_exhaustion() {
    // a source that always proposes the same occupied slot can never
    // finish the sparse sampling
    let ps = ParameterSet::bliss_0();
    let mut rng = StuckEntropy;
    match PrivateKey::new(&ps, &mut rng) {
        Err(BlissError::KeyGenerationExhausted) => (),
        _ => panic!("expected key generation to give up"),
    }
}

#[test]
fn test_sign_exhaustion() {
    // a source whose Gaussian draws are always out of range fails every
    // signing attempt
    let ps = ParameterSet::bliss_0();
    let mut rng = SeededEntropy::new(31);
    let sk = PrivateKey::new(&ps, &mut rng).unwrap();
    let hash = vec![9u8; 64];
    let mut stuck = StuckEntropy;
    match sk.signature(&ps, &hash, &mut stuck) {
        Err(BlissError::SignatureGenerationExhausted) => (),
        _ => panic!("expected signing to give up"),
    }
}

#[test]
fn test_keygen_g_structure() {
    // g is 2*(sparse ternary) - 1 at slot 0: halving it back yields a
    // vector with exactly the documented nonzero counts
    let ps = ParameterSet::bliss_0();
    let mut rng = SeededEntropy::new(23);
    let sk = PrivateKey::new(&ps, &mut rng).unwrap();
    assert_eq!(sk.g[0] % 2 != 0, true);
    let mut s = sk.g.clone();
    s[0] += 1;
    for v in s.iter_mut() {
        assert_eq!(*v % 2, 0);
        *v /= 2;
    }
    let ones = s.iter().filter(|&&x| x.abs() == 1).count();
    let twos = s.iter().filter(|&&x| x.abs() == 2).count();
    let others = s.iter().filter(|&&x| x != 0 && x.abs() != 1 && x.abs() != 2).count();
    assert_eq!(ones, ps.nz1);
    assert_eq!(twos, ps.nz2);
    assert_eq!(others, 0);
}
