use blissb::param::ParameterSet;
use blissb::rng::EntropySource;
use blissb::PrivateKey;
use blissb::PublicKey;
use blissb::Signature;
use rand::Rng;
use rand::SeedableRng;

struct OsEntropy {
    rng: rand::rngs::StdRng,
}

impl OsEntropy {
    fn new() -> OsEntropy {
        OsEntropy { rng: rand::rngs::StdRng::from_entropy() }
    }
}

impl EntropySource for OsEntropy {
    fn next_u64(&mut self) -> u64 {
        self.rng.gen()
    }

    fn gauss(&mut self, sigma: u32) -> i32 {
        // Box-Muller transform, truncated toward zero
        loop {
            let u1: f64 = self.rng.gen();
            if u1 > 0.0 {
                let u2: f64 = self.rng.gen();
                let r = (-2.0 * u1.ln()).sqrt();
                let v = r * (2.0 * std::f64::consts::PI * u2).cos() * (sigma as f64);
                return v as i32;
            }
        }
    }

    fn coin(&mut self) -> bool {
        self.rng.gen()
    }

    fn accept_bimodal(&mut self, m_milli: u32, sigma: u32, norm_sq: i64, dot: i64) -> bool {
        let s2 = (sigma as f64) * (sigma as f64);
        let m = (m_milli as f64) / 1000.0;
        let d = 1.0 / (m * (-0.5 * (norm_sq as f64) / s2).exp() * ((dot as f64) / s2).cosh());
        self.rng.gen::<f64>() <= d
    }
}

fn digest_of(msg: &[u8]) -> Vec<u8> {
    let mut sha3 = tiny_keccak::Keccak::new_sha3_512();
    sha3.update(msg);
    let mut out = [0u8; 64];
    sha3.finalize(&mut out);
    out.to_vec()
}

#[test]
fn test_sign() {
    let ps = ParameterSet::bliss_i();
    let hash = digest_of(b"Hello blissb.");
    let zero = vec![0u8; 64];
    for _ in 0..1024 {
        let mut rng = OsEntropy::new();
        let sk = PrivateKey::new(&ps, &mut rng).unwrap();
        let pk = sk.public();
        let sign = sk.signature(&ps, &hash, &mut rng).unwrap();
        assert!(pk.verify(&ps, &sign, &hash));
        assert!(!pk.verify(&ps, &sign, &zero));
    }
}

#[test]
fn test_export_import() {
    let ps = ParameterSet::bliss_i();
    let hash = digest_of(b"Hello blissb.");
    for _ in 0..1024 {
        let mut rng = OsEntropy::new();
        let sk = PrivateKey::new(&ps, &mut rng).unwrap();
        let pk = sk.public();
        let sign = sk.signature(&ps, &hash, &mut rng).unwrap();
        let sk_bytes = sk.export(&ps).unwrap();
        let pk_bytes = pk.export(&ps).unwrap();

        let sk2 = PrivateKey::import(&sk_bytes, &ps).unwrap();
        let pk2 = PublicKey::import(&pk_bytes, &ps).unwrap();

        assert!(pk2.verify(&ps, &sign, &hash));

        let sign = sk2.signature(&ps, &hash, &mut rng).unwrap();
        let sign_bytes = sign.export(&ps).unwrap();
        let sign2 = Signature::import(&sign_bytes, &ps).unwrap();

        assert!(pk.verify(&ps, &sign2, &hash));
    }
}
