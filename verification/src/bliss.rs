use vstd::prelude::*;
use crate::codec::{
    bits_to_bytes, bytes_bits, bytes_to_bits, decoded_field, encode_privatekey_spec,
    encode_publickey_spec, encode_signature_spec, lemma_bytes_bits_len_pub, offs, pow2_i64,
    privatekey_bits_spec, privatekey_in_range, publickey_bits_spec, publickey_in_range,
    push_block, push_idx_block, read_block, read_idx_block, signature_bits_spec,
    signature_in_range,
};
use crate::ntt::{cmu, fft, fft_spec, flp, flp_spec, pointwise_mul, pwr, ring_mul_spec, xmu};
use crate::oracle::{c_oracle, challenge_spec};
use crate::param::ParameterSet;
use crate::poly::{
    absmax, count_abs, dot, greedy_rec, greedy_sc, ints, uniform_poly, vecabsmax, vecscalar,
    zero_poly,
};
use crate::rng::EntropySource;

verus! {

use vstd::arithmetic::power::pow;
use vstd::arithmetic::power2::pow2;

/// Why an operation of this library failed.
#[derive(Clone, Copy, Debug, PartialEq, Eq)]
pub enum BlissError {
    /// No invertible secret polynomial was found within the attempt bound.
    KeyGenerationExhausted,
    /// No bimodal sample was accepted within the attempt bound.
    SignatureGenerationExhausted,
    /// The challenge derivation ran out of counter rounds.
    OracleExhausted,
    /// A coefficient does not fit its serialized field.
    EncodingError,
    /// The supplied buffer has the wrong length for the parameter set.
    DecodingError,
}

/// A private key: the two sparse secret polynomials and the derived
/// public polynomial, the latter kept in twisted transform domain.
#[derive(Debug)]
pub struct PrivateKey {
    pub f: Vec<i32>,
    pub g: Vec<i32>,
    pub a: Vec<i32>,
}

/// A public key: the derived polynomial of a private key.
#[derive(Debug)]
pub struct PublicKey {
    pub a: Vec<i32>,
}

/// A signature: the Gaussian component `t`, the rounded residual `z`,
/// and the ordered challenge index sequence.
#[derive(Debug)]
pub struct Signature {
    pub t: Vec<i32>,
    pub z: Vec<i32>,
    pub c_idx: Vec<usize>,
}

/// An exact copy of a coefficient vector.
fn copy_poly(v: &Vec<i32>) -> (out: Vec<i32>)
    ensures
        out@ == v@,
{
    let mut out: Vec<i32> = Vec::new();
    let mut i: usize = 0;
    while i < v.len()
        invariant
            i <= v@.len(),
            out@ == v@.take(i as int),
        decreases v@.len() - i,
    {
        out.push(v[i]);
        i += 1;
    }
    proof {
        assert(v@.take(v@.len() as int) =~= v@);
    }
    out
}

impl PrivateKey {
    /// Structural well-formedness of a generated private key under a
    /// parameter set: the coefficient ranges the generator establishes.
    pub open spec fn wf(&self, ps: ParameterSet) -> bool {
        &&& self.f@.len() == ps.n
        &&& self.g@.len() == ps.n
        &&& self.a@.len() == ps.n
        &&& forall|k: int| 0 <= k < ps.n ==> -2 <= #[trigger] self.f@[k] <= 2
        &&& forall|k: int| 0 <= k < ps.n ==> -5 <= #[trigger] self.g@[k] <= 4
        &&& forall|k: int| 0 <= k < ps.n ==> 0 <= #[trigger] self.a@[k] < ps.q
    }

    /// The public key of this private key.
    pub fn public(&self) -> (pk: PublicKey)
        ensures
            pk.a@ == self.a@,
    {
        PublicKey { a: copy_poly(&self.a) }
    }

    /// Serializes the key: the `f`, `g` and `a` coefficient blocks, the
    /// first two in offset-binary form, packed into a fixed-size buffer.
    /// Fails with `EncodingError` exactly when some coefficient does not
    /// fit its field.
    pub fn export(&self, ps: &ParameterSet) -> (r: Result<Vec<u8>, BlissError>)
        requires
            ps.wf(),
            self.f@.len() == ps.n,
            self.g@.len() == ps.n,
            self.a@.len() == ps.n,
        ensures
            r is Ok <==> privatekey_in_range(self.f@, self.g@, self.a@, *ps),
            r matches Ok(buf) ==> buf@ == encode_privatekey_spec(self.f@, self.g@, self.a@, *ps),
            r matches Err(e) ==> e == BlissError::EncodingError,
    {
        let mut bits: Vec<bool> = Vec::new();
        let off_f = pow2_i64(ps.f_bits - 1);
        let off_g = pow2_i64(ps.g_bits - 1);
        proof {
            vstd::arithmetic::power2::lemma2_to64();
            if ps.f_bits - 1 < 29 {
                vstd::arithmetic::power2::lemma_pow2_strictly_increases(
                    (ps.f_bits - 1) as nat,
                    29,
                );
            }
            if ps.g_bits - 1 < 29 {
                vstd::arithmetic::power2::lemma_pow2_strictly_increases(
                    (ps.g_bits - 1) as nat,
                    29,
                );
            }
        }
        if !push_block(&mut bits, &self.f, off_f, ps.f_bits) {
            proof {
                if privatekey_in_range(self.f@, self.g@, self.a@, *ps) {
                    assert forall|j: int| 0 <= j < self.f@.len() implies 0 <= #[trigger] offs(
                        self.f@,
                        off_f as int,
                    )[j] < pow2(ps.f_bits as nat) by {
                        assert(offs(self.f@, off_f as int)[j] == self.f@[j] + off_f);
                    }
                }
            }
            return Err(BlissError::EncodingError);
        }
        if !push_block(&mut bits, &self.g, off_g, ps.g_bits) {
            proof {
                if privatekey_in_range(self.f@, self.g@, self.a@, *ps) {
                    assert forall|j: int| 0 <= j < self.g@.len() implies 0 <= #[trigger] offs(
                        self.g@,
                        off_g as int,
                    )[j] < pow2(ps.g_bits as nat) by {
                        assert(offs(self.g@, off_g as int)[j] == self.g@[j] + off_g);
                    }
                }
            }
            return Err(BlissError::EncodingError);
        }
        if !push_block(&mut bits, &self.a, 0, ps.a_bits) {
            proof {
                if privatekey_in_range(self.f@, self.g@, self.a@, *ps) {
                    assert forall|j: int| 0 <= j < self.a@.len() implies 0 <= #[trigger] offs(
                        self.a@,
                        0,
                    )[j] < pow2(ps.a_bits as nat) by {
                        assert(offs(self.a@, 0)[j] == self.a@[j] + 0);
                    }
                }
            }
            return Err(BlissError::EncodingError);
        }
        let len = ps.privatekey_length();
        proof {
            assert forall|j: int| 0 <= j < ps.n implies 0 <= #[trigger] (self.f@[j] + pow2(
                (ps.f_bits - 1) as nat,
            )) < pow2(ps.f_bits as nat) by {
                assert(offs(self.f@, off_f as int)[j] == self.f@[j] + off_f);
            }
            assert forall|j: int| 0 <= j < ps.n implies 0 <= #[trigger] (self.g@[j] + pow2(
                (ps.g_bits - 1) as nat,
            )) < pow2(ps.g_bits as nat) by {
                assert(offs(self.g@, off_g as int)[j] == self.g@[j] + off_g);
            }
            assert forall|j: int| 0 <= j < ps.n implies 0 <= #[trigger] (self.a@[j] as int)
                < pow2(ps.a_bits as nat) by {
                assert(offs(self.a@, 0)[j] == self.a@[j] + 0);
            }
            assert(bits@ =~= privatekey_bits_spec(self.f@, self.g@, self.a@, *ps));
            crate::codec::lemma_privatekey_stream_len(self.f@, self.g@, self.a@, *ps);
            crate::codec::lemma_privatekey_layout(*ps);
        }
        Ok(bits_to_bytes(&bits, len))
    }

    /// Deserializes a key from a buffer of exactly the expected length;
    /// fails with `DecodingError` on any other length.
    pub fn import(input: &Vec<u8>, ps: &ParameterSet) -> (r: Result<PrivateKey, BlissError>)
        requires
            ps.wf(),
        ensures
            r is Ok <==> input@.len() == ps.privatekey_length_spec(),
            r matches Err(e) ==> e == BlissError::DecodingError,
            r matches Ok(key) ==> {
                &&& key.f@.len() == ps.n
                &&& key.g@.len() == ps.n
                &&& key.a@.len() == ps.n
                &&& forall|j: int|
                    0 <= j < ps.n ==> #[trigger] key.f@[j] as int == decoded_field(
                        input@,
                        j * ps.f_bits,
                        ps.f_bits as int,
                        pow2((ps.f_bits - 1) as nat) as int,
                    )
                &&& forall|j: int|
                    0 <= j < ps.n ==> #[trigger] key.g@[j] as int == decoded_field(
                        input@,
                        ps.n * ps.f_bits + j * ps.g_bits,
                        ps.g_bits as int,
                        pow2((ps.g_bits - 1) as nat) as int,
                    )
                &&& forall|j: int|
                    0 <= j < ps.n ==> #[trigger] key.a@[j] as int == decoded_field(
                        input@,
                        ps.n * ps.f_bits + ps.n * ps.g_bits + j * ps.a_bits,
                        ps.a_bits as int,
                        0,
                    )
            },
    {
        let len = ps.privatekey_length();
        if input.len() != len {
            return Err(BlissError::DecodingError);
        }
        let bits = bytes_to_bits(input);
        let n = ps.n;
        let off_f = pow2_i64(ps.f_bits - 1);
        let off_g = pow2_i64(ps.g_bits - 1);
        proof {
            vstd::arithmetic::power2::lemma2_to64();
            if ps.f_bits - 1 < 29 {
                vstd::arithmetic::power2::lemma_pow2_strictly_increases(
                    (ps.f_bits - 1) as nat,
                    29,
                );
            }
            if ps.g_bits - 1 < 29 {
                vstd::arithmetic::power2::lemma_pow2_strictly_increases(
                    (ps.g_bits - 1) as nat,
                    29,
                );
            }
            lemma_bytes_bits_len_pub(input@, len as int);
            crate::codec::lemma_privatekey_layout(*ps);
        }
        let f = read_block(&bits, 0, ps.f_bits, n, off_f);
        let g = read_block(&bits, n * ps.f_bits, ps.g_bits, n, off_g);
        let a = read_block(&bits, n * ps.f_bits + n * ps.g_bits, ps.a_bits, n, 0);
        proof {
            assert(bits@ == bytes_bits(input@, input@.len() as int));
            assert forall|j: int| 0 <= j < ps.n implies #[trigger] f@[j] as int == decoded_field(
                input@,
                j * ps.f_bits,
                ps.f_bits as int,
                pow2((ps.f_bits - 1) as nat) as int,
            ) by {
                assert(j * ps.f_bits + ps.f_bits == (j + 1) * ps.f_bits) by (nonlinear_arith);
            }
            assert forall|j: int| 0 <= j < ps.n implies #[trigger] g@[j] as int == decoded_field(
                input@,
                ps.n * ps.f_bits + j * ps.g_bits,
                ps.g_bits as int,
                pow2((ps.g_bits - 1) as nat) as int,
            ) by {
                assert(j * ps.g_bits + ps.g_bits == (j + 1) * ps.g_bits) by (nonlinear_arith);
            }
            assert forall|j: int| 0 <= j < ps.n implies #[trigger] a@[j] as int == decoded_field(
                input@,
                ps.n * ps.f_bits + ps.n * ps.g_bits + j * ps.a_bits,
                ps.a_bits as int,
                0,
            ) by {
                assert(j * ps.a_bits + ps.a_bits == (j + 1) * ps.a_bits) by (nonlinear_arith);
            }
        }
        Ok(PrivateKey { f, g, a })
    }
}

impl PublicKey {
    /// Structural well-formedness of a public key under a parameter set.
    pub open spec fn wf(&self, ps: ParameterSet) -> bool {
        &&& self.a@.len() == ps.n
        &&& forall|k: int| 0 <= k < ps.n ==> 0 <= #[trigger] self.a@[k] < ps.q
    }

    /// Serializes the key: the unsigned `a` coefficient block packed into
    /// a fixed-size buffer.  Fails with `EncodingError` exactly when some
    /// coefficient does not fit its field.
    pub fn export(&self, ps: &ParameterSet) -> (r: Result<Vec<u8>, BlissError>)
        requires
            ps.wf(),
            self.a@.len() == ps.n,
        ensures
            r is Ok <==> publickey_in_range(self.a@, *ps),
            r matches Ok(buf) ==> buf@ == encode_publickey_spec(self.a@, *ps),
            r matches Err(e) ==> e == BlissError::EncodingError,
    {
        let mut bits: Vec<bool> = Vec::new();
        if !push_block(&mut bits, &self.a, 0, ps.a_bits) {
            proof {
                if publickey_in_range(self.a@, *ps) {
                    assert forall|j: int| 0 <= j < self.a@.len() implies 0 <= #[trigger] offs(
                        self.a@,
                        0,
                    )[j] < pow2(ps.a_bits as nat) by {
                        assert(offs(self.a@, 0)[j] == self.a@[j] + 0);
                    }
                }
            }
            return Err(BlissError::EncodingError);
        }
        let len = ps.publickey_length();
        proof {
            assert forall|j: int| 0 <= j < ps.n implies 0 <= #[trigger] (self.a@[j] as int)
                < pow2(ps.a_bits as nat) by {
                assert(offs(self.a@, 0)[j] == self.a@[j] + 0);
            }
            assert(bits@ =~= publickey_bits_spec(self.a@, *ps));
            crate::codec::lemma_publickey_stream_len(self.a@, *ps);
            crate::codec::lemma_publickey_layout(*ps);
        }
        Ok(bits_to_bytes(&bits, len))
    }

    /// Deserializes a key from a buffer of exactly the expected length;
    /// fails with `DecodingError` on any other length.
    pub fn import(input: &Vec<u8>, ps: &ParameterSet) -> (r: Result<PublicKey, BlissError>)
        requires
            ps.wf(),
        ensures
            r is Ok <==> input@.len() == ps.publickey_length_spec(),
            r matches Err(e) ==> e == BlissError::DecodingError,
            r matches Ok(key) ==> {
                &&& key.a@.len() == ps.n
                &&& forall|j: int|
                    0 <= j < ps.n ==> #[trigger] key.a@[j] as int == decoded_field(
                        input@,
                        j * ps.a_bits,
                        ps.a_bits as int,
                        0,
                    )
            },
    {
        let len = ps.publickey_length();
        if input.len() != len {
            return Err(BlissError::DecodingError);
        }
        let bits = bytes_to_bits(input);
        proof {
            lemma_bytes_bits_len_pub(input@, len as int);
            crate::codec::lemma_publickey_layout(*ps);
        }
        let a = read_block(&bits, 0, ps.a_bits, ps.n, 0);
        proof {
            assert(bits@ == bytes_bits(input@, input@.len() as int));
            assert forall|j: int| 0 <= j < ps.n implies #[trigger] a@[j] as int == decoded_field(
                input@,
                j * ps.a_bits,
                ps.a_bits as int,
                0,
            ) by {
                assert(j * ps.a_bits + ps.a_bits == (j + 1) * ps.a_bits) by (nonlinear_arith);
            }
        }
        Ok(PublicKey { a })
    }
}

impl Signature {
    /// Structural well-formedness of a signature under a parameter set.
    pub open spec fn wf(&self, ps: ParameterSet) -> bool {
        &&& self.t@.len() == ps.n
        &&& self.z@.len() == ps.n
        &&& self.c_idx@.len() == ps.kappa
        &&& forall|k: int| 0 <= k < ps.n ==> -33023 <= #[trigger] self.t@[k] <= 33023
        &&& forall|k: int|
            0 <= k < ps.n ==> -(ps.p / 2) < #[trigger] self.z@[k] <= ps.p / 2
        &&& forall|k: int| 0 <= k < ps.kappa ==> (#[trigger] self.c_idx@[k]) < ps.n
    }

    /// Serializes the signature: the biased `t` and `z` blocks and the
    /// challenge index block, padded out to a four-byte multiple.  Fails
    /// with `EncodingError` exactly when some component does not fit its
    /// field.
    pub fn export(&self, ps: &ParameterSet) -> (r: Result<Vec<u8>, BlissError>)
        requires
            ps.wf(),
            self.t@.len() == ps.n,
            self.z@.len() == ps.n,
            self.c_idx@.len() == ps.kappa,
        ensures
            r is Ok <==> signature_in_range(self.t@, self.z@, self.c_idx@, *ps),
            r matches Ok(buf) ==> buf@ == encode_signature_spec(self.t@, self.z@, self.c_idx@, *ps),
            r matches Err(e) ==> e == BlissError::EncodingError,
    {
        let mut bits: Vec<bool> = Vec::new();
        let off_t = pow2_i64(ps.t_bits - 1);
        let off_z = pow2_i64(ps.z_bits - 1);
        proof {
            vstd::arithmetic::power2::lemma2_to64();
            if ps.t_bits - 1 < 29 {
                vstd::arithmetic::power2::lemma_pow2_strictly_increases(
                    (ps.t_bits - 1) as nat,
                    29,
                );
            }
            if ps.z_bits - 1 < 29 {
                vstd::arithmetic::power2::lemma_pow2_strictly_increases(
                    (ps.z_bits - 1) as nat,
                    29,
                );
            }
        }
        if !push_block(&mut bits, &self.t, off_t, ps.t_bits) {
            proof {
                if signature_in_range(self.t@, self.z@, self.c_idx@, *ps) {
                    assert forall|j: int| 0 <= j < self.t@.len() implies 0 <= #[trigger] offs(
                        self.t@,
                        off_t as int,
                    )[j] < pow2(ps.t_bits as nat) by {
                        assert(offs(self.t@, off_t as int)[j] == self.t@[j] + off_t);
                    }
                }
            }
            return Err(BlissError::EncodingError);
        }
        if !push_block(&mut bits, &self.z, off_z, ps.z_bits) {
            proof {
                if signature_in_range(self.t@, self.z@, self.c_idx@, *ps) {
                    assert forall|j: int| 0 <= j < self.z@.len() implies 0 <= #[trigger] offs(
                        self.z@,
                        off_z as int,
                    )[j] < pow2(ps.z_bits as nat) by {
                        assert(offs(self.z@, off_z as int)[j] == self.z@[j] + off_z);
                    }
                }
            }
            return Err(BlissError::EncodingError);
        }
        if !push_idx_block(&mut bits, &self.c_idx, ps.cidx_bits) {
            proof {
                if signature_in_range(self.t@, self.z@, self.c_idx@, *ps) {
                    assert forall|j: int| 0 <= j < self.c_idx@.len() implies (
                    #[trigger] crate::codec::idx_ints(self.c_idx@)[j]) < pow2(
                        ps.cidx_bits as nat,
                    ) by {
                        assert(crate::codec::idx_ints(self.c_idx@)[j] == self.c_idx@[j] as int);
                    }
                }
            }
            return Err(BlissError::EncodingError);
        }
        let len = ps.signature_length();
        proof {
            assert forall|j: int| 0 <= j < ps.n implies 0 <= #[trigger] (self.t@[j] + pow2(
                (ps.t_bits - 1) as nat,
            )) < pow2(ps.t_bits as nat) by {
                assert(offs(self.t@, off_t as int)[j] == self.t@[j] + off_t);
            }
            assert forall|j: int| 0 <= j < ps.n implies 0 <= #[trigger] (self.z@[j] + pow2(
                (ps.z_bits - 1) as nat,
            )) < pow2(ps.z_bits as nat) by {
                assert(offs(self.z@, off_z as int)[j] == self.z@[j] + off_z);
            }
            assert forall|j: int| 0 <= j < ps.kappa implies (#[trigger] self.c_idx@[j] as int)
                < pow2(ps.cidx_bits as nat) by {
                assert(crate::codec::idx_ints(self.c_idx@)[j] == self.c_idx@[j] as int);
            }
            assert(bits@ =~= signature_bits_spec(self.t@, self.z@, self.c_idx@, *ps));
            crate::codec::lemma_signature_stream_len(self.t@, self.z@, self.c_idx@, *ps);
            crate::codec::lemma_signature_layout(*ps);
        }
        Ok(bits_to_bytes(&bits, len))
    }

    /// Deserializes a signature from a buffer of exactly the expected
    /// length; fails with `DecodingError` on any other length.
    pub fn import(input: &Vec<u8>, ps: &ParameterSet) -> (r: Result<Signature, BlissError>)
        requires
            ps.wf(),
        ensures
            r is Ok <==> input@.len() == ps.signature_length_spec(),
            r matches Err(e) ==> e == BlissError::DecodingError,
            r matches Ok(sig) ==> {
                &&& sig.t@.len() == ps.n
                &&& sig.z@.len() == ps.n
                &&& sig.c_idx@.len() == ps.kappa
                &&& forall|j: int|
                    0 <= j < ps.n ==> #[trigger] sig.t@[j] as int == decoded_field(
                        input@,
                        j * ps.t_bits,
                        ps.t_bits as int,
                        pow2((ps.t_bits - 1) as nat) as int,
                    )
                &&& forall|j: int|
                    0 <= j < ps.n ==> #[trigger] sig.z@[j] as int == decoded_field(
                        input@,
                        ps.n * ps.t_bits + j * ps.z_bits,
                        ps.z_bits as int,
                        pow2((ps.z_bits - 1) as nat) as int,
                    )
                &&& forall|j: int|
                    0 <= j < ps.kappa ==> #[trigger] sig.c_idx@[j] as int == decoded_field(
                        input@,
                        ps.n * ps.t_bits + ps.n * ps.z_bits + j * ps.cidx_bits,
                        ps.cidx_bits as int,
                        0,
                    )
            },
    {
        let len = ps.signature_length();
        if input.len() != len {
            return Err(BlissError::DecodingError);
        }
        let bits = bytes_to_bits(input);
        let n = ps.n;
        let off_t = pow2_i64(ps.t_bits - 1);
        let off_z = pow2_i64(ps.z_bits - 1);
        proof {
            vstd::arithmetic::power2::lemma2_to64();
            if ps.t_bits - 1 < 29 {
                vstd::arithmetic::power2::lemma_pow2_strictly_increases(
                    (ps.t_bits - 1) as nat,
                    29,
                );
            }
            if ps.z_bits - 1 < 29 {
                vstd::arithmetic::power2::lemma_pow2_strictly_increases(
                    (ps.z_bits - 1) as nat,
                    29,
                );
            }
            lemma_bytes_bits_len_pub(input@, len as int);
            crate::codec::lemma_signature_layout(*ps);
        }
        let t = read_block(&bits, 0, ps.t_bits, n, off_t);
        let z = read_block(&bits, n * ps.t_bits, ps.z_bits, n, off_z);
        let c_idx = read_idx_block(&bits, n * ps.t_bits + n * ps.z_bits, ps.cidx_bits, ps.kappa);
        proof {
            assert(bits@ == bytes_bits(input@, input@.len() as int));
            assert forall|j: int| 0 <= j < ps.n implies #[trigger] t@[j] as int == decoded_field(
                input@,
                j * ps.t_bits,
                ps.t_bits as int,
                pow2((ps.t_bits - 1) as nat) as int,
            ) by {
                assert(j * ps.t_bits + ps.t_bits == (j + 1) * ps.t_bits) by (nonlinear_arith);
            }
            assert forall|j: int| 0 <= j < ps.n implies #[trigger] z@[j] as int == decoded_field(
                input@,
                ps.n * ps.t_bits + j * ps.z_bits,
                ps.z_bits as int,
                pow2((ps.z_bits - 1) as nat) as int,
            ) by {
                assert(j * ps.z_bits + ps.z_bits == (j + 1) * ps.z_bits) by (nonlinear_arith);
            }
            assert forall|j: int| 0 <= j < ps.kappa implies #[trigger] c_idx@[j] as int
                == decoded_field(
                input@,
                ps.n * ps.t_bits + ps.n * ps.z_bits + j * ps.cidx_bits,
                ps.cidx_bits as int,
                0,
            ) by {
                assert(j * ps.cidx_bits + ps.cidx_bits == (j + 1) * ps.cidx_bits)
                    by (nonlinear_arith);
            }
        }
        Ok(Signature { t, z, c_idx })
    }
}

/// Pointwise Fermat inversion: every transform coefficient raised to the
/// `q - 2` power, reduced into `[0, q)`.
pub open spec fn pointwise_inv(v: Seq<i32>, q: int) -> Seq<i32> {
    Seq::new(v.len(), |k: int| ((pow(v[k] as int, (q - 2) as nat) % q) as i32))
}

/// Pointwise negation, reduced into `[0, q)`.
pub open spec fn pointwise_neg(v: Seq<i32>, q: int) -> Seq<i32> {
    Seq::new(v.len(), |k: int| (((v[k] * -1) % q) as i32))
}

/// The public transform a key pair stores, as a function of the two
/// secret polynomials: the twisted transform of `g` multiplied pointwise
/// by the inverted twisted transform of `f`, carried back through the
/// inverse half of the ring multiplication, negated, finished, and
/// re-twisted into transform domain.
pub open spec fn derive_public_spec(
    f: Seq<i32>,
    g: Seq<i32>,
    w: Seq<i32>,
    r: Seq<i32>,
    q: int,
    n: int,
) -> Seq<i32> {
    let that = fft_spec(pointwise_mul(g, w, q), w, q, n);
    let uhat = pointwise_inv(fft_spec(pointwise_mul(f, w, q), w, q, n), q);
    let prod = pointwise_mul(fft_spec(pointwise_mul(that, uhat, q), w, q, n), r, q);
    fft_spec(pointwise_mul(flp_spec(pointwise_neg(prod, q), q), w, q), w, q, n)
}

/// The sparse ternary vector the secret `g` was rescaled from: halving
/// after un-subtracting the 1 at slot 0.
pub open spec fn unscale_g(g: Seq<i32>) -> Seq<i32> {
    Seq::new(
        g.len(),
        |k: int|
            if k == 0 {
                (((g[0] + 1) / 2) as i32)
            } else {
                ((g[k] / 2) as i32)
            },
    )
}

impl PrivateKey {
    /// Generates a key pair's private half: samples the odd-parity secret
    /// `g`, then candidate secrets `f` until one whose twisted transform
    /// has no zero coefficient modulo `q` is found, inverts that
    /// transform coefficient-wise by Fermat exponentiation, and derives
    /// the public polynomial in twisted transform domain.  Fails with
    /// `KeyGenerationExhausted` when the attempt bound runs out.
    pub fn new<R: EntropySource>(ps: &ParameterSet, rng: &mut R) -> (r: Result<
        PrivateKey,
        BlissError,
    >)
        requires
            ps.wf(),
        ensures
            r matches Ok(key) ==> key.wf(*ps),
            r matches Ok(key) ==> count_abs(key.f@, 1) == ps.nz1 && count_abs(key.f@, 2)
                == ps.nz2,
            r matches Ok(key) ==> key.g@[0] % 2 != 0 && forall|k: int|
                1 <= k < ps.n ==> #[trigger] key.g@[k] % 2 == 0,
            r matches Ok(key) ==> key.a@ == derive_public_spec(
                key.f@,
                key.g@,
                ps.w@,
                ps.r@,
                ps.q as int,
                ps.n as int,
            ),
            r matches Ok(key) ==> count_abs(unscale_g(key.g@), 1) == ps.nz1 && count_abs(
                unscale_g(key.g@),
                2,
            ) == ps.nz2,
            r matches Ok(key) ==> forall|k: int|
                0 <= k < ps.n ==> fft_spec(
                    pointwise_mul(key.f@, ps.w@, ps.q as int),
                    ps.w@,
                    ps.q as int,
                    ps.n as int,
                )[k] != 0,
            r matches Err(e) ==> e == BlissError::KeyGenerationExhausted,
    {
        let n = ps.n;
        let mut g = zero_poly(n);
        if !uniform_poly(&mut g, ps, rng) {
            return Err(BlissError::KeyGenerationExhausted);
        }
        let ghost gbase = g@;
        let mut i: usize = 0;
        while i < n
            invariant
                n == ps.n,
                ps.wf(),
                g@.len() == n,
                gbase.len() == n,
                count_abs(gbase, 1) == ps.nz1,
                count_abs(gbase, 2) == ps.nz2,
                i <= n,
                forall|k: int| 0 <= k < i ==> #[trigger] g@[k] == 2 * gbase[k],
                forall|k: int| 0 <= k < i ==> -4 <= #[trigger] g@[k] <= 4 && g@[k] % 2 == 0,
                forall|k: int| i <= k < n ==> #[trigger] g@[k] == gbase[k],
                forall|k: int| i <= k < n ==> -2 <= #[trigger] g@[k] <= 2,
            decreases n - i,
        {
            let gv = g[i];
            g[i] = 2 * gv;
            i += 1;
        }
        let g0 = g[0];
        g[0] = g0 - 1;
        proof {
            assert forall|k: int| 0 <= k < n implies unscale_g(g@)[k] == gbase[k] by {
                vstd::arithmetic::div_mod::lemma_div_multiples_vanish(gbase[k] as int, 2);
                if k == 0 {
                    assert(g@[0] + 1 == 2 * gbase[0]);
                } else {
                    assert(g@[k] == 2 * gbase[k]);
                }
            }
            assert(unscale_g(g@) =~= gbase);
        }
        let mut t = zero_poly(n);
        xmu(&mut t, &g, &ps.w, ps);
        fft(&mut t, ps);
        let ghost qi = ps.q as int;
        let mut attempt: usize = 0;
        while attempt < 1024
            invariant
                n == ps.n,
                ps.wf(),
                g@.len() == n,
                forall|k: int| 0 <= k < n ==> -5 <= #[trigger] g@[k] <= 4,
                g@[0] % 2 != 0,
                forall|k: int| 1 <= k < n ==> #[trigger] g@[k] % 2 == 0,
                t@.len() == n,
                forall|k: int| 0 <= k < n ==> 0 <= #[trigger] t@[k] < ps.q,
                qi == ps.q as int,
                t@ == fft_spec(pointwise_mul(g@, ps.w@, qi), ps.w@, qi, n as int),
                count_abs(unscale_g(g@), 1) == ps.nz1,
                count_abs(unscale_g(g@), 2) == ps.nz2,
                attempt <= 1024,
            decreases 1024 - attempt,
        {
            attempt += 1;
            let mut f = zero_poly(n);
            if !uniform_poly(&mut f, ps, rng) {
                continue ;
            }
            let mut u = zero_poly(n);
            xmu(&mut u, &f, &ps.w, ps);
            fft(&mut u, ps);
            let ghost uf = u@;
            proof {
                assert(uf == fft_spec(pointwise_mul(f@, ps.w@, qi), ps.w@, qi, n as int));
            }
            let mut invertible = true;
            let mut i: usize = 0;
            while i < n && invertible
                invariant
                    n == ps.n,
                    qi == ps.q as int,
                    ps.wf(),
                    u@.len() == n,
                    uf.len() == n,
                    i <= n,
                    uf == fft_spec(pointwise_mul(f@, ps.w@, qi), ps.w@, qi, n as int),
                    f@.len() == n,
                    invertible ==> forall|k: int|
                        0 <= k < i ==> #[trigger] u@[k] == pointwise_inv(uf, qi)[k],
                    invertible ==> forall|k: int| 0 <= k < i ==> #[trigger] uf[k] != 0,
                    forall|k: int| i <= k < n ==> #[trigger] u@[k] == uf[k],
                    forall|k: int| 0 <= k < n ==> 0 <= #[trigger] u@[k] < ps.q,
                decreases n - i + (if invertible { 1int } else { 0 }),
            {
                let x = u[i];
                if x == 0 {
                    invertible = false;
                } else {
                    let inv = pwr(x, ps.q - 2, ps.q);
                    proof {
                        vstd::arithmetic::div_mod::lemma_mod_bound(
                            pow(uf[i as int] as int, (qi - 2) as nat),
                            qi,
                        );
                    }
                    u[i] = inv;
                    i += 1;
                }
            }
            if !invertible {
                continue ;
            }
            proof {
                assert(u@ =~= pointwise_inv(uf, qi));
            }
            let mut aa = zero_poly(n);
            xmu(&mut aa, &t, &u, ps);
            fft(&mut aa, ps);
            let mut a2 = zero_poly(n);
            xmu(&mut a2, &aa, &ps.r, ps);
            let ghost prod = a2@;
            cmu(&mut aa, &a2, -1, ps);
            proof {
                assert forall|k: int| 0 <= k < n implies aa@[k] == pointwise_neg(prod, qi)[k] by {
                    vstd::arithmetic::div_mod::lemma_mod_bound(prod[k] as int * -1, qi);
                }
                assert(aa@ =~= pointwise_neg(prod, qi));
            }
            flp(&mut aa, ps);
            xmu(&mut a2, &aa, &ps.w, ps);
            fft(&mut a2, ps);
            proof {
                assert(a2@ == derive_public_spec(f@, g@, ps.w@, ps.r@, qi, n as int));
            }
            return Ok(PrivateKey { f, g, a: a2 });
        }
        Err(BlissError::KeyGenerationExhausted)
    }
}

/// A fresh all-zero challenge index vector.
fn zero_idx(n: usize) -> (v: Vec<usize>)
    ensures
        v@.len() == n,
{
    let mut v: Vec<usize> = Vec::new();
    let mut i: usize = 0;
    while i < n
        invariant
            i <= n,
            v@.len() == i,
        decreases n - i,
    {
        v.push(0);
        i += 1;
    }
    v
}

/// One commitment coefficient: the even representative of the ring
/// product raised by `q` when odd, plus the masking Gaussian coefficient,
/// modulo `2 q`.
pub open spec fn commit_spec(vraw: Seq<i32>, u0: Seq<i32>, q: int) -> Seq<i32> {
    Seq::new(
        vraw.len(),
        |k: int|
            ((((if vraw[k] % 2 != 0 {
                vraw[k] + q
            } else {
                vraw[k] as int
            }) + u0[k]) % (2 * q)) as i32),
    )
}

/// A commitment coefficient rounded down by `d` bits after adding half
/// the rounding step, modulo `p`.
pub open spec fn round1(x: int, p: int, d: nat) -> int {
    ((x + pow2((d - 1) as nat)) / (pow2(d) as int)) % p
}

/// The rounded challenge input of a commitment.
pub open spec fn round_spec(v: Seq<i32>, p: int, d: nat) -> Seq<i32> {
    Seq::new(v.len(), |k: int| (round1(v[k] as int, p, d) as i32))
}

/// A value in `(-p, p)` brought into the symmetric range `(-p/2, p/2]`.
pub open spec fn clamp_sym(zi: int, p: int) -> int {
    if zi <= -(p / 2) {
        zi + p
    } else if zi > p / 2 {
        zi - p
    } else {
        zi
    }
}

/// That a signature is the outcome of one accepted signing attempt under
/// the given secrets: there were Gaussian draws `t0`, `u0` and a
/// coin-chosen sign `s` such that the signature's challenge indices are
/// the oracle's output on the rounded commitment of `t0` masked by `u0`,
/// its `t` is `t0` adjusted by `s` times the combined challenge, and its
/// `z` is the rounded commitment minus the rounding of the commitment
/// unmasked by the adjusted Gaussian vector, compressed into the
/// symmetric range.
pub open spec fn signed_by(
    sig: Signature,
    digest: Seq<u8>,
    f: Seq<i32>,
    g: Seq<i32>,
    a: Seq<i32>,
    ps: ParameterSet,
    t0: Seq<i32>,
    u0: Seq<i32>,
    s: int,
) -> bool {
    let n = ps.n as int;
    let q = ps.q as int;
    let p = ps.p as int;
    let gxy = greedy_rec(ints(f), ints(g), sig.c_idx@, ps.kappa as int);
    let v = commit_spec(ring_mul_spec(t0, a, ps.w@, ps.r@, q, n), u0, q);
    let zpre = round_spec(v, p, ps.d as nat);
    &&& t0.len() == n
    &&& u0.len() == n
    &&& (s == 1 || s == -1)
    &&& Some(sig.c_idx@) == challenge_spec(digest, zpre, n, ps.kappa as int)
    &&& forall|k: int| 0 <= k < n ==> #[trigger] sig.t@[k] == t0[k] + s * gxy.0[k]
    &&& forall|k: int|
        0 <= k < n ==> #[trigger] sig.z@[k] == clamp_sym(
            zpre[k] - round1((v[k] - (u0[k] + s * gxy.1[k])) % (2 * q), p, ps.d as nat),
            p,
        )
}

impl PrivateKey {
    /// Signs a digest: per bounded attempt, samples fresh Gaussian
    /// vectors, computes the rounded commitment, derives the challenge
    /// from the digest and commitment, combines the challenge with the
    /// secrets, adjusts the candidate by a coin-chosen sign, and accepts
    /// with the bimodal rejection probability; on acceptance the residual
    /// `z` is compressed into the symmetric range.  An accepted result is
    /// exactly what `signed_by` states of the attempt's draws.  Fails
    /// with `OracleExhausted` if a challenge derivation runs out of
    /// counter rounds, and with `SignatureGenerationExhausted` when the
    /// attempt bound runs out.
    #[verifier::rlimit(100)]
    pub fn signature<R: EntropySource>(&self, ps: &ParameterSet, hash: &Vec<u8>, rng: &mut R) -> (r:
        Result<Signature, BlissError>)
        requires
            ps.wf(),
            self.wf(*ps),
            hash@.len() == 64,
        ensures
            r matches Ok(sig) ==> sig.wf(*ps),
            r matches Ok(sig) ==> forall|k1: int, k2: int|
                0 <= k1 < k2 < ps.kappa ==> sig.c_idx@[k1] != sig.c_idx@[k2],
            r matches Ok(sig) ==> exists|t0: Seq<i32>, u0: Seq<i32>, s: int|
                signed_by(sig, hash@, self.f@, self.g@, self.a@, *ps, t0, u0, s),
            r matches Err(e) ==> e == BlissError::SignatureGenerationExhausted || e
                == BlissError::OracleExhausted,
    {
        let n = ps.n;
        let q = ps.q;
        let big_p = ps.p;
        let half: u64 = pow2_i64(ps.d as usize - 1) as u64;
        let twod: u64 = pow2_i64(ps.d as usize) as u64;
        proof {
            vstd::arithmetic::power2::lemma2_to64();
            let dm: nat = (ps.d - 1) as nat;
            let dd: nat = ps.d as nat;
            if dm < 20 {
                vstd::arithmetic::power2::lemma_pow2_strictly_increases(dm, 20);
            }
            if dd < 21 {
                vstd::arithmetic::power2::lemma_pow2_strictly_increases(dd, 21);
            }
            vstd::arithmetic::power2::lemma_pow2_pos(dd);
        }
        let mut attempt: usize = 0;
        while attempt < 1024
            invariant
                n == ps.n,
                q == ps.q,
                big_p == ps.p,
                ps.wf(),
                self.wf(*ps),
                hash@.len() == 64,
                half == pow2((ps.d - 1) as nat),
                twod == pow2(ps.d as nat),
                half <= 0x10_0000,
                1 <= twod <= 0x20_0000,
                attempt <= 1024,
            decreases 1024 - attempt,
        {
            attempt += 1;
            let mut tvec = zero_poly(n);
            let mut u = zero_poly(n);
            let mut capped = true;
            let mut i: usize = 0;
            while i < n
                invariant
                    n == ps.n,
                    ps.wf(),
                    tvec@.len() == n,
                    u@.len() == n,
                    i <= n,
                    forall|k: int| 0 <= k < n ==> -32767 <= #[trigger] tvec@[k] <= 32767,
                    forall|k: int| 0 <= k < n ==> -32767 <= #[trigger] u@[k] <= 32767,
                decreases n - i,
            {
                let av = rng.gauss(ps.sigma);
                let bv = rng.gauss(ps.sigma);
                if av > 32767 || av < -32767 || bv > 32767 || bv < -32767 {
                    capped = false;
                    break ;
                }
                tvec[i] = av;
                u[i] = bv;
                i += 1;
            }
            if !capped {
                continue ;
            }
            let ghost qi = q as int;
            let ghost pi = big_p as int;
            let ghost t_draw = tvec@;
            let ghost u_draw = u@;
            // the commitment: ring-multiply the candidate by the public
            // polynomial's transform
            let mut v = zero_poly(n);
            let mut vv = zero_poly(n);
            xmu(&mut v, &tvec, &ps.w, ps);
            fft(&mut v, ps);
            xmu(&mut vv, &v, &self.a, ps);
            fft(&mut vv, ps);
            xmu(&mut v, &vv, &ps.r, ps);
            flp(&mut v, ps);
            let ghost rmv = v@;
            proof {
                assert(rmv == ring_mul_spec(t_draw, self.a@, ps.w@, ps.r@, qi, n as int));
            }
            let ghost cv = commit_spec(rmv, u_draw, qi);
            let ghost zpre = round_spec(cv, pi, ps.d as nat);
            // fold to an even representative, add the second Gaussian
            // vector modulo 2q, and round to the challenge input
            let mut z = zero_poly(n);
            let mut i: usize = 0;
            while i < n
                invariant
                    n == ps.n,
                    q == ps.q,
                    big_p == ps.p,
                    qi == q as int,
                    pi == big_p as int,
                    ps.wf(),
                    v@.len() == n,
                    u@.len() == n,
                    z@.len() == n,
                    u@ == u_draw,
                    rmv.len() == n,
                    cv == commit_spec(rmv, u_draw, qi),
                    zpre == round_spec(cv, pi, ps.d as nat),
                    half == pow2((ps.d - 1) as nat),
                    twod == pow2(ps.d as nat),
                    half <= 0x10_0000,
                    1 <= twod <= 0x20_0000,
                    i <= n,
                    forall|k: int| 0 <= k < n ==> -32767 <= #[trigger] u@[k] <= 32767,
                    forall|k: int| 0 <= k < n ==> 0 <= #[trigger] rmv[k] < ps.q,
                    forall|k: int| i <= k < n ==> #[trigger] v@[k] == rmv[k],
                    forall|k: int| 0 <= k < i ==> #[trigger] v@[k] == cv[k],
                    forall|k: int| 0 <= k < n ==> 0 <= #[trigger] v@[k] < 2 * ps.q,
                    forall|k: int| 0 <= k < i ==> #[trigger] z@[k] == zpre[k],
                    forall|k: int| 0 <= k < i ==> 0 <= #[trigger] z@[k] < ps.p,
                    forall|k: int| i <= k < n ==> #[trigger] z@[k] == 0,
                decreases n - i,
            {
                let mut tmp = v[i];
                if tmp % 2 != 0 {
                    tmp = tmp + q;
                }
                let folded: i64 = (tmp as i64 + u[i] as i64).checked_rem_euclid(
                    2 * (q as i64),
                ).unwrap();
                proof {
                    assert(folded == cv[i as int]);
                }
                v[i] = folded as i32;
                let zz: u64 = ((folded as u64 + half) / twod) % (big_p as u64);
                proof {
                    assert(zz == round1(cv[i as int] as int, pi, ps.d as nat));
                }
                z[i] = zz as i32;
                i += 1;
            }
            proof {
                assert(v@ =~= cv);
                assert(z@ =~= zpre);
            }
            // the challenge
            let mut c_idx = zero_idx(ps.kappa);
            if !c_oracle(&mut c_idx, hash, &z, ps) {
                return Err(BlissError::OracleExhausted);
            }
            // greedy combination of the challenge with the secrets
            let mut x = zero_poly(n);
            let mut y = zero_poly(n);
            greedy_sc(&self.f, &self.g, &c_idx, &mut x, &mut y, ps);
            let ghost gx = greedy_rec(ints(self.f@), ints(self.g@), c_idx@, ps.kappa as int).0;
            let ghost gy = greedy_rec(ints(self.f@), ints(self.g@), c_idx@, ps.kappa as int).1;
            // coin-chosen sign of the secret adjustment
            let neg = rng.coin();
            let ghost sg: int = if neg {
                -1int
            } else {
                1int
            };
            let mut i: usize = 0;
            while i < n
                invariant
                    n == ps.n,
                    q == ps.q,
                    big_p == ps.p,
                    qi == q as int,
                    pi == big_p as int,
                    ps.wf(),
                    self.wf(*ps),
                    tvec@.len() == n,
                    u@.len() == n,
                    x@.len() == n,
                    y@.len() == n,
                    z@.len() == n,
                    c_idx@.len() == ps.kappa,
                    t_draw.len() == n,
                    u_draw.len() == n,
                    rmv == ring_mul_spec(t_draw, self.a@, ps.w@, ps.r@, qi, n as int),
                    cv == commit_spec(rmv, u_draw, qi),
                    zpre == round_spec(cv, pi, ps.d as nat),
                    Some(c_idx@) == challenge_spec(hash@, zpre, n as int, ps.kappa as int),
                    forall|k1: int, k2: int|
                        0 <= k1 < k2 < ps.kappa ==> c_idx@[k1] != c_idx@[k2],
                    forall|k: int| 0 <= k < ps.kappa ==> (#[trigger] c_idx@[k]) < n,
                    gx == greedy_rec(ints(self.f@), ints(self.g@), c_idx@, ps.kappa as int).0,
                    gy == greedy_rec(ints(self.f@), ints(self.g@), c_idx@, ps.kappa as int).1,
                    ints(x@) == gx,
                    ints(y@) == gy,
                    (sg == 1 || sg == -1),
                    neg ==> sg == -1,
                    !neg ==> sg == 1,
                    i <= n,
                    forall|k: int| 0 <= k < n ==> vstd::math::abs(x@[k] as int) <= 4 * ps.kappa,
                    forall|k: int| 0 <= k < n ==> vstd::math::abs(y@[k] as int) <= 8 * ps.kappa,
                    forall|k: int| 0 <= k < i ==> #[trigger] tvec@[k] == t_draw[k] + sg * x@[k],
                    forall|k: int| 0 <= k < i ==> #[trigger] u@[k] == u_draw[k] + sg * y@[k],
                    forall|k: int| i <= k < n ==> #[trigger] tvec@[k] == t_draw[k],
                    forall|k: int| i <= k < n ==> #[trigger] u@[k] == u_draw[k],
                    forall|k: int| 0 <= k < n ==> -32767 <= #[trigger] t_draw[k] <= 32767,
                    forall|k: int| 0 <= k < n ==> -32767 <= #[trigger] u_draw[k] <= 32767,
                    forall|k: int| 0 <= k < i ==> -33023 <= #[trigger] tvec@[k] <= 33023,
                    forall|k: int| 0 <= k < i ==> -33279 <= #[trigger] u@[k] <= 33279,
                decreases n - i,
            {
                let xv = x[i];
                let yv = y[i];
                let dt: i32 = if neg {
                    -xv
                } else {
                    xv
                };
                let du: i32 = if neg {
                    -yv
                } else {
                    yv
                };
                proof {
                    let xi = x@[i as int] as int;
                    let yi = y@[i as int] as int;
                    assert(dt as int == sg * xi && du as int == sg * yi) by (nonlinear_arith)
                        requires
                            (sg == 1 || sg == -1),
                            neg ==> sg == -1,
                            !neg ==> sg == 1,
                            neg ==> dt == -xi && du == -yi,
                            !neg ==> dt == xi && du == yi,
                    ;
                    assert(dt as int == sg * x@[i as int] && du as int == sg * y@[i as int]);
                }
                let t1 = tvec[i];
                tvec[i] = t1 + dt;
                let u1 = u[i];
                u[i] = u1 + du;
                i += 1;
            }
            // bimodal rejection
            let nx = vecscalar(&x, &x);
            let ny = vecscalar(&y, &y);
            let dt = vecscalar(&tvec, &x);
            let du = vecscalar(&u, &y);
            proof {
                crate::poly::lemma_dot_bound(x@, x@, 4 * ps.kappa as int, 4 * ps.kappa as int);
                crate::poly::lemma_dot_bound(y@, y@, 8 * ps.kappa as int, 8 * ps.kappa as int);
                crate::poly::lemma_dot_bound(tvec@, x@, 33023, 4 * ps.kappa as int);
                crate::poly::lemma_dot_bound(u@, y@, 33279, 8 * ps.kappa as int);
                assert(x@.len() * (4 * ps.kappa) * (4 * ps.kappa) <= 1024 * 256 * 256
                    && y@.len() * (8 * ps.kappa) * (8 * ps.kappa) <= 1024 * 512 * 512
                    && tvec@.len() * 33023 * (4 * ps.kappa) <= 1024 * 33023 * 256
                    && u@.len() * 33279 * (8 * ps.kappa) <= 1024 * 33279 * 512)
                    by (nonlinear_arith)
                    requires
                        x@.len() <= 1024,
                        y@.len() <= 1024,
                        tvec@.len() <= 1024,
                        u@.len() <= 1024,
                        0 <= ps.kappa <= 64,
                ;
            }
            if !rng.accept_bimodal(ps.m_milli, ps.sigma, nx + ny, dt + du) {
                continue ;
            }
            // compress the residual into the symmetric range
            let mut i: usize = 0;
            while i < n
                invariant
                    n == ps.n,
                    q == ps.q,
                    big_p == ps.p,
                    qi == q as int,
                    pi == big_p as int,
                    ps.wf(),
                    self.wf(*ps),
                    v@.len() == n,
                    u@.len() == n,
                    z@.len() == n,
                    x@.len() == n,
                    y@.len() == n,
                    tvec@.len() == n,
                    c_idx@.len() == ps.kappa,
                    t_draw.len() == n,
                    u_draw.len() == n,
                    v@ == cv,
                    cv.len() == n,
                    zpre.len() == n,
                    rmv == ring_mul_spec(t_draw, self.a@, ps.w@, ps.r@, qi, n as int),
                    cv == commit_spec(rmv, u_draw, qi),
                    zpre == round_spec(cv, pi, ps.d as nat),
                    Some(c_idx@) == challenge_spec(hash@, zpre, n as int, ps.kappa as int),
                    forall|k1: int, k2: int|
                        0 <= k1 < k2 < ps.kappa ==> c_idx@[k1] != c_idx@[k2],
                    forall|k: int| 0 <= k < ps.kappa ==> (#[trigger] c_idx@[k]) < n,
                    gx == greedy_rec(ints(self.f@), ints(self.g@), c_idx@, ps.kappa as int).0,
                    gy == greedy_rec(ints(self.f@), ints(self.g@), c_idx@, ps.kappa as int).1,
                    ints(x@) == gx,
                    ints(y@) == gy,
                    forall|k: int| 0 <= k < n ==> #[trigger] tvec@[k] == t_draw[k] + sg * x@[k],
                    forall|k: int| 0 <= k < n ==> -33023 <= #[trigger] tvec@[k] <= 33023,
                    (sg == 1 || sg == -1),
                    half == pow2((ps.d - 1) as nat),
                    twod == pow2(ps.d as nat),
                    half <= 0x10_0000,
                    1 <= twod <= 0x20_0000,
                    i <= n,
                    forall|k: int| 0 <= k < n ==> #[trigger] u@[k] == u_draw[k] + sg * y@[k],
                    forall|k: int| 0 <= k < n ==> -33279 <= #[trigger] u@[k] <= 33279,
                    forall|k: int| 0 <= k < n ==> 0 <= #[trigger] v@[k] < 2 * ps.q,
                    forall|k: int|
                        0 <= k < i ==> #[trigger] z@[k] == clamp_sym(
                            zpre[k] - round1(
                                (cv[k] - (u_draw[k] + sg * gy[k])) % (2 * qi),
                                pi,
                                ps.d as nat,
                            ),
                            pi,
                        ),
                    forall|k: int| 0 <= k < i ==> -(ps.p / 2) < #[trigger] z@[k] <= ps.p / 2,
                    forall|k: int| i <= k < n ==> #[trigger] z@[k] == zpre[k],
                    forall|k: int| i <= k < n ==> 0 <= #[trigger] z@[k] < ps.p,
                decreases n - i,
            {
                let diff: i64 = (v[i] as i64 - u[i] as i64).checked_rem_euclid(
                    2 * (q as i64),
                ).unwrap();
                proof {
                    assert(u@[i as int] == u_draw[i as int] + sg * gy[i as int]);
                    assert(v@[i as int] == cv[i as int]);
                    assert(diff == (cv[i as int] - (u_draw[i as int] + sg * gy[i as int])) % (2
                        * qi));
                    assert(0 <= diff < 2 * qi);
                }
                let sum64: u64 = diff as u64 + half;
                let quot: u64 = sum64 / twod;
                let tmp2: i64 = (quot % (big_p as u64)) as i64;
                proof {
                    assert(sum64 as int == diff + half);
                    assert(quot as int == (diff + half) / (twod as int));
                    assert(tmp2 == ((diff + half) / (twod as int)) % pi);
                    assert(tmp2 == round1(diff as int, pi, ps.d as nat));
                    assert(0 <= tmp2 < pi);
                    assert(z@[i as int] == zpre[i as int]);
                    assert(0 <= zpre[i as int] < ps.p);
                }
                let mut zi: i32 = z[i] - tmp2 as i32;
                let ghost zi0 = zi as int;
                if zi <= -(big_p / 2) {
                    zi = zi + big_p;
                }
                if zi > big_p / 2 {
                    zi = zi - big_p;
                }
                proof {
                    assert(zi as int == clamp_sym(zi0, pi));
                    assert(zi0 == zpre[i as int] - round1(
                        (cv[i as int] - (u_draw[i as int] + sg * gy[i as int])) % (2 * qi),
                        pi,
                        ps.d as nat,
                    ));
                    assert(-(pi / 2) < zi as int <= pi / 2);
                }
                z[i] = zi;
                i += 1;
            }
            let sig = Signature { t: tvec, z, c_idx };
            proof {
                assert forall|k: int| 0 <= k < n implies #[trigger] sig.t@[k] == t_draw[k] + sg
                    * gx[k] by {
                    assert(x@[k] as int == gx[k]);
                }
                assert(signed_by(
                    sig,
                    hash@,
                    self.f@,
                    self.g@,
                    self.a@,
                    *ps,
                    t_draw,
                    u_draw,
                    sg,
                ));
            }
            return Ok(sig);
        }
        Err(BlissError::SignatureGenerationExhausted)
    }
}

/// The even representative of each commitment coefficient: odd entries
/// are raised by `q`.
pub open spec fn fold_even_spec(v: Seq<i32>, q: int) -> Seq<i32> {
    Seq::new(
        v.len(),
        |k: int|
            if v[k] % 2 != 0 {
                ((v[k] + q) as i32)
            } else {
                v[k]
            },
    )
}

/// The challenge perturbation undone at the first `k` challenge indices,
/// in order: each addressed slot is raised by `q` modulo `2 q`.
pub open spec fn perturb_spec(v: Seq<i32>, idx: Seq<usize>, q: int, k: int) -> Seq<i32>
    decreases k,
{
    if k <= 0 {
        v
    } else {
        let p = perturb_spec(v, idx, q, k - 1);
        let t = idx[k - 1] as int;
        p.update(t, (((p[t] + q) % (2 * q)) as i32))
    }
}

/// The recombined oracle input: each perturbed commitment coefficient
/// rounded down by `d` bits (after adding half the rounding step) plus
/// the residual, modulo `p`.
pub open spec fn recombine_spec(v: Seq<i32>, z: Seq<i32>, p: int, d: nat) -> Seq<i32> {
    Seq::new(
        v.len(),
        |k: int| ((((v[k] + pow2((d - 1) as nat)) / (pow2(d) as int) + z[k]) % p) as i32),
    )
}

/// What the verifier decides, as a function of the public key, the
/// signature, and the digest: the norm bounds and index ranges are
/// checked, the commitment is recomputed from `t`, the challenge
/// perturbation undone, the residual recombined, and the challenge that
/// the digest and the recombined commitment derive must equal the
/// signature's index sequence.
pub open spec fn verify_spec(
    a: Seq<i32>,
    t: Seq<i32>,
    z: Seq<i32>,
    c: Seq<usize>,
    digest: Seq<u8>,
    ps: ParameterSet,
) -> bool {
    let n = ps.n as int;
    let q = ps.q as int;
    if t.len() != n || z.len() != n || c.len() != ps.kappa {
        false
    } else if absmax(t) > ps.b_inf {
        false
    } else if absmax(z) * pow2(ps.d as nat) > ps.b_inf {
        false
    } else if dot(t, t) + dot(z, z) * pow2((2 * ps.d) as nat) > ps.b_l2 {
        false
    } else if exists|k: int| 0 <= k < c.len() && (#[trigger] c[k]) as int >= n {
        false
    } else {
        let w = recombine_spec(
            perturb_spec(
                fold_even_spec(ring_mul_spec(t, a, ps.w@, ps.r@, q, n), q),
                c,
                q,
                ps.kappa as int,
            ),
            z,
            ps.p as int,
            ps.d as nat,
        );
        challenge_spec(digest, w, n, ps.kappa as int) == Some(c)
    }
}

impl PublicKey {
    /// Checks a signature against a digest; the result is exactly what
    /// `verify_spec` states: rejection on any norm-bound violation or
    /// out-of-range challenge index, otherwise acceptance exactly when
    /// the challenge derived from the digest and the recombined
    /// commitment equals the signature's index sequence element for
    /// element.
    ///
    /// Never faults: any pair of vectors is simply accepted or rejected.
    #[verifier::rlimit(100)]
    pub fn verify(&self, ps: &ParameterSet, sign: &Signature, hash: &Vec<u8>) -> (r: bool)
        requires
            ps.wf(),
            self.wf(*ps),
            hash@.len() == 64,
        ensures
            r == verify_spec(self.a@, sign.t@, sign.z@, sign.c_idx@, hash@, *ps),
            absmax(sign.t@) > ps.b_inf ==> !r,
            absmax(sign.z@) * pow2(ps.d as nat) > ps.b_inf ==> !r,
            r ==> dot(sign.t@, sign.t@) + dot(sign.z@, sign.z@) * pow2((2 * ps.d) as nat)
                <= ps.b_l2,
            r ==> forall|k: int| 0 <= k < ps.kappa ==> (#[trigger] sign.c_idx@[k]) < ps.n,
            r ==> forall|k1: int, k2: int|
                0 <= k1 < k2 < ps.kappa ==> sign.c_idx@[k1] != sign.c_idx@[k2],
    {
        let n = ps.n;
        let q = ps.q;
        let big_p = ps.p;
        let ghost qi = q as int;
        if sign.t.len() != n || sign.z.len() != n || sign.c_idx.len() != ps.kappa {
            return false;
        }
        let at = vecabsmax(&sign.t);
        if at > ps.b_inf as i64 {
            return false;
        }
        let twod: i64 = pow2_i64(ps.d as usize);
        let az = vecabsmax(&sign.z);
        proof {
            vstd::arithmetic::power2::lemma2_to64();
            let dd: nat = ps.d as nat;
            if dd < 21 {
                vstd::arithmetic::power2::lemma_pow2_strictly_increases(dd, 21);
            }
            assert(0 <= az * twod <= 0x8000_0000 * 0x20_0000) by (nonlinear_arith)
                requires
                    0 <= az <= 0x8000_0000,
                    1 <= twod <= 0x20_0000,
            ;
        }
        if az * twod > ps.b_inf as i64 {
            return false;
        }
        proof {
            assert(az <= 0x10_0000) by (nonlinear_arith)
                requires
                    az >= 0,
                    twod >= 1,
                    az * twod <= 0x10_0000,
            ;
        }
        let t2 = vecscalar(&sign.t, &sign.t);
        let z2 = vecscalar(&sign.z, &sign.z);
        let twod2: i64 = pow2_i64(2 * ps.d as usize);
        proof {
            crate::poly::lemma_dot_self_bound(sign.t@, at as int);
            crate::poly::lemma_dot_self_bound(sign.z@, az as int);
            vstd::arithmetic::power2::lemma_pow2_adds(ps.d as nat, ps.d as nat);
            assert(twod2 == twod * twod);
            assert(0 <= t2 <= 1024 * 0x10_0000 * 0x10_0000) by (nonlinear_arith)
                requires
                    0 <= t2,
                    t2 <= sign.t@.len() * at * at,
                    sign.t@.len() <= 1024,
                    0 <= at <= 0x10_0000,
            ;
            assert(0 <= z2 * twod2 <= 1024 * 0x10_0000 * 0x10_0000) by (nonlinear_arith)
                requires
                    0 <= z2,
                    z2 <= sign.z@.len() * az * az,
                    sign.z@.len() <= 1024,
                    az >= 0,
                    twod >= 1,
                    az * twod <= 0x10_0000,
                    twod2 == twod * twod,
            ;
        }
        let l2 = t2 + z2 * twod2;
        if l2 > ps.b_l2 {
            return false;
        }
        // all challenge indices must address a ring slot
        let mut k: usize = 0;
        while k < ps.kappa
            invariant
                n == ps.n,
                ps.wf(),
                sign.c_idx@.len() == ps.kappa,
                k <= ps.kappa,
                forall|m: int| 0 <= m < k ==> (#[trigger] sign.c_idx@[m]) < n,
            decreases ps.kappa - k,
        {
            if sign.c_idx[k] >= n {
                return false;
            }
            k += 1;
        }
        // recompute the commitment from t
        let mut v = zero_poly(n);
        let mut vv = zero_poly(n);
        xmu(&mut v, &sign.t, &ps.w, ps);
        fft(&mut v, ps);
        xmu(&mut vv, &v, &self.a, ps);
        fft(&mut vv, ps);
        xmu(&mut v, &vv, &ps.r, ps);
        flp(&mut v, ps);
        let ghost rmv = v@;
        proof {
            assert(rmv == ring_mul_spec(sign.t@, self.a@, ps.w@, ps.r@, qi, n as int));
        }
        // fold to the even representative
        let ghost folded = fold_even_spec(rmv, qi);
        let mut i: usize = 0;
        while i < n
            invariant
                n == ps.n,
                q == ps.q,
                qi == q as int,
                ps.wf(),
                v@.len() == n,
                rmv.len() == n,
                folded == fold_even_spec(rmv, qi),
                i <= n,
                forall|m: int| 0 <= m < n ==> 0 <= #[trigger] rmv[m] < ps.q,
                forall|m: int| i <= m < n ==> #[trigger] v@[m] == rmv[m],
                forall|m: int| 0 <= m < i ==> #[trigger] v@[m] == folded[m],
                forall|m: int| 0 <= m < n ==> 0 <= #[trigger] v@[m] < 2 * ps.q,
            decreases n - i,
        {
            let tmp = v[i];
            if tmp % 2 != 0 {
                v[i] = tmp + q;
            }
            i += 1;
        }
        proof {
            assert(v@ =~= folded);
            assert(forall|m: int| 0 <= m < n ==> 0 <= #[trigger] folded[m] < 2 * ps.q);
        }
        // undo the challenge perturbation
        let mut k: usize = 0;
        while k < ps.kappa
            invariant
                n == ps.n,
                q == ps.q,
                qi == q as int,
                ps.wf(),
                v@.len() == n,
                folded.len() == n,
                sign.c_idx@.len() == ps.kappa,
                forall|m: int| 0 <= m < ps.kappa ==> (#[trigger] sign.c_idx@[m]) < n,
                k <= ps.kappa,
                v@ == perturb_spec(folded, sign.c_idx@, qi, k as int),
                forall|m: int| 0 <= m < n ==> 0 <= #[trigger] v@[m] < 2 * ps.q,
            decreases ps.kappa - k,
        {
            let idx = sign.c_idx[k];
            let mut val = v[idx] + q;
            proof {
                if val < 2 * q {
                    vstd::arithmetic::div_mod::lemma_small_mod(val as nat, (2 * qi) as nat);
                } else {
                    vstd::arithmetic::div_mod::lemma_mod_add_multiples_vanish(
                        val as int - 2 * qi,
                        2 * qi,
                    );
                    vstd::arithmetic::div_mod::lemma_small_mod(
                        (val - 2 * q) as nat,
                        (2 * qi) as nat,
                    );
                }
            }
            if val >= 2 * q {
                val = val - 2 * q;
            }
            v[idx] = val;
            k += 1;
        }
        let ghost pert = perturb_spec(folded, sign.c_idx@, qi, ps.kappa as int);
        // recombine with the residual
        let half: u64 = pow2_i64(ps.d as usize - 1) as u64;
        proof {
            vstd::arithmetic::power2::lemma2_to64();
            let dm: nat = (ps.d - 1) as nat;
            if dm < 20 {
                vstd::arithmetic::power2::lemma_pow2_strictly_increases(dm, 20);
            }
            vstd::arithmetic::power2::lemma_pow2_pos(ps.d as nat);
        }
        let twodu: u64 = twod as u64;
        let ghost recom = recombine_spec(pert, sign.z@, big_p as int, ps.d as nat);
        let mut i: usize = 0;
        while i < n
            invariant
                n == ps.n,
                q == ps.q,
                big_p == ps.p,
                ps.wf(),
                v@.len() == n,
                pert.len() == n,
                sign.z@.len() == n,
                half == pow2((ps.d - 1) as nat),
                twodu == pow2(ps.d as nat),
                half <= 0x10_0000,
                1 <= twodu <= 0x20_0000,
                recom == recombine_spec(pert, sign.z@, big_p as int, ps.d as nat),
                i <= n,
                forall|m: int| i <= m < n ==> #[trigger] v@[m] == pert[m],
                forall|m: int| i <= m < n ==> 0 <= #[trigger] pert[m] < 2 * ps.q,
                forall|m: int| 0 <= m < i ==> #[trigger] v@[m] == recom[m],
                forall|m: int| 0 <= m < i ==> 0 <= #[trigger] v@[m] < ps.p,
            decreases n - i,
        {
            let rounded: u64 = (v[i] as u64 + half) / twodu;
            proof {
                assert(rounded <= (2 * ps.q + 0x10_0000) as u64);
            }
            let summed: i64 = rounded as i64 + sign.z[i] as i64;
            let rem: i64 = summed.checked_rem_euclid(big_p as i64).unwrap();
            proof {
                assert(rem as int == recom[i as int]);
            }
            v[i] = rem as i32;
            i += 1;
        }
        proof {
            assert(v@ =~= recom);
        }
        let ghost vspec = verify_spec(self.a@, sign.t@, sign.z@, sign.c_idx@, hash@, *ps);
        proof {
            assert(vspec == (challenge_spec(hash@, recom, ps.n as int, ps.kappa as int) == Some(
                sign.c_idx@,
            )));
        }
        // the challenge this commitment derives must match
        let mut my_idx = zero_idx(ps.kappa);
        if !c_oracle(&mut my_idx, hash, &v, ps) {
            return false;
        }
        let mut k: usize = 0;
        while k < ps.kappa
            invariant
                ps.wf(),
                sign.c_idx@.len() == ps.kappa,
                my_idx@.len() == ps.kappa,
                k <= ps.kappa,
                Some(my_idx@) == challenge_spec(hash@, recom, ps.n as int, ps.kappa as int),
                vspec == verify_spec(self.a@, sign.t@, sign.z@, sign.c_idx@, hash@, *ps),
                vspec == (challenge_spec(hash@, recom, ps.n as int, ps.kappa as int) == Some(
                    sign.c_idx@,
                )),
                recom == recombine_spec(pert, sign.z@, big_p as int, ps.d as nat),
                forall|m: int| 0 <= m < ps.kappa ==> (#[trigger] my_idx@[m]) < ps.n,
                forall|m1: int, m2: int|
                    0 <= m1 < m2 < ps.kappa ==> my_idx@[m1] != my_idx@[m2],
                forall|m: int| 0 <= m < k ==> #[trigger] sign.c_idx@[m] == my_idx@[m],
            decreases ps.kappa - k,
        {
            if sign.c_idx[k] != my_idx[k] {
                proof {
                    assert(sign.c_idx@ != my_idx@);
                    assert(challenge_spec(hash@, recom, ps.n as int, ps.kappa as int) != Some(
                        sign.c_idx@,
                    ));
                    assert(!vspec);
                }
                return false;
            }
            k += 1;
        }
        proof {
            assert(sign.c_idx@ =~= my_idx@);
            assert(vspec);
        }
        true
    }
}

} // verus!
