use vstd::prelude::*;

pub mod bliss;
pub mod codec;
pub mod ntt;
pub mod oracle;
pub mod param;
pub mod poly;
pub mod rng;

pub use bliss::BlissError;
pub use bliss::PrivateKey;
pub use bliss::PublicKey;
pub use bliss::Signature;

verus! {

} // verus!
