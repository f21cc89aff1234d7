use vstd::prelude::*;

verus! {

/// The injected source of randomness and of the two real-valued decisions
/// the signing loop makes.  The scheme itself never promises anything
/// about these values: every function of this library is verified for
/// every possible answer an implementation may give.
///
/// Implementations live outside the library (they need an operating
/// system entropy source and floating-point arithmetic, neither of which
/// belongs in the verified core).
pub trait EntropySource {
    /// A fresh 64-bit random value.
    fn next_u64(&mut self) -> u64;

    /// One draw from the continuous normal distribution with mean 0 and
    /// standard deviation `sigma`, truncated toward zero to an integer.
    fn gauss(&mut self, sigma: u32) -> i32;

    /// A fair coin, used to pick the sign of the secret adjustment.
    fn coin(&mut self) -> bool;

    /// The bimodal rejection decision: given the squared norm of the
    /// combined challenge and its inner product with the candidate
    /// signature, draw a uniform variate and accept with probability
    /// `1 / (M * exp(-norm_sq / (2 sigma^2)) * cosh(dot / sigma^2))`,
    /// where `M` is `m_milli / 1000`.
    fn accept_bimodal(&mut self, m_milli: u32, sigma: u32, norm_sq: i64, dot: i64) -> bool;
}

} // verus!
