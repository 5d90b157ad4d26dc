//! Random sampling of coordinate values.
//!
//! The uniform strategy draws each component independently from the
//! randomness source's uniform 64-bit output. The normal strategy is a
//! marker only: standard-normal sampling produces floating-point
//! components, which the verified core does not model, so its sampler
//! lives with the application layer.

use crate::Pos;
use vstd::prelude::*;

verus! {

#[verifier::external_type_specification]
#[verifier::external_body]
pub struct ExThreadRng(rand::rngs::ThreadRng);

/// Relies on rand::thread_rng: a handle to the process-wide default
/// randomness source.
#[verifier::external_body]
fn fresh_rng() -> rand::rngs::ThreadRng {
    rand::thread_rng()
}

/// Relies on rand's Standard distribution for i64: draws one value;
/// nothing can be promised of which one.
#[verifier::external_body]
fn draw_i64(rng: &mut rand::rngs::ThreadRng) -> i64 {
    rand::Rng::gen::<i64>(rng)
}

/// The uniform sampling strategy: each component drawn independently
/// and identically from the source's uniform output.
pub struct Standard;

impl Standard {
    /// Samples a coordinate from `rng`, drawing the `x` component first.
    pub fn sample(&self, rng: &mut rand::rngs::ThreadRng) -> Pos {
        let x = draw_i64(rng);
        let y = draw_i64(rng);
        Pos::new(x, y)
    }
}

/// The standard-normal sampling strategy marker. Each component is
/// drawn independently from a standard normal distribution; that draw
/// yields floating-point values, so the application layer performs it.
pub struct StandardNormal;

impl Pos {
    /// Samples a coordinate from the process-wide default randomness
    /// source using the uniform strategy.
    pub fn random() -> Pos {
        let mut rng = fresh_rng();
        Standard.sample(&mut rng)
    }
}

} // verus!
