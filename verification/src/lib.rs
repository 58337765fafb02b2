//! A fixed-capacity 2-D particle store and a software rasteriser for it.
//!
//! Every real number in this crate is an IEEE-754 single-precision value that
//! is carried by its bit pattern (see [`scalar::Scalar`]). The crate decodes
//! those patterns with integer arithmetic only, so that everything it does to
//! a particle or to a pixel is stated and proved over integers.

pub mod frame;
pub mod particles;
pub mod render;
pub mod scalar;

pub use particles::ParticleSystem;
pub use render::Renderer;
pub use scalar::Scalar;
pub use scalar::Vec2;
