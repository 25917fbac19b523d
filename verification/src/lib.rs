//! Pairing-friendly curve arithmetic on BLS12-381: the scalar field, the base
//! field and its quadratic extension, the two groups of points, the target
//! group, and the pairing that ties them together.
//!
//! The field arithmetic, the encodings and the map from a hash to a curve
//! point are computed here and proved against their mathematical statements.
//! The group law and the pairing are the work of a curve engine behind the
//! boundary of [`ffi`]; what is decided around its answers is proved as well.
pub mod limbs;
pub mod modular;
pub mod codec;
pub mod text;
pub mod common;
pub mod curve;
pub mod params;
pub mod ffi;
pub mod traits;
pub mod bn;
pub mod init;
pub mod laws;
