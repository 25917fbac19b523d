//! The field and group types of the curve.
pub mod fp;
pub mod fp2;
pub mod fr;
pub mod g1;
pub mod g2;
pub mod gt;

pub use fp::Fp;
pub use fp2::Fp2;
pub use fr::Fr;
pub use g1::G1;
pub use g2::G2;
pub use gt::GT;
