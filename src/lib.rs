use vstd::prelude::*;

pub mod error;
pub mod filter;
pub mod linalg;
pub mod scalar;

pub use error::RlsError;
pub use filter::Rls;
pub use scalar::Scalar;

verus! {

} // verus!
