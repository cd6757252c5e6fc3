//! SHA-1 digests of byte sequences, with every function verified against
//! a mathematical definition of the algorithm.
//!
//! `sha1` takes a byte slice and `sha1_from_const_slice` a buffer of fixed
//! capacity; both return a `Digest`, which renders as twenty bytes or as
//! forty hexadecimal digits. The definition that they are proved to compute
//! is `model::sha1_of`.

pub mod model;
pub mod laws;
pub mod compress;
pub mod digest;
pub mod buffer;
pub mod driver;

pub use buffer::{CapacityExceeded, ConstSlice, BUFFER_SIZE};
pub use compress::process_state;
pub use digest::Digest;
pub use driver::{sha1, sha1_from_const_slice};
