//! Arithmetic in GF(2^128) at the level of 64-bit words, and the matrix-vector
//! commitment relation `H = A * I` built from it.
pub mod field;
pub mod commit;
pub mod hashes;
pub mod session;
