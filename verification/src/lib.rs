//! A vectorized, nullable columnar data core: immutable typed arrays built by
//! append-only builders, a variable-length string column over a flat byte
//! buffer, and an ordered 64-bit packing of row identities.

pub mod array;
pub mod bitmap;
pub mod iterator;
pub mod row_handler;
pub mod u64_array;
pub mod utf8_array;
