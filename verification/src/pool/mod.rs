//! The owned pool: a Palworld save or a [`pals_file`], told apart by
//! content. Every frontend loads the pool through here, so the pools
//! they search cannot drift apart. A missing file is its own variant
//! because callers differ: startup begins with an empty pool, a reload
//! keeps the current one.

pub mod load;
pub mod pals_file;
