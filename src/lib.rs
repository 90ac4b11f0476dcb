pub mod book;
pub mod feature_transformer;
pub mod leb128;
pub mod rng;
pub mod zobrist;
