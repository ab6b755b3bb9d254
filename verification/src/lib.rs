//! Core logic of a small byte-level text classifier: the fixed-width
//! one-hot encoding of input text, balanced corpus construction, the
//! training schedule, and the fixed-point classification verdict.

pub mod cli;
pub mod corpus;
pub mod encode;
pub mod infer;
pub mod train;
