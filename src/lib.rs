//! A decoder for the QOI lossless image format: header parsing, the six
//! instruction kinds, the 64-slot colour cache and the end-marker and length
//! rules, each stated as a contract and proved.

pub mod cache;
pub mod decode;
pub mod error;
pub mod header;
pub mod ops;
pub mod pixel;
