//! Key handling, authenticated encryption and payload packing for
//! environment secrets that are stored as one text artifact.

pub mod backend;
pub mod crypto;
pub mod error;
pub mod filepacker;
pub mod gitignore;
pub mod text;
pub mod transport;
