//! Codec for the `.ubl` archive format: a sequence of independently
//! compressed file records, optionally wrapped in a password-derived
//! authenticated-encryption envelope, together with the update and
//! verification engines that operate on a decoded container.

pub mod archive;
pub mod cli;
pub mod compressor;
pub mod container;
pub mod crypto;
pub mod display;
pub mod entry;
pub mod ops;
pub mod report;
pub mod update;
