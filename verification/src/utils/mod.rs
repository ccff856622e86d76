//! Helpers that several plugins share.
pub mod hashline;
pub mod note;
pub mod path_correction;
pub mod timeseq;
