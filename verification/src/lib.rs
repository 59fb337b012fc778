//! Verified cores of four small text utilities: `cat`, `echo`, `head` and `wc`.
//!
//! Every function here is pure: it takes the bytes that a caller has read and
//! gives back the bytes that the caller should write. Opening files, reading
//! them and writing to the terminal are left to the caller.

pub mod catr;
pub mod echor;
pub mod error;
pub mod field;
pub mod headr;
pub mod numeral;
pub mod stream;
pub mod utf8;
pub mod wcr;
pub mod words;
