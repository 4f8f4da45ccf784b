//! Ranked selection of one path out of a frecency history.
//!
//! A history couples each path with a usage rank and the time of its last
//! access. This crate scores the records with a time-decayed key, narrows
//! them by required substrings and by what kind of file the caller looks
//! for, and yields the best record that stands every test.

pub mod heap;
pub mod mode;
pub mod pool;
pub mod query;
pub mod score;
pub mod select;
pub mod text;
