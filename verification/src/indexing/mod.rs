//! Keeping an index up to date with the files it was made from.

pub mod tracker;
