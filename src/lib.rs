//! Shortens strings and filesystem paths to a fixed, predictable width.
//!
//! A long string keeps a prefix and a suffix (the buns) and has its middle
//! replaced by a few decimal digits of a hash (the hashpatty). A path has its
//! components shortened one by one, with an elided middle marked by a divider.

pub mod burger;
pub mod digits;
pub mod path;
pub mod text;
