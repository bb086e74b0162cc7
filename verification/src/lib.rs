//! The decisions of a caching man-in-the-middle proxy: what a recording proxy keeps of the traffic
//! it sees, and what a replaying proxy answers from a directory of fetched files.

pub mod body;
pub mod digest;
pub mod header;
pub mod laws;
pub mod pages;
pub mod pattern;
pub mod record;
pub mod replay;
pub mod reply;
pub mod string_map;
pub mod text;
pub mod uri;
