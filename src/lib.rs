//! Memory usage report in the manner of `free`, built from the text that the
//! host's statistics commands print.

pub mod text;
pub mod error;
pub mod vmstat;
pub mod swap;
pub mod meminfo;
pub mod render;
