//! Types that every version of the game shares.

pub mod escadra_string;
pub mod growth;
pub mod laws;
pub mod lexical;
pub mod reader;
pub mod record;
pub mod text;
pub mod tll;
