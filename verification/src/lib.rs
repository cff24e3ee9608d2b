//! Tips about command-line tools, drawn from each tool's own help output.

pub mod db;
pub mod text;
pub mod tool;
