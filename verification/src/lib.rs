pub mod text;
pub mod pattern;
pub mod span;
pub mod parser;
pub mod block;
pub mod date;
pub mod render;
pub mod blog;
