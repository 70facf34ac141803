pub mod db;
pub mod frame;
pub mod parse;
pub mod wire;
