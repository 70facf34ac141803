pub mod blob;
pub mod decimal;
pub mod order;
pub mod serialization;
pub mod sorted;
pub mod text;
