pub mod client_start;
pub mod connection;
pub mod server_start;
pub mod shutdown;
