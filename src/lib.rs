pub mod header;
pub mod request;
pub mod runner;
