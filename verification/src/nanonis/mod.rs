pub mod be;
pub mod client;
pub mod interface;
pub mod protocol;
pub mod tcplogger_stream;
pub mod types;
