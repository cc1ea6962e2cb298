pub mod args;
pub mod bytebuf;
pub mod command;
pub mod config;
pub mod decode;
pub mod pattern_parser;
pub mod protocol;
pub mod rdb;
pub mod rdb_laws;
pub mod server;
pub mod store;
pub mod text;
