//! An in-memory byte cache organised in named clusters of keys, with the
//! pure decision logic of the service around it: request handling, the
//! Vigenère byte cipher, the user `Path` update and the command parser.

pub mod crypto;
mod table;
pub mod cache;
pub mod env_var;
pub mod server;
pub mod config;
pub mod service;
pub mod input;
