//! Core logic of a broker-attached event service: a path router that
//! classifies requests, a remote-method proxy, an event lifecycle manager,
//! and a generic SQL statement generator for dynamically typed records.
pub mod codec;
pub mod config;
pub mod datetime;
pub mod dbvalue;
pub mod error;
pub mod method;
pub mod sqlgen;
pub mod state;
pub mod numtext;
pub mod proxy;
pub mod router;
pub mod rpcvalue;
pub mod text;
pub mod token;
