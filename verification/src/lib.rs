//! Gateway core for a fleet of long-lived sensor-device connections.
//!
//! The library holds the verified heart of a sensor gateway: the registry
//! that maps a device serial number (SN) to its live connection, the wire
//! framing spoken with the devices, and the command dispatch rules that
//! turn a decoded operator command into an exchange with one device (or
//! all of them) and a typed result. Listening sockets, HTTP plumbing and
//! the actual byte shoveling live outside the library; they hand in plain
//! values and carry out the exchange plans produced here.

pub mod codec;
pub mod dispatch;
pub mod errors;
pub mod facade;
pub mod frames;
pub mod handshake;
pub mod registry;
pub mod request;
