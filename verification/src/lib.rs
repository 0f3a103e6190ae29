//! This library implements the MQTT protocol version 3.1.1.
//!
//! Its main goal is to provide an interface for the creation and manipulation of MQTT packets.
//!
//! Using from_bytes and to_bytes you can convert the packets to and from bytes, respectively.
use vstd::prelude::*;

/// error handling
pub mod errors;

/// mqtt model
pub mod model;

/// encryptation for packets
pub mod encryptation;

/// splitting, joining and searching byte sequences
pub mod bytes;

/// text made of bytes
pub mod text;

/// reading bytes from an in-memory stream
pub mod stream;

/// reading the settings files of the programs
pub mod config;

/// the statuses shared by cameras, drones and the monitor
pub mod common;

/// what the monitor sends
pub mod monitor;

/// the decisions of the server
pub mod server;

/// the decisions of a drone
pub mod drone;

/// the state of the cameras
pub mod camera_system;

verus! {

} // verus!
