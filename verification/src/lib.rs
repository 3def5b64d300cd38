//! Verified core of a drone network simulation: packet and message models,
//! message fragmentation and reassembly, network discovery, source routing,
//! the outgoing packet queues of a node, chat and content servers, the
//! bookkeeping of the simulation controller and the building of configured
//! networks, what the control interface computes, and an in-memory log.
use vstd::prelude::*;

pub mod wire;
pub mod topology;
mod random;
pub mod clock;
pub mod discovery;
pub mod fragmentation;
pub mod decimal;
pub mod message;
pub mod packet_sender;
pub mod node;
pub mod server_step;
pub mod communication_server;
pub mod text;
pub mod content_server;
pub mod web_browser;
pub mod server;
pub mod kinds;
pub mod network_object;
pub mod config;
pub mod simulation_controller;
pub mod logger;
pub mod api;
pub mod network_setup;
pub mod manifest;

verus! {

/// Identifier of a node of the network.
pub type NodeId = u8;

/// Number of payload bytes carried by one message fragment.
pub const FRAGMENT_DSIZE: usize = 128;

} // verus!
