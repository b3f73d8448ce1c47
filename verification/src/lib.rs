//! Verified core of a peer-to-peer connection library.

pub mod priority_queue;
pub mod socket_addr;
pub mod endpoint;
pub mod peer_id;
pub mod connection_map;
pub mod static_contact_info;
pub mod config;
pub mod crust_msg;
pub mod hole_punching;
pub mod bootstrap;
pub mod connection;
pub mod active_connection;
pub mod service;
pub mod periodic_sender;
pub mod future_state;
pub mod socket_utils;
pub mod event_loop;
pub mod mapped_tcp_socket;
