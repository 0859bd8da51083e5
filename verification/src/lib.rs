//! A reliable message transfer protocol over datagrams.

pub mod byte_laws;
pub mod checksum;
pub mod connection_laws;
pub mod delivery_laws;
pub mod event_loop;
pub mod frame;
pub mod handshake;
pub mod handshake_laws;
pub mod measure;
pub mod message;
pub mod message_laws;
pub mod mock;
pub mod packet;
pub mod packet_laws;
pub mod receiver;
pub mod sender;
pub mod show;
pub mod signal;
pub mod text;
pub mod timeouts;
pub mod timer_laws;
pub mod transfer_laws;
pub mod wire;

use vstd::prelude::*;

verus! {

/// Largest datagram, headers included, that the network carries whole.
pub const MTU: usize = 1500;

/// Bytes of a datagram that are left to a packet after the UDP and IP headers.
pub const MSS: usize = MTU - 8 - 20;

/// Largest number of message bytes in one `Data` packet: its header takes 4.
pub const MAX_PAYLOAD_SIZE: u16 = MSS as u16 - 4;

/// Bytes of the checksum in front of a checksummed frame.
pub const CRC_BYTES: usize = 4;

} // verus!
