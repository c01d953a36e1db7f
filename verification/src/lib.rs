//! The core of an EasyTier relay at the edge: framing and forwarding, the secure
//! connection of a peer, and the RPC services of the relay.
mod bits;
mod bytes;
pub mod center_laws;
pub mod collections;
pub mod crypto;
pub mod error;
pub mod fragments;
pub mod frame_laws;
pub mod message_laws;
pub mod noise;
pub mod packet;
pub mod peer_center;
pub mod proto;
pub mod publication_laws;
pub mod replay;
pub mod route_laws;
pub mod route_state;
pub mod rpc;
pub mod rpc_laws;
pub mod secure;
pub mod secure_laws;
pub mod service_laws;
pub mod session;
pub mod session_laws;
mod text;
pub mod topology_laws;
mod totals;
pub mod traffic;
pub mod traffic_laws;

pub use packet::{build_packet, inspect_packet, prepare_forward, prepare_pong};
pub use rpc::WasmRpcCore;
pub use secure::SecurePeer;
