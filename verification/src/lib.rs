//! Host-side driver stack for a USB bulk-transfer device, turned into a
//! reliable, high-level, bidirectional message-call channel.
//!
//! Two cooperating layers make this possible: the transport framer
//! (packetization of variable-length packets over fixed-size bulk
//! transfers, MTU-aware batching, carry-over reassembly, a handshake and
//! a cooperative shutdown protocol) and the RPC engine (sequence-numbered
//! call correlation, dispatch of responses to completion slots, and a
//! method-name-to-id cache).  The physical link, the background threads
//! and the wire serialization of arbitrary caller types live outside this
//! crate; everything algorithmic is here, with its contract.

pub mod cbor;
pub mod codec;
pub mod crazyradio2;
pub mod error;
pub mod rpc;
pub mod usb_protocol;
pub mod value;

pub use error::Error;
