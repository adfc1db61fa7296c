//! Error taxonomy of the driver stack.
//!
//! Link-open and transport failures are reported through `Error`;
//! per-call failures of the RPC engine through `RpcError`.

use vstd::prelude::*;

use crate::value::RpcValue;

verus! {

/// A failure of the transport layer or of opening the link.
#[derive(Debug)]
pub enum Error {
    /// A physical read or write failed for a reason other than a timeout.
    UsbError,
    /// No matching device was found during enumeration.
    CrazyradioNotFound,
    /// The device's descriptors do not describe the expected interface.
    UsbDescriptorError(String),
    /// The device was found but could not be opened.
    CannotOpenCrazyradio,
    /// The device speaks another protocol version: expected, then observed.
    ProtocolVersionError(u8, u8),
    /// The inbound side has shut down and no more packets will arrive.
    DeviceRxError,
    /// The outbound side has shut down and the packet was not queued.
    DeviceTxError,
}

/// A failure of one RPC call, surfaced only to that call's invoker.
pub enum RpcError {
    /// The response signalled failure with a textual message.
    RpcError(String),
    /// The response signalled failure with a non-textual value.
    RpcErrorValue(RpcValue),
    /// The request could not be serialized.
    SerializeError,
    /// The response payload did not have the shape the caller expected;
    /// the received value is kept.
    DeserializeError(RpcValue),
    /// The transport failed underneath the call.
    ProtocolError(Error),
    /// The completion slot was torn down before a response arrived.
    ChannelError,
    /// The shared call table was poisoned by a crashed thread.
    RpcTxThreadError,
}

} // verus!
