//! Transport framer rules: the open handshake, endpoint discovery over a
//! plain model of the device's descriptors, and the cooperative shutdown
//! protocol shared with the two background loops.
//!
//! The physical reads and writes themselves, the queues and the threads
//! live outside the crate; every decision they take is a function here.

use vstd::prelude::*;

use crate::error::Error;

verus! {

broadcast use vstd::seq::group_seq_axioms;

/// The most bytes the physical link moves in one transfer.
pub const USB_MTU: usize = 64;

/// The most bytes one batched payload may hold.
pub const PROTOCOL_MTU: usize = 1024;

/// The protocol version this stack speaks.
pub const PROTOCOL_VERSION: u8 = 0;

/// Verifies the control byte read during the open handshake: any version
/// other than the expected one is a hard startup failure.
pub fn check_protocol_version(observed: u8) -> (r: Result<(), Error>)
    ensures
        r is Ok <==> observed == PROTOCOL_VERSION,
        r matches Err(e) ==> e == Error::ProtocolVersionError(PROTOCOL_VERSION, observed),
{
    if observed != PROTOCOL_VERSION {
        Err(Error::ProtocolVersionError(PROTOCOL_VERSION, observed))
    } else {
        Ok(())
    }
}

/// During the open handshake's inbound drain, a transfer shorter than
/// the physical transfer unit means nothing more is queued on the
/// device: the drain is complete.  A timeout counts as a zero-length
/// transfer, so it also completes the drain.
pub fn drain_complete(transfer_len: usize) -> (r: bool)
    ensures
        r == (transfer_len < USB_MTU),
{
    transfer_len < USB_MTU
}

/// Whether a device seen during enumeration is the radio.
pub fn is_radio_device(vendor_id: u16, product_id: u16) -> (r: bool)
    ensures
        r == (vendor_id == 0x35f0 && product_id == 0xad20),
{
    vendor_id == 0x35f0 && product_id == 0xad20
}

/// One endpoint of an interface setting: its address, and whether its
/// direction is inbound.
pub struct EndpointDesc {
    pub address: u8,
    pub is_in: bool,
}

/// One setting of an interface: its class codes and its endpoints.
pub struct SettingDesc {
    pub class_code: u8,
    pub sub_class_code: u8,
    pub endpoints: Vec<EndpointDesc>,
}

/// One interface of the active configuration.
pub struct InterfaceDesc {
    pub settings: Vec<SettingDesc>,
}

/// The setting the framer talks to: vendor-specific class, subclass 0.
pub open spec fn is_vendor_setting(s: SettingDesc) -> bool {
    s.class_code == 0xff && s.sub_class_code == 0
}

/// The first setting of the list that the framer can talk to.
pub open spec fn first_vendor_setting(settings: Seq<SettingDesc>) -> Option<SettingDesc>
    decreases settings.len(),
{
    if settings.len() == 0 {
        None
    } else if is_vendor_setting(settings[0]) {
        Some(settings[0])
    } else {
        first_vendor_setting(settings.drop_first())
    }
}

/// The address of the first endpoint with the wanted direction.
pub open spec fn first_endpoint(endpoints: Seq<EndpointDesc>, want_in: bool) -> Option<u8>
    decreases endpoints.len(),
{
    if endpoints.len() == 0 {
        None
    } else if endpoints[0].is_in == want_in {
        Some(endpoints[0].address)
    } else {
        first_endpoint(endpoints.drop_first(), want_in)
    }
}

fn find_vendor_setting(settings: &Vec<SettingDesc>) -> (r: Option<usize>)
    ensures
        r matches Some(k) ==> k < settings@.len() && first_vendor_setting(settings@)
            == Some(settings@[k as int]),
        r is None ==> first_vendor_setting(settings@) is None,
{
    let mut i: usize = 0;
    proof {
        assert(settings@.skip(0) =~= settings@);
    }
    while i < settings.len()
        invariant
            i <= settings@.len(),
            first_vendor_setting(settings@) == first_vendor_setting(settings@.skip(i as int)),
        decreases settings@.len() - i,
    {
        proof {
            assert(settings@.skip(i as int)[0] == settings@[i as int]);
            assert(settings@.skip(i as int).drop_first() =~= settings@.skip(i + 1 as int));
        }
        let s = &settings[i];
        if s.class_code == 0xff && s.sub_class_code == 0 {
            return Some(i);
        }
        i = i + 1;
    }
    proof {
        assert(settings@.skip(settings@.len() as int).len() == 0);
    }
    None
}

fn find_direction_endpoint(endpoints: &Vec<EndpointDesc>, want_in: bool) -> (r: Option<u8>)
    ensures
        r == first_endpoint(endpoints@, want_in),
{
    let mut i: usize = 0;
    proof {
        assert(endpoints@.skip(0) =~= endpoints@);
    }
    while i < endpoints.len()
        invariant
            i <= endpoints@.len(),
            first_endpoint(endpoints@, want_in) == first_endpoint(
                endpoints@.skip(i as int),
                want_in,
            ),
        decreases endpoints@.len() - i,
    {
        proof {
            assert(endpoints@.skip(i as int)[0] == endpoints@[i as int]);
            assert(endpoints@.skip(i as int).drop_first() =~= endpoints@.skip(i + 1 as int));
        }
        let e = &endpoints[i];
        if e.is_in == want_in {
            return Some(e.address);
        }
        i = i + 1;
    }
    proof {
        assert(endpoints@.skip(endpoints@.len() as int).len() == 0);
    }
    None
}

/// Resolves the link's inbound and outbound endpoint addresses from the
/// active configuration's descriptors: only the first interface is
/// considered; within it, the first vendor-specific setting; within
/// that, the first endpoint of each direction.
pub fn find_endpoints(interfaces: &Vec<InterfaceDesc>) -> (r: Result<(u8, u8), Error>)
    ensures
        interfaces@.len() == 0 ==> (r matches Err(e) && e matches Error::UsbDescriptorError(m)
            && m@ == "Cannot find first configuration"@),
        interfaces@.len() > 0 ==> match first_vendor_setting(interfaces@[0].settings@) {
            Option::None => (r matches Err(e) && e matches Error::UsbDescriptorError(m) && m@
                == "Interface descriptor not found"@),
            Option::Some(setting) => match (
                first_endpoint(setting.endpoints@, true),
                first_endpoint(setting.endpoints@, false),
            ) {
                (Option::Some(in_ep), Option::Some(out_ep)) => r == Ok::<(u8, u8), Error>(
                    (in_ep, out_ep),
                ),
                (Option::None, _) => (r matches Err(e) && e matches Error::UsbDescriptorError(m)
                    && m@ == "IN endpoint not found"@),
                (Option::Some(_), Option::None) => (r matches Err(e) && e
                    matches Error::UsbDescriptorError(m) && m@ == "OUT endpoint not found"@),
            },
        },
{
    if interfaces.len() == 0 {
        return Err(
            Error::UsbDescriptorError("Cannot find first configuration".to_owned()),
        );
    }
    let interface = &interfaces[0];
    let setting_index = match find_vendor_setting(&interface.settings) {
        Some(k) => k,
        None => {
            return Err(Error::UsbDescriptorError("Interface descriptor not found".to_owned()));
        },
    };
    let setting = &interface.settings[setting_index];
    let in_ep = match find_direction_endpoint(&setting.endpoints, true) {
        Some(a) => a,
        None => {
            return Err(Error::UsbDescriptorError("IN endpoint not found".to_owned()));
        },
    };
    let out_ep = match find_direction_endpoint(&setting.endpoints, false) {
        Some(a) => a,
        None => {
            return Err(Error::UsbDescriptorError("OUT endpoint not found".to_owned()));
        },
    };
    Ok((in_ep, out_ep))
}

/// The shutdown signal shared by `close()` and the two background
/// loops: set once, observed at every poll boundary, never cleared.
pub struct ShutdownFlag {
    pub closing: bool,
}

/// The state a close request leaves the flag in, whatever it held.
pub open spec fn after_close(s: ShutdownFlag) -> ShutdownFlag {
    ShutdownFlag { closing: true }
}

impl ShutdownFlag {
    /// Whether shutdown has been requested.
    pub open spec fn is_closing(&self) -> bool {
        self.closing
    }

    pub fn new() -> (r: Self)
        ensures
            !r.is_closing(),
    {
        ShutdownFlag { closing: false }
    }

    /// Requests shutdown: both loops stop at their next poll boundary.
    pub fn request_close(&mut self)
        ensures
            *final(self) == after_close(*old(self)),
            final(self).is_closing(),
    {
        self.closing = true;
    }

    /// What each loop tests at its poll boundary.
    pub fn should_stop(&self) -> (r: bool)
        ensures
            r == self.is_closing(),
    {
        self.closing
    }

    /// Whether a new packet may still be accepted for sending: only
    /// before shutdown has begun.
    pub fn accept_send(&self) -> (r: Result<(), Error>)
        ensures
            r is Ok <==> !self.is_closing(),
            r matches Err(e) ==> e == Error::DeviceTxError,
    {
        if self.closing {
            Err(Error::DeviceTxError)
        } else {
            Ok(())
        }
    }
}

/// Shutdown idempotence: requesting shutdown twice leaves the framer in
/// exactly the state one request leaves it in, so a second `close()`
/// observes the same terminated loops and changes nothing.
pub proof fn lemma_close_idempotent(s: ShutdownFlag)
    ensures
        after_close(after_close(s)) == after_close(s),
{
}

} // verus!
