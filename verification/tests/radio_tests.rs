use crazyradio2::crazyradio2::{esb_send_params, parse_esb_ack, parse_mode_list};
use crazyradio2::error::Error;
use crazyradio2::usb_protocol::{
    check_protocol_version, drain_complete, find_endpoints, is_radio_device, EndpointDesc,
    InterfaceDesc, SettingDesc, ShutdownFlag,
};
use crazyradio2::value::RpcValue;

#[test]
fn esb_params_carry_channel_address_and_payload() {
    let params = esb_send_params(42, &[1, 2, 3, 4, 5], &[9, 8]);
    match params {
        RpcValue::Array(items) => {
            assert_eq!(items.len(), 3);
            assert!(matches!(items[0], RpcValue::Unsigned(42)));
            match &items[1] {
                RpcValue::Bytes(address) => assert_eq!(address, &vec![1, 2, 3, 4, 5]),
                _ => panic!("the address travels as bytes"),
            }
            match &items[2] {
                RpcValue::Bytes(payload) => assert_eq!(payload, &vec![9, 8]),
                _ => panic!("the payload travels as bytes"),
            }
        }
        _ => panic!("ESB parameters are a triple"),
    }
}

#[test]
fn esb_ack_with_payload_and_negative_rssi() {
    let ack = parse_esb_ack(&RpcValue::Array(vec![
        RpcValue::Bool(true),
        RpcValue::Bytes(vec![5, 6]),
        RpcValue::Negative(39), // the radio reported -40
    ]))
    .unwrap();
    assert!(ack.acked);
    assert_eq!(ack.data, Some(vec![5, 6]));
    assert_eq!(ack.rssi, 216); // -40 reinterpreted as a byte
    assert_eq!(ack.rssi, (-40i8) as u8);
}

#[test]
fn esb_ack_without_payload() {
    let ack = parse_esb_ack(&RpcValue::Array(vec![
        RpcValue::Bool(false),
        RpcValue::Null,
        RpcValue::Unsigned(17),
    ]))
    .unwrap();
    assert!(!ack.acked);
    assert_eq!(ack.data, None);
    assert_eq!(ack.rssi, 17);
}

#[test]
fn esb_ack_of_the_wrong_shape_is_rejected() {
    assert!(parse_esb_ack(&RpcValue::Null).is_none());
    assert!(parse_esb_ack(&RpcValue::Array(vec![RpcValue::Bool(true)])).is_none());
    assert!(parse_esb_ack(&RpcValue::Array(vec![
        RpcValue::Bool(true),
        RpcValue::Null,
        RpcValue::Unsigned(1000), // not a signed byte
    ]))
    .is_none());
    assert!(parse_esb_ack(&RpcValue::Array(vec![
        RpcValue::Bool(true),
        RpcValue::Text("not bytes".to_owned()),
        RpcValue::Unsigned(1),
    ]))
    .is_none());
}

#[test]
fn mode_list_parses_text_entries() {
    let modes = parse_mode_list(&RpcValue::Array(vec![
        RpcValue::Text("esb".to_owned()),
        RpcValue::Text("ble".to_owned()),
    ]))
    .unwrap();
    assert_eq!(modes, vec!["esb".to_owned(), "ble".to_owned()]);
    assert!(parse_mode_list(&RpcValue::Array(vec![RpcValue::Unsigned(1)])).is_none());
    assert!(parse_mode_list(&RpcValue::Null).is_none());
}

#[test]
fn protocol_version_must_match() {
    assert!(check_protocol_version(0).is_ok());
    match check_protocol_version(3) {
        Err(Error::ProtocolVersionError(expected, observed)) => {
            assert_eq!(expected, 0);
            assert_eq!(observed, 3);
        }
        _ => panic!("a version mismatch is a hard startup failure"),
    }
}

#[test]
fn drain_stops_at_a_short_transfer() {
    assert!(drain_complete(0));
    assert!(drain_complete(63));
    assert!(!drain_complete(64));
}

#[test]
fn device_identity_is_checked_by_ids() {
    assert!(is_radio_device(0x35f0, 0xad20));
    assert!(!is_radio_device(0x35f0, 0x0001));
    assert!(!is_radio_device(0x0001, 0xad20));
}

fn radio_like_descriptors() -> Vec<InterfaceDesc> {
    vec![InterfaceDesc {
        settings: vec![
            SettingDesc { class_code: 3, sub_class_code: 0, endpoints: vec![] },
            SettingDesc {
                class_code: 0xff,
                sub_class_code: 0,
                endpoints: vec![
                    EndpointDesc { address: 0x01, is_in: false },
                    EndpointDesc { address: 0x81, is_in: true },
                ],
            },
        ],
    }]
}

#[test]
fn endpoints_come_from_the_first_vendor_setting() {
    let (in_ep, out_ep) = find_endpoints(&radio_like_descriptors()).unwrap();
    assert_eq!(in_ep, 0x81);
    assert_eq!(out_ep, 0x01);
}

#[test]
fn missing_descriptors_are_reported() {
    match find_endpoints(&Vec::new()) {
        Err(Error::UsbDescriptorError(m)) => {
            assert_eq!(m, "Cannot find first configuration")
        }
        _ => panic!("no interface means no endpoints"),
    }
    let no_vendor = vec![InterfaceDesc {
        settings: vec![SettingDesc { class_code: 3, sub_class_code: 0, endpoints: vec![] }],
    }];
    match find_endpoints(&no_vendor) {
        Err(Error::UsbDescriptorError(m)) => {
            assert_eq!(m, "Interface descriptor not found")
        }
        _ => panic!("no vendor setting means no endpoints"),
    }
    let only_out = vec![InterfaceDesc {
        settings: vec![SettingDesc {
            class_code: 0xff,
            sub_class_code: 0,
            endpoints: vec![EndpointDesc { address: 0x01, is_in: false }],
        }],
    }];
    match find_endpoints(&only_out) {
        Err(Error::UsbDescriptorError(m)) => assert_eq!(m, "IN endpoint not found"),
        _ => panic!("a missing inbound endpoint is reported"),
    }
    let only_in = vec![InterfaceDesc {
        settings: vec![SettingDesc {
            class_code: 0xff,
            sub_class_code: 0,
            endpoints: vec![EndpointDesc { address: 0x81, is_in: true }],
        }],
    }];
    match find_endpoints(&only_in) {
        Err(Error::UsbDescriptorError(m)) => assert_eq!(m, "OUT endpoint not found"),
        _ => panic!("a missing outbound endpoint is reported"),
    }
}

#[test]
fn close_is_idempotent() {
    let mut flag = ShutdownFlag::new();
    assert!(!flag.should_stop());
    assert!(flag.accept_send().is_ok());
    flag.request_close();
    let after_first = flag.should_stop();
    flag.request_close();
    let after_second = flag.should_stop();
    assert!(after_first);
    assert_eq!(after_first, after_second);
    assert!(matches!(flag.accept_send(), Err(Error::DeviceTxError)));
}
