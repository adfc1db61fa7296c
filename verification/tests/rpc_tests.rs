use crazyradio2::error::RpcError;
use crazyradio2::rpc::{
    build_request, decode_response, dispatch_packet, encode_request, error_from_value,
    method_ref, method_table_from_outcome, CallOutcome, DispatchAction, MethodRef,
    MethodTable, PendingCalls, SequenceCounter,
};
use crazyradio2::value::RpcValue;

fn uint(n: u64) -> ciborium::value::Value {
    ciborium::value::Value::Integer(ciborium::value::Integer::from(n))
}

fn response_bytes(
    sequence: u64,
    error: ciborium::value::Value,
    result: ciborium::value::Value,
) -> Vec<u8> {
    let envelope = ciborium::value::Value::Array(vec![uint(0), uint(sequence), error, result]);
    let mut bytes: Vec<u8> = Vec::new();
    ciborium::ser::into_writer(&envelope, &mut bytes).unwrap();
    bytes
}

#[test]
fn sequence_numbers_are_distinct() {
    let mut counter = SequenceCounter::new();
    let issued: Vec<u64> = (0..150).map(|_| counter.next()).collect();
    for i in 0..issued.len() {
        for j in (i + 1)..issued.len() {
            assert_ne!(issued[i], issued[j]);
        }
    }
}

#[test]
fn scrambled_responses_reach_their_own_callers() {
    let mut pending: PendingCalls<&str> = PendingCalls::new();
    pending.register(0, "caller zero");
    pending.register(1, "caller one");
    pending.register(2, "caller two");

    // Responses arrive in an order unrelated to the requests'.
    for (seq, tag) in [(1u64, 10u64), (2, 20), (0, 30)] {
        let packet = response_bytes(seq, ciborium::value::Value::Null, uint(tag));
        let action = dispatch_packet(&mut pending, &packet).unwrap();
        match action {
            DispatchAction::Deliver(slot, CallOutcome::Success(RpcValue::Unsigned(value))) => {
                match seq {
                    0 => assert_eq!(slot, "caller zero"),
                    1 => assert_eq!(slot, "caller one"),
                    _ => assert_eq!(slot, "caller two"),
                }
                assert_eq!(value, tag);
            }
            _ => panic!("expected a successful delivery"),
        }
    }
}

#[test]
fn unknown_sequence_is_discarded_and_later_responses_still_delivered() {
    let mut pending: PendingCalls<u32> = PendingCalls::new();
    pending.register(7, 77);

    let stray = response_bytes(99, ciborium::value::Value::Null, uint(1));
    match dispatch_packet(&mut pending, &stray) {
        Some(DispatchAction::Ignore(seq)) => assert_eq!(seq, 99),
        _ => panic!("expected the stray response to be ignored"),
    }

    let real = response_bytes(7, ciborium::value::Value::Null, uint(5));
    match dispatch_packet(&mut pending, &real) {
        Some(DispatchAction::Deliver(slot, CallOutcome::Success(RpcValue::Unsigned(5)))) => {
            assert_eq!(slot, 77)
        }
        _ => panic!("expected delivery to the pending caller"),
    }
}

#[test]
fn malformed_packet_is_isolated() {
    let mut pending: PendingCalls<u32> = PendingCalls::new();
    pending.register(1, 11);
    assert!(dispatch_packet(&mut pending, &[0xFF, 0x00]).is_none());
    // A well-formed value of the wrong shape is discarded too.
    let mut not_an_envelope: Vec<u8> = Vec::new();
    ciborium::ser::into_writer(&uint(3), &mut not_an_envelope).unwrap();
    assert!(dispatch_packet(&mut pending, &not_an_envelope).is_none());
    // The pending call is still served afterwards.
    let real = response_bytes(1, ciborium::value::Value::Null, uint(2));
    assert!(matches!(
        dispatch_packet(&mut pending, &real),
        Some(DispatchAction::Deliver(11, CallOutcome::Success(RpcValue::Unsigned(2))))
    ));
}

#[test]
fn error_responses_deliver_the_error_value() {
    let mut pending: PendingCalls<u32> = PendingCalls::new();
    pending.register(4, 44);
    let failure = response_bytes(
        4,
        ciborium::value::Value::Text("no such method".to_owned()),
        ciborium::value::Value::Null,
    );
    match dispatch_packet(&mut pending, &failure) {
        Some(DispatchAction::Deliver(44, CallOutcome::Failure(value))) => {
            match error_from_value(value) {
                RpcError::RpcError(message) => assert_eq!(message, "no such method"),
                _ => panic!("a textual error surfaces its text"),
            }
        }
        _ => panic!("expected a failure delivery"),
    }
}

#[test]
fn nontextual_error_surfaces_the_raw_value() {
    match error_from_value(RpcValue::Unsigned(3)) {
        RpcError::RpcErrorValue(RpcValue::Unsigned(3)) => {}
        _ => panic!("a non-textual error surfaces the value itself"),
    }
}

#[test]
fn bootstrap_failure_falls_back_to_names() {
    let table = method_table_from_outcome(None);
    match method_ref(&table, &"radioMode.list".to_owned()) {
        MethodRef::Name(name) => assert_eq!(name, "radioMode.list"),
        MethodRef::Id(_) => panic!("an empty table cannot resolve a name"),
    }
}

#[test]
fn bootstrap_table_resolves_known_names() {
    let table_value = RpcValue::Dict(vec![
        (RpcValue::Text("radioMode.list".to_owned()), RpcValue::Unsigned(1)),
        (RpcValue::Text("radioMode.set".to_owned()), RpcValue::Unsigned(2)),
    ]);
    let table = method_table_from_outcome(Some(&table_value));
    assert!(matches!(
        method_ref(&table, &"radioMode.set".to_owned()),
        MethodRef::Id(2)
    ));
    assert!(matches!(
        method_ref(&table, &"esb.sendPacket".to_owned()),
        MethodRef::Name(_)
    ));
}

#[test]
fn malformed_bootstrap_result_leaves_the_table_empty() {
    let bad = RpcValue::Dict(vec![(RpcValue::Unsigned(1), RpcValue::Unsigned(2))]);
    let table = method_table_from_outcome(Some(&bad));
    assert!(matches!(
        method_ref(&table, &"anything".to_owned()),
        MethodRef::Name(_)
    ));
    let not_a_dict = RpcValue::Text("oops".to_owned());
    let table2 = method_table_from_outcome(Some(&not_a_dict));
    assert!(matches!(
        method_ref(&table2, &"anything".to_owned()),
        MethodRef::Name(_)
    ));
}

#[test]
fn method_table_rejects_oversized_ids() {
    let bad = RpcValue::Dict(vec![(
        RpcValue::Text("m".to_owned()),
        RpcValue::Unsigned(0x1_0000_0000),
    )]);
    assert!(MethodTable::from_value(&bad).is_none());
}

#[test]
fn request_envelope_bytes_are_exact() {
    // [0, 1, "well-known.methods", null] in the wire encoding.
    let bytes = encode_request(
        1,
        MethodRef::Name("well-known.methods".to_owned()),
        RpcValue::Null,
    );
    let mut expected: Vec<u8> = vec![0x84, 0x00, 0x01, 0x72];
    expected.extend_from_slice(b"well-known.methods");
    expected.push(0xF6);
    assert_eq!(bytes, expected);
}

#[test]
fn request_with_cached_id_is_shorter() {
    let by_name = encode_request(
        1,
        MethodRef::Name("well-known.methods".to_owned()),
        RpcValue::Null,
    );
    let by_id = encode_request(1, MethodRef::Id(1), RpcValue::Null);
    assert_eq!(by_id, vec![0x84, 0x00, 0x01, 0x01, 0xF6]);
    assert!(by_id.len() < by_name.len());
}

#[test]
fn build_request_carries_the_parameters() {
    let request = build_request(9, MethodRef::Id(3), RpcValue::Text("2M".to_owned()));
    match request {
        RpcValue::Array(items) => {
            assert_eq!(items.len(), 4);
            assert!(matches!(items[0], RpcValue::Unsigned(0)));
            assert!(matches!(items[1], RpcValue::Unsigned(9)));
            assert!(matches!(items[2], RpcValue::Unsigned(3)));
            match &items[3] {
                RpcValue::Text(s) => assert_eq!(s, "2M"),
                _ => panic!("parameters are carried through unchanged"),
            }
        }
        _ => panic!("a request envelope is an array"),
    }
}

#[test]
fn decode_response_rejects_wrong_shapes() {
    // Not an array.
    let mut bytes: Vec<u8> = Vec::new();
    ciborium::ser::into_writer(&uint(7), &mut bytes).unwrap();
    assert!(decode_response(&bytes).is_none());
    // An array of the wrong length.
    let mut short: Vec<u8> = Vec::new();
    ciborium::ser::into_writer(
        &ciborium::value::Value::Array(vec![uint(0), uint(1)]),
        &mut short,
    )
    .unwrap();
    assert!(decode_response(&short).is_none());
    // A tag out of range.
    let huge_tag = ciborium::value::Value::Array(vec![
        uint(0x1_0000_0000),
        uint(1),
        ciborium::value::Value::Null,
        ciborium::value::Value::Null,
    ]);
    let mut huge: Vec<u8> = Vec::new();
    ciborium::ser::into_writer(&huge_tag, &mut huge).unwrap();
    assert!(decode_response(&huge).is_none());
}

#[test]
fn echoed_bootstrap_call_round_trips() {
    // The request the engine would send for the bootstrap method.
    let request = encode_request(
        1,
        MethodRef::Name("well-known.methods".to_owned()),
        RpcValue::Null,
    );
    assert_eq!(request[0], 0x84);

    // The mock link answers [0, 1, null, {"well-known.methods": 1}].
    let mapping = ciborium::value::Value::Map(vec![(
        ciborium::value::Value::Text("well-known.methods".to_owned()),
        uint(1),
    )]);
    let response = response_bytes(1, ciborium::value::Value::Null, mapping);

    let mut pending: PendingCalls<u32> = PendingCalls::new();
    pending.register(1, 100);
    let delivered = match dispatch_packet(&mut pending, &response) {
        Some(DispatchAction::Deliver(100, CallOutcome::Success(value))) => value,
        _ => panic!("the echoed response completes the bootstrap call"),
    };
    let table = method_table_from_outcome(Some(&delivered));
    assert!(matches!(
        method_ref(&table, &"well-known.methods".to_owned()),
        MethodRef::Id(1)
    ));
}
