use nd_rust::snmp::{
    oid_starts_with, oids_equal, process_get_response, to_owned_value, SnmpError, SnmpValueOwned,
    WalkState, WireValue,
};

#[test]
fn decode_maps_every_enumerated_type() {
    assert_eq!(
        to_owned_value(WireValue::Null).unwrap(),
        SnmpValueOwned::Null
    );
    assert_eq!(
        to_owned_value(WireValue::Integer(-5)).unwrap(),
        SnmpValueOwned::Integer(-5)
    );
    assert_eq!(
        to_owned_value(WireValue::OctetString(vec![1, 2])).unwrap(),
        SnmpValueOwned::OctetString(vec![1, 2])
    );
    assert_eq!(
        to_owned_value(WireValue::ObjectIdentifier(vec![1, 3, 6])).unwrap(),
        SnmpValueOwned::ObjectIdentifier(vec![1, 3, 6])
    );
    assert_eq!(
        to_owned_value(WireValue::IpAddress([10, 0, 0, 1])).unwrap(),
        SnmpValueOwned::IpAddress([10, 0, 0, 1])
    );
    assert_eq!(
        to_owned_value(WireValue::Counter32(9)).unwrap(),
        SnmpValueOwned::Counter32(9)
    );
    assert_eq!(
        to_owned_value(WireValue::Gauge32(8)).unwrap(),
        SnmpValueOwned::Gauge32(8)
    );
    assert_eq!(
        to_owned_value(WireValue::TimeTicks(7)).unwrap(),
        SnmpValueOwned::TimeTicks(7)
    );
    assert_eq!(
        to_owned_value(WireValue::Opaque(vec![0xab])).unwrap(),
        SnmpValueOwned::Opaque(vec![0xab])
    );
    assert_eq!(
        to_owned_value(WireValue::Counter64(u64::MAX)).unwrap(),
        SnmpValueOwned::Counter64(u64::MAX)
    );
}

#[test]
fn decode_fails_loudly_on_unsupported_types() {
    match to_owned_value(WireValue::Unsupported) {
        Err(SnmpError::UnsupportedType(m)) => assert_eq!(m, "Unhandled SNMP value type"),
        other => panic!("expected an unsupported-type error, got {:?}", other),
    }
    assert!(matches!(
        to_owned_value(WireValue::EndOfMibView),
        Err(SnmpError::UnsupportedType(_))
    ));
}

#[test]
fn decoding_twice_yields_equal_values() {
    let wire = WireValue::OctetString(b"abc".to_vec());
    let first = to_owned_value(wire.clone()).unwrap();
    let second = to_owned_value(wire).unwrap();
    assert_eq!(first, second);
}

#[test]
fn walk_appends_rows_inside_the_subtree() {
    let mut walk = WalkState::new(vec![1, 3, 6, 1]);
    let cont = walk
        .step(vec![1, 3, 6, 1, 1], WireValue::Integer(1))
        .unwrap();
    assert!(cont);
    let cont = walk
        .step(vec![1, 3, 6, 1, 2], WireValue::Integer(2))
        .unwrap();
    assert!(cont);
    let rows = walk.into_rows();
    assert_eq!(rows.len(), 2);
    assert_eq!(rows[0].0, vec![1, 3, 6, 1, 1]);
    assert_eq!(rows[0].1, SnmpValueOwned::Integer(1));
    assert_eq!(rows[1].0, vec![1, 3, 6, 1, 2]);
}

#[test]
fn walk_stops_when_the_response_leaves_the_subtree() {
    let mut walk = WalkState::new(vec![1, 3, 6, 1]);
    let cont = walk.step(vec![1, 3, 6, 2], WireValue::Integer(5)).unwrap();
    assert!(!cont);
    assert!(walk.finished);
    assert_eq!(walk.into_rows().len(), 0);
}

#[test]
fn walk_stops_on_end_of_view() {
    let mut walk = WalkState::new(vec![1, 3, 6, 1]);
    let cont = walk
        .step(vec![1, 3, 6, 1, 1], WireValue::EndOfMibView)
        .unwrap();
    assert!(!cont);
    assert_eq!(walk.into_rows().len(), 0);
}

#[test]
fn walk_aborts_when_the_agent_repeats_an_oid() {
    let mut walk = WalkState::new(vec![1, 3, 6, 1]);
    walk.step(vec![1, 3, 6, 1, 1], WireValue::Integer(1)).unwrap();
    match walk.step(vec![1, 3, 6, 1, 1], WireValue::Integer(1)) {
        Err(SnmpError::Snmp(m)) => assert_eq!(m, "GETNEXT returned the same OID twice"),
        other => panic!("expected the stall guard to fire, got {:?}", other),
    }
}

#[test]
fn walk_surfaces_undecodable_values() {
    let mut walk = WalkState::new(vec![1, 3, 6, 1]);
    assert!(matches!(
        walk.step(vec![1, 3, 6, 1, 1], WireValue::Unsupported),
        Err(SnmpError::UnsupportedType(_))
    ));
    assert_eq!(walk.into_rows().len(), 0);
}

#[test]
fn walk_finish_keeps_collected_rows() {
    let mut walk = WalkState::new(vec![1, 3]);
    walk.step(vec![1, 3, 9], WireValue::Counter32(1)).unwrap();
    walk.finish();
    assert!(walk.finished);
    assert_eq!(walk.into_rows().len(), 1);
}

#[test]
fn get_response_requires_a_varbind() {
    let r = process_get_response(&vec![1, 3, 6], Vec::new());
    assert!(matches!(r, Err(SnmpError::NoVarBindValue)));
}

#[test]
fn get_response_rejects_answers_for_other_oids() {
    let r = process_get_response(
        &vec![1, 3, 6],
        vec![(vec![1, 3, 7], WireValue::Integer(1))],
    );
    match r {
        Err(SnmpError::OidMismatch { expected, got }) => {
            assert_eq!(expected, vec![1, 3, 6]);
            assert_eq!(got, vec![1, 3, 7]);
        }
        other => panic!("expected an OID mismatch, got {:?}", other),
    }
}

#[test]
fn get_response_rejects_null_values() {
    let r = process_get_response(&vec![1, 3, 6], vec![(vec![1, 3, 6], WireValue::Null)]);
    assert!(matches!(r, Err(SnmpError::NoVarBindValue)));
}

#[test]
fn get_response_decodes_the_first_varbind() {
    let r = process_get_response(
        &vec![1, 3, 6],
        vec![(vec![1, 3, 6], WireValue::Gauge32(77))],
    );
    assert_eq!(r.unwrap(), SnmpValueOwned::Gauge32(77));
}

#[test]
fn get_response_rejects_undecodable_values() {
    // an unsupported type is its own failure kind, never an empty response
    let r = process_get_response(
        &vec![1, 3, 6],
        vec![(vec![1, 3, 6], WireValue::Unsupported)],
    );
    match r {
        Err(SnmpError::UnsupportedType(m)) => assert_eq!(m, "Unhandled SNMP value type"),
        other => panic!("expected an unsupported-type error, got {:?}", other),
    }
}

#[test]
fn oid_comparisons() {
    assert!(oids_equal(&vec![1, 2, 3], &vec![1, 2, 3]));
    assert!(!oids_equal(&vec![1, 2, 3], &vec![1, 2, 4]));
    assert!(!oids_equal(&vec![1, 2], &vec![1, 2, 3]));
    assert!(oid_starts_with(&vec![1, 2], &vec![1, 2, 3]));
    assert!(oid_starts_with(&vec![1, 2], &vec![1, 2]));
    assert!(!oid_starts_with(&vec![1, 2, 3], &vec![1, 2]));
    assert!(!oid_starts_with(&vec![1, 9], &vec![1, 2, 3]));
}
