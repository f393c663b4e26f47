use nd_rust::interfaces::{
    assemble_interfaces, column_oid, ColumnWalks, Interface, InterfaceCollectionError,
    InterfaceColumn,
};
use nd_rust::oid_strings::format_oid;
use nd_rust::snmp::{SnmpError, SnmpValueOwned, WalkRows};

fn oid_for_test(base: &[u32], index: u32) -> Vec<u32> {
    let mut oid_vec = base.to_vec();
    oid_vec.push(index);
    oid_vec
}

fn column_base(c: InterfaceColumn) -> Vec<u32> {
    column_oid(c)
}

fn all_empty_walks() -> ColumnWalks {
    ColumnWalks {
        if_index: Ok(Vec::new()),
        if_descr: Ok(Vec::new()),
        if_type: Ok(Vec::new()),
        if_mtu: Ok(Vec::new()),
        if_speed: Ok(Vec::new()),
        if_phys_addr: Ok(Vec::new()),
        if_admin_status: Ok(Vec::new()),
        if_oper_status: Ok(Vec::new()),
        if_last_change: Ok(Vec::new()),
        if_in_octets: Ok(Vec::new()),
        if_out_octets: Ok(Vec::new()),
    }
}

#[test]
fn it_compiles() {
    assert!(true);
}

#[test]
fn test_collect_interfaces_success() {
    let index_base = column_base(InterfaceColumn::Index);
    let descr_base = column_base(InterfaceColumn::Description);

    let index_rows: WalkRows = vec![
        (oid_for_test(&index_base, 1), SnmpValueOwned::Integer(1)),
        (oid_for_test(&index_base, 2), SnmpValueOwned::Integer(2)),
    ];
    let descr_rows: WalkRows = vec![
        (
            oid_for_test(&descr_base, 1),
            SnmpValueOwned::OctetString(b"Ethernet Interface".to_vec()),
        ),
        (
            oid_for_test(&descr_base, 2),
            SnmpValueOwned::OctetString(b"Loopback".to_vec()),
        ),
    ];

    let mut walks = all_empty_walks();
    walks.if_index = Ok(index_rows);
    walks.if_descr = Ok(descr_rows);

    let result = assemble_interfaces(walks);
    assert!(result.is_ok(), "collect failed: {:?}", result.err());
    let interfaces = result.unwrap();
    assert_eq!(interfaces.len(), 2);

    let if1 = interfaces
        .iter()
        .find(|i| i.index == 1)
        .expect("Interface 1 not found");
    assert_eq!(if1.description, "Ethernet Interface");

    let if2 = interfaces
        .iter()
        .find(|i| i.index == 2)
        .expect("Interface 2 not found");
    assert_eq!(if2.description, "Loopback");

    assert!(if1.interface_type == 0);
    assert!(if1.physical_address.is_none());
    assert!(if2.interface_type == 0);

    // all other fields of both records are unset
    for i in &interfaces {
        assert!(i.mtu.is_none());
        assert!(i.speed.is_none());
        assert!(i.last_change.is_none());
        assert!(i.in_octets.is_none());
        assert!(i.out_octets.is_none());
        assert!(i.admin_status == 0);
        assert!(i.oper_status == 0);
    }
}

#[test]
fn test_collect_interfaces_walk_error() {
    let index_base = column_base(InterfaceColumn::Index);
    let descr_base = column_base(InterfaceColumn::Description);

    let mut walks = all_empty_walks();
    walks.if_index = Ok(vec![(
        oid_for_test(&index_base, 1),
        SnmpValueOwned::Integer(1),
    )]);
    walks.if_descr = Err(SnmpError::Snmp("Simulated walk error".to_string()));

    let result = assemble_interfaces(walks);
    assert!(result.is_err());
    match result.err().unwrap() {
        InterfaceCollectionError::WalkFailed { oid, source } => {
            assert_eq!(oid, format_oid(&descr_base));
            assert!(matches!(source, SnmpError::Snmp(_)));
        }
        e => panic!("Expected WalkFailed error, got {:?}", e),
    }
}

#[test]
fn test_collect_interfaces_no_interfaces_found() {
    let walks = all_empty_walks();
    let result = assemble_interfaces(walks);
    assert!(result.is_err());
    assert!(matches!(
        result.err().unwrap(),
        InterfaceCollectionError::NoInterfaces
    ));
}

#[test]
fn empty_physical_address_is_absent() {
    let index_base = column_base(InterfaceColumn::Index);
    let phys_base = column_base(InterfaceColumn::PhysAddress);

    let mut walks = all_empty_walks();
    walks.if_index = Ok(vec![(
        oid_for_test(&index_base, 1),
        SnmpValueOwned::Integer(1),
    )]);
    walks.if_phys_addr = Ok(vec![(
        oid_for_test(&phys_base, 1),
        SnmpValueOwned::OctetString(Vec::new()),
    )]);

    let interfaces = assemble_interfaces(walks).unwrap();
    assert_eq!(interfaces.len(), 1);
    assert!(interfaces[0].physical_address.is_none());
}

#[test]
fn nonempty_physical_address_is_kept() {
    let index_base = column_base(InterfaceColumn::Index);
    let phys_base = column_base(InterfaceColumn::PhysAddress);

    let mut walks = all_empty_walks();
    walks.if_index = Ok(vec![(
        oid_for_test(&index_base, 1),
        SnmpValueOwned::Integer(1),
    )]);
    walks.if_phys_addr = Ok(vec![(
        oid_for_test(&phys_base, 1),
        SnmpValueOwned::OctetString(vec![0x00, 0x1a, 0x2b]),
    )]);

    let interfaces = assemble_interfaces(walks).unwrap();
    assert_eq!(
        interfaces[0].physical_address,
        Some(vec![0x00u8, 0x1a, 0x2b])
    );
}

#[test]
fn speed_accepts_gauge_integer_and_counter() {
    let index_base = column_base(InterfaceColumn::Index);
    let speed_base = column_base(InterfaceColumn::Speed);

    let mut walks = all_empty_walks();
    walks.if_index = Ok(vec![
        (oid_for_test(&index_base, 1), SnmpValueOwned::Integer(1)),
        (oid_for_test(&index_base, 2), SnmpValueOwned::Integer(2)),
        (oid_for_test(&index_base, 3), SnmpValueOwned::Integer(3)),
    ]);
    walks.if_speed = Ok(vec![
        (oid_for_test(&speed_base, 1), SnmpValueOwned::Gauge32(100)),
        (oid_for_test(&speed_base, 2), SnmpValueOwned::Integer(200)),
        (oid_for_test(&speed_base, 3), SnmpValueOwned::Counter32(300)),
    ]);

    let interfaces = assemble_interfaces(walks).unwrap();
    let speed_of = |idx: u32| {
        interfaces
            .iter()
            .find(|i| i.index == idx)
            .unwrap()
            .speed
    };
    assert_eq!(speed_of(1), Some(100));
    assert_eq!(speed_of(2), Some(200));
    assert_eq!(speed_of(3), Some(300));
}

#[test]
fn traffic_counters_keep_the_wider_width() {
    let index_base = column_base(InterfaceColumn::Index);
    let in_base = column_base(InterfaceColumn::InOctets);
    let out_base = column_base(InterfaceColumn::OutOctets);

    let mut walks = all_empty_walks();
    walks.if_index = Ok(vec![(
        oid_for_test(&index_base, 1),
        SnmpValueOwned::Integer(1),
    )]);
    walks.if_in_octets = Ok(vec![(
        oid_for_test(&in_base, 1),
        SnmpValueOwned::Counter32(7),
    )]);
    walks.if_out_octets = Ok(vec![(
        oid_for_test(&out_base, 1),
        SnmpValueOwned::Counter64(1 << 40),
    )]);

    let interfaces = assemble_interfaces(walks).unwrap();
    assert_eq!(interfaces[0].in_octets, Some(7));
    assert_eq!(interfaces[0].out_octets, Some(1u64 << 40));
}

#[test]
fn full_columns_fill_every_field() {
    let mut walks = all_empty_walks();
    walks.if_index = Ok(vec![(
        oid_for_test(&column_base(InterfaceColumn::Index), 9),
        SnmpValueOwned::Integer(9),
    )]);
    walks.if_descr = Ok(vec![(
        oid_for_test(&column_base(InterfaceColumn::Description), 9),
        SnmpValueOwned::OctetString(b"eth0".to_vec()),
    )]);
    walks.if_type = Ok(vec![(
        oid_for_test(&column_base(InterfaceColumn::Type), 9),
        SnmpValueOwned::Integer(6),
    )]);
    walks.if_mtu = Ok(vec![(
        oid_for_test(&column_base(InterfaceColumn::Mtu), 9),
        SnmpValueOwned::Integer(1500),
    )]);
    walks.if_speed = Ok(vec![(
        oid_for_test(&column_base(InterfaceColumn::Speed), 9),
        SnmpValueOwned::Gauge32(1_000_000),
    )]);
    walks.if_phys_addr = Ok(vec![(
        oid_for_test(&column_base(InterfaceColumn::PhysAddress), 9),
        SnmpValueOwned::OctetString(vec![0xde, 0xad, 0xbe, 0xef, 0x00, 0x01]),
    )]);
    walks.if_admin_status = Ok(vec![(
        oid_for_test(&column_base(InterfaceColumn::AdminStatus), 9),
        SnmpValueOwned::Integer(1),
    )]);
    walks.if_oper_status = Ok(vec![(
        oid_for_test(&column_base(InterfaceColumn::OperStatus), 9),
        SnmpValueOwned::Integer(2),
    )]);
    walks.if_last_change = Ok(vec![(
        oid_for_test(&column_base(InterfaceColumn::LastChange), 9),
        SnmpValueOwned::TimeTicks(12345),
    )]);
    walks.if_in_octets = Ok(vec![(
        oid_for_test(&column_base(InterfaceColumn::InOctets), 9),
        SnmpValueOwned::Counter64(10),
    )]);
    walks.if_out_octets = Ok(vec![(
        oid_for_test(&column_base(InterfaceColumn::OutOctets), 9),
        SnmpValueOwned::Counter32(20),
    )]);

    let interfaces = assemble_interfaces(walks).unwrap();
    assert_eq!(interfaces.len(), 1);
    let i = &interfaces[0];
    assert_eq!(i.index, 9);
    assert_eq!(i.description, "eth0");
    assert_eq!(i.interface_type, 6);
    assert_eq!(i.mtu, Some(1500));
    assert_eq!(i.speed, Some(1_000_000));
    assert_eq!(
        i.physical_address,
        Some(vec![0xdeu8, 0xad, 0xbe, 0xef, 0x00, 0x01])
    );
    assert_eq!(i.admin_status, 1);
    assert_eq!(i.oper_status, 2);
    assert_eq!(i.last_change, Some(12345));
    assert_eq!(i.in_octets, Some(10));
    assert_eq!(i.out_octets, Some(20));
}

#[test]
fn index_walk_error_beats_later_errors() {
    let mut walks = all_empty_walks();
    walks.if_index = Err(SnmpError::Io("no route".to_string()));
    walks.if_descr = Err(SnmpError::Snmp("also down".to_string()));

    match assemble_interfaces(walks).err().unwrap() {
        InterfaceCollectionError::WalkFailed { oid, source } => {
            assert_eq!(oid, format_oid(&column_base(InterfaceColumn::Index)));
            assert!(matches!(source, SnmpError::Io(_)));
        }
        e => panic!("Expected WalkFailed error, got {:?}", e),
    }
}

#[test]
fn empty_index_wins_over_other_columns() {
    let mut walks = all_empty_walks();
    walks.if_descr = Err(SnmpError::Snmp("down".to_string()));
    assert!(matches!(
        assemble_interfaces(walks).err().unwrap(),
        InterfaceCollectionError::NoInterfaces
    ));
}

#[test]
fn unusable_instance_oid_is_invalid_data() {
    let mut walks = all_empty_walks();
    walks.if_index = Ok(vec![(Vec::new(), SnmpValueOwned::Integer(1))]);
    match assemble_interfaces(walks).err().unwrap() {
        InterfaceCollectionError::InvalidData(m) => {
            assert_eq!(m, "Failed to extract index from OID");
        }
        e => panic!("Expected InvalidData error, got {:?}", e),
    }
}

#[test]
fn first_entry_wins_for_duplicate_row_indices() {
    let index_base = column_base(InterfaceColumn::Index);
    let descr_base = column_base(InterfaceColumn::Description);

    let mut walks = all_empty_walks();
    walks.if_index = Ok(vec![(
        oid_for_test(&index_base, 4),
        SnmpValueOwned::Integer(4),
    )]);
    walks.if_descr = Ok(vec![
        (
            oid_for_test(&descr_base, 4),
            SnmpValueOwned::OctetString(b"first".to_vec()),
        ),
        (
            oid_for_test(&descr_base, 4),
            SnmpValueOwned::OctetString(b"second".to_vec()),
        ),
    ]);

    let interfaces = assemble_interfaces(walks).unwrap();
    assert_eq!(interfaces[0].description, "first");
}

#[test]
fn invalid_utf8_description_is_replaced_not_fatal() {
    let index_base = column_base(InterfaceColumn::Index);
    let descr_base = column_base(InterfaceColumn::Description);

    let mut walks = all_empty_walks();
    walks.if_index = Ok(vec![(
        oid_for_test(&index_base, 1),
        SnmpValueOwned::Integer(1),
    )]);
    walks.if_descr = Ok(vec![(
        oid_for_test(&descr_base, 1),
        SnmpValueOwned::OctetString(vec![0xff, b'h', b'i']),
    )]);

    let interfaces = assemble_interfaces(walks).unwrap();
    assert_eq!(interfaces[0].description, "\u{FFFD}hi");
}

#[test]
fn interface_new_leaves_fields_unset() {
    let i = Interface::new(7);
    assert_eq!(i.index, 7);
    assert_eq!(i.description, "");
    assert_eq!(i.interface_type, 0);
    assert!(i.mtu.is_none());
    assert!(i.speed.is_none());
    assert!(i.physical_address.is_none());
    assert_eq!(i.admin_status, 0);
    assert_eq!(i.oper_status, 0);
    assert!(i.last_change.is_none());
    assert!(i.in_octets.is_none());
    assert!(i.out_octets.is_none());
}
