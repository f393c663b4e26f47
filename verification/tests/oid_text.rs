use nd_rust::interfaces::{get_index_from_oid, Interface, InterfaceCollectionError};
use nd_rust::models::DeviceStatus;
use nd_rust::oid_strings::{format_oid, u32_to_dec};
use nd_rust::discovery::{DiscoveryManager, SnmpCredentials};
use nd_rust::settings::{DatabaseSettings, Settings};

#[test]
fn format_oid_joins_components_with_dots() {
    assert_eq!(format_oid(&[]), "");
    assert_eq!(format_oid(&[0]), "0");
    assert_eq!(format_oid(&[1, 3, 6, 1, 2, 1, 2, 2, 1, 1]), "1.3.6.1.2.1.2.2.1.1");
    assert_eq!(format_oid(&[1, 30, 6]), "1.30.6");
    assert_eq!(format_oid(&[u32::MAX]), "4294967295");
}

#[test]
fn u32_to_dec_formats_decimals() {
    assert_eq!(u32_to_dec(0), "0");
    assert_eq!(u32_to_dec(7), "7");
    assert_eq!(u32_to_dec(10), "10");
    assert_eq!(u32_to_dec(90210), "90210");
}

#[test]
fn index_extraction_reads_the_trailing_segment() {
    assert_eq!(get_index_from_oid("1.3.6.1.2.1.2.2.1.1.42").unwrap(), 42);
    assert_eq!(get_index_from_oid("7").unwrap(), 7);
    assert_eq!(get_index_from_oid("1.0").unwrap(), 0);
    assert_eq!(get_index_from_oid("1.4294967295").unwrap(), u32::MAX);
}

#[test]
fn index_extraction_rejects_unusable_oids() {
    assert!(matches!(
        get_index_from_oid(""),
        Err(InterfaceCollectionError::InvalidData(_))
    ));
    assert!(matches!(
        get_index_from_oid("abc"),
        Err(InterfaceCollectionError::InvalidData(_))
    ));
    assert!(matches!(
        get_index_from_oid("1.2."),
        Err(InterfaceCollectionError::InvalidData(_))
    ));
    assert!(matches!(
        get_index_from_oid("1.2x"),
        Err(InterfaceCollectionError::InvalidData(_))
    ));
    // one past u32::MAX
    assert!(matches!(
        get_index_from_oid("1.4294967296"),
        Err(InterfaceCollectionError::InvalidData(_))
    ));
}

#[test]
fn index_extraction_inverts_oid_construction() {
    // appending an index to a column OID and reading it back yields it again
    let column = [1u32, 3, 6, 1, 2, 1, 2, 2, 1, 2];
    for idx in [0u32, 1, 13, 65536, u32::MAX] {
        let mut instance = column.to_vec();
        instance.push(idx);
        assert_eq!(get_index_from_oid(&format_oid(&instance)).unwrap(), idx);
    }
}

#[test]
fn mac_addresses_format_as_colon_separated_hex() {
    assert_eq!(Interface::format_mac_address(&[]), "");
    assert_eq!(Interface::format_mac_address(&[0x00]), "00");
    assert_eq!(
        Interface::format_mac_address(&[0x00, 0x1a, 0x2b, 0x3c, 0x4d, 0xff]),
        "00:1a:2b:3c:4d:ff"
    );
}

#[test]
fn device_status_parses_case_insensitively() {
    assert_eq!(
        DeviceStatus::try_from("up".to_string()).unwrap(),
        DeviceStatus::Up
    );
    assert_eq!(
        DeviceStatus::try_from("Up".to_string()).unwrap(),
        DeviceStatus::Up
    );
    assert_eq!(
        DeviceStatus::try_from("DOWN".to_string()).unwrap(),
        DeviceStatus::Down
    );
    assert_eq!(
        DeviceStatus::try_from("unKnoWn".to_string()).unwrap(),
        DeviceStatus::Unknown
    );
}

#[test]
fn device_status_rejects_anything_else() {
    assert_eq!(
        DeviceStatus::try_from("bogus".to_string()).unwrap_err(),
        "Invalid device status string: bogus"
    );
    assert!(DeviceStatus::try_from("".to_string()).is_err());
    assert!(DeviceStatus::try_from("upp".to_string()).is_err());
}

#[test]
fn discovery_manager_carries_its_pool() {
    let manager = DiscoveryManager::new(42u32);
    assert_eq!(manager.db_pool, 42);
    let creds = SnmpCredentials {
        community: "public".to_string(),
    };
    assert_eq!(creds.community, "public");
}

#[test]
fn settings_hold_plain_values() {
    let settings = Settings {
        debug: Some(true),
        database: Some(DatabaseSettings {
            url: Some("postgres://localhost/nd".to_string()),
        }),
        log_level: None,
    };
    assert_eq!(settings.debug, Some(true));
    assert_eq!(
        settings.database.unwrap().url.unwrap(),
        "postgres://localhost/nd"
    );
    assert!(settings.log_level.is_none());
}
