use redis_starter_rust::rdb::RdbError;
use redis_starter_rust::rdb::RDB;
use redis_starter_rust::store::Store;

const NOW: u64 = 1_700_000_000_000;

#[test]
fn test_create_empty_rdb() {
    let contents = RDB::create_rdb(None, NOW).unwrap();

    assert_eq!(&contents[0..9], b"REDIS0011");

    assert_eq!(contents[9], 0xFA);
    assert_eq!(contents[10], 0x09); // "redis-ver" length (9) - length encoded
    assert_eq!(&contents[11..20], b"redis-ver");
    assert_eq!(contents[20], 0x05); // "7.2.0" length (5) - length encoded
    assert_eq!(&contents[21..26], b"7.2.0");

    assert_eq!(contents[26], 0xFA);
    assert_eq!(contents[27], 0x0A); // "redis-bits" length (10) - length encoded
    assert_eq!(&contents[28..38], b"redis-bits");
    assert_eq!(contents[38], 0xC0); // special encoding
    assert_eq!(contents[39], 0x40); // 64 bits

    assert_eq!(contents[40], 0xFF);

    assert_eq!(contents.len(), 49); // magic(9) + metadata(31) + EOF(1) + checksum(8)
}

#[test]
fn test_create_rdb_with_data() {
    let mut store = Store::new();
    store.insert("key1".to_string(), "value1".to_string(), None, NOW);
    store.insert("key2".to_string(), "value2".to_string(), Some(60000), NOW);

    let stores = vec![&store];
    let contents = RDB::create_rdb(Some(&stores), NOW).unwrap();

    assert_eq!(&contents[0..9], b"REDIS0011");

    assert!(contents.windows(2).any(|w| w[0] == 0xFE && w[1] == 0x00));

    let contents_str = String::from_utf8_lossy(&contents);
    assert!(contents_str.contains("key1"));
    assert!(contents_str.contains("value1"));
    assert!(contents_str.contains("key2"));
    assert!(contents_str.contains("value2"));

    assert!(contents.windows(2).any(|w| w[0] == 0xFF));
}

#[test]
fn test_create_rdb_with_multiple_stores() {
    let mut store0 = Store::new();
    let mut store1 = Store::new();

    store0.insert("key1".to_string(), "value1".to_string(), None, NOW);
    store1.insert("key2".to_string(), "value2".to_string(), Some(600_000), NOW);

    let stores = vec![&store0, &store1];
    let contents = RDB::create_rdb(Some(&stores), NOW).unwrap();

    assert_eq!(&contents[0..9], b"REDIS0011");

    let db_selectors: Vec<_> = contents
        .windows(2)
        .filter(|w| w[0] == 0xFE && w[1] < 2)
        .collect();
    assert_eq!(db_selectors.len(), 2);

    let contents_str = String::from_utf8_lossy(&contents);
    assert!(contents_str.contains("key1"));
    assert!(contents_str.contains("value1"));
    assert!(contents_str.contains("key2"));
    assert!(contents_str.contains("value2"));

    let expiry_marker_pos = contents
        .windows(2)
        .position(|w| w[0] == 0xFC)
        .expect("expiry marker not found");

    let expiry_time_bytes = &contents[expiry_marker_pos + 1..expiry_marker_pos + 9];
    let expiry_time = u64::from_le_bytes(expiry_time_bytes.try_into().unwrap());

    assert!(expiry_time > NOW);
    assert!(expiry_time <= NOW + 600_100);

    assert!(contents.windows(2).any(|w| w[0] == 0xFF));
}

#[test]
fn test_create_rdb_with_millisecond_expiry() {
    let mut store = Store::new();
    store.insert("key1".to_string(), "value1".to_string(), Some(1500), NOW);

    let stores = vec![&store];
    let contents = RDB::create_rdb(Some(&stores), NOW).unwrap();

    assert_eq!(&contents[0..9], b"REDIS0011");

    assert!(contents.windows(2).any(|w| w[0] == 0xFE && w[1] == 0x00));

    let expiry_marker_pos = contents
        .windows(2)
        .position(|w| w[0] == 0xFC)
        .expect("expiry marker not found");

    let expiry_time_bytes = &contents[expiry_marker_pos + 1..expiry_marker_pos + 9];
    let expiry_time = u64::from_le_bytes(expiry_time_bytes.try_into().unwrap());

    assert!(expiry_time > NOW);
    assert!(expiry_time <= NOW + 1600);

    assert!(contents.windows(2).any(|w| w[0] == 0xFF));
}

#[test]
fn test_length_encode_int() {
    let mut buffer = Vec::new();

    // Test case 1: 6-bit number (63 and below)
    RDB::length_encode_int(63, &mut buffer);
    assert_eq!(buffer, vec![0x3F]); // 00111111
    buffer.clear();

    // Test case 2: 14-bit number (16383 and below)
    RDB::length_encode_int(16383, &mut buffer);
    assert_eq!(buffer, vec![0x7F, 0xFF]); // 01111111 11111111
    buffer.clear();

    // Test case 3: 32-bit number
    RDB::length_encode_int(1000000, &mut buffer);
    assert_eq!(buffer, vec![0x80, 0x00, 0x0F, 0x42, 0x40]); // 10000000 + 4 bytes
    buffer.clear();
}

#[test]
fn test_rdb_with_fb_field() {
    let mut store = Store::new();
    store.insert("key1".to_string(), "value1".to_string(), None, NOW);
    store.insert("key2".to_string(), "value2".to_string(), Some(60000), NOW);

    let stores = vec![&store];
    let contents = RDB::create_rdb(Some(&stores), NOW).unwrap();

    // Find the database selector (0xFE) and check if FB field follows
    let mut found_fb = false;
    for i in 0..contents.len() - 2 {
        if contents[i] == 0xFE && contents[i + 1] == 0x00 {
            assert_eq!(contents[i + 2], 0xFB);
            found_fb = true;

            // Verify that two length-encoded integers follow.
            // We expect small numbers, so they should be single bytes.
            assert!(contents[i + 3] < 0x80);
            assert!(contents[i + 4] < 0x80);
            break;
        }
    }
    assert!(found_fb, "FB field not found after database selector");
}

#[test]
fn test_read_rdb() {
    let mut original_store = Store::new();
    original_store.insert("key1".to_string(), "value1".to_string(), None, NOW);

    let expiry = NOW + 60000;
    original_store.insert("key2".to_string(), "value2".to_string(), Some(expiry), NOW);

    let stores = vec![&original_store];
    let contents = RDB::create_rdb(Some(&stores), NOW).unwrap();

    let mut loaded_store = RDB::read_rdb(&contents).unwrap();

    assert_eq!(loaded_store.get("key1", NOW).unwrap(), "value1");
    assert_eq!(loaded_store.get("key2", NOW).unwrap(), "value2");

    assert!(loaded_store.get("key2", NOW).is_some());
}

#[test]
fn test_read_invalid_rdb() {
    let bytes = b"INVALID_RDB_FORMAT".to_vec();

    let result = RDB::read_rdb(&bytes);
    assert!(result.is_err());
    assert_eq!(result.unwrap_err(), RdbError::BadMagic);
}

#[test]
fn test_read_empty_rdb() {
    let contents = RDB::create_rdb(None, NOW).unwrap();

    let mut store = RDB::read_rdb(&contents).unwrap();

    assert!(store.get("non_existent_key", NOW).is_none());
}

#[test]
fn test_read_rdb_with_hex() {
    let hex_str = "52 45 44 49 53 30 30 31 31 fa 09 72 65 64 69 73 2d 76 65 72 05 37 2e 32 2e 30 fa 0a 72 65 64 69 73 2d 62 69 74 73 c0 40 fe 00 fb 05 00 00 09 62 6c 75 65 62 65 72 72 79 05 67 72 61 70 65 00 0a 73 74 72 61 77 62 65 72 72 79 09 72 61 73 70 62 65 72 72 79 00 09 72 61 73 70 62 65 72 72 79 0a 73 74 72 61 77 62 65 72 72 79 00 05 67 72 61 70 65 06 6f 72 61 6e 67 65 00 06 62 61 6e 61 6e 61 05 61 70 70 6c 65 ff e4 a8 64 89 fc a8 37 0e 0a";

    let hex_data: Vec<u8> = hex_str
        .split_whitespace()
        .map(|s| u8::from_str_radix(s, 16).unwrap())
        .collect();

    let mut store = RDB::read_rdb(&hex_data).unwrap();

    let expected_pairs = [
        ("blueberry", "grape"),
        ("strawberry", "raspberry"),
        ("raspberry", "strawberry"),
        ("grape", "orange"),
        ("banana", "apple"),
    ];

    for (key, expected_value) in expected_pairs.iter() {
        let value = store.get(key, NOW).unwrap();
        assert_eq!(&value, expected_value);
    }

    assert_eq!(store.len(), 5);
}
