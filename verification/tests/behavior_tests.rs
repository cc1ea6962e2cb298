use bytes::BytesMut;
use crc::Crc;
use crc::CRC_64_MS;
use redis_starter_rust::args::Args;
use redis_starter_rust::command::process_command;
use redis_starter_rust::config::Config;
use redis_starter_rust::decode::Decoder;
use redis_starter_rust::pattern_parser::HashMapPatternExt;
use redis_starter_rust::pattern_parser::Pattern;
use redis_starter_rust::pattern_parser::WildCardPattern;
use redis_starter_rust::protocol::decoder::RedisCommand;
use redis_starter_rust::protocol::decoder::RedisDecoder;
use redis_starter_rust::rdb::RdbError;
use redis_starter_rust::rdb::RDB;
use redis_starter_rust::server::encode_config_reply;
use redis_starter_rust::server::execute_command;
use redis_starter_rust::server::ServerAction;
use redis_starter_rust::store::Store;
use std::collections::VecDeque;

/// One client request from wire bytes to reply bytes.
fn roundtrip(store: &mut Store, now_ms: u64, request: &[u8]) -> Vec<u8> {
    let decoder = RedisDecoder::new();
    let mut buffer = BytesMut::new();
    buffer.extend_from_slice(request);
    let cmd = decoder.decode(&mut buffer);
    let mut response = BytesMut::new();
    match execute_command(store, cmd, now_ms, &mut response) {
        ServerAction::Replied => (),
        _ => panic!("expected an immediate reply"),
    }
    response.to_vec()
}

#[test]
fn test_scenario_ping() {
    let mut store = Store::new();
    let reply = roundtrip(&mut store, 0, b"*1\r\n$4\r\nPING\r\n");
    assert_eq!(reply, b"+PONG\r\n");
}

#[test]
fn test_scenario_echo() {
    let mut store = Store::new();
    let reply = roundtrip(&mut store, 0, b"*2\r\n$4\r\nECHO\r\n$5\r\nhello\r\n");
    assert_eq!(reply, b"$5\r\nhello\r\n");
}

#[test]
fn test_scenario_set_then_get() {
    let mut store = Store::new();
    let reply = roundtrip(&mut store, 0, b"*3\r\n$3\r\nSET\r\n$3\r\nfoo\r\n$3\r\nbar\r\n");
    assert_eq!(reply, b"+OK\r\n");
    let reply = roundtrip(&mut store, 0, b"*2\r\n$3\r\nGET\r\n$3\r\nfoo\r\n");
    assert_eq!(reply, b"$3\r\nbar\r\n");
}

#[test]
fn test_scenario_px_expiry() {
    let mut store = Store::new();
    let t0: u64 = 1000;
    let reply = roundtrip(
        &mut store,
        t0,
        b"*5\r\n$3\r\nSET\r\n$3\r\nfoo\r\n$3\r\nbar\r\n$2\r\nPX\r\n$3\r\n100\r\n",
    );
    assert_eq!(reply, b"+OK\r\n");
    // 150 ms later the key has expired.
    let reply = roundtrip(&mut store, t0 + 150, b"*2\r\n$3\r\nGET\r\n$3\r\nfoo\r\n");
    assert_eq!(reply, b"$-1\r\n");
}

#[test]
fn test_get_without_expiry_at_any_later_time() {
    let mut store = Store::new();
    store.insert("k".to_string(), "v".to_string(), None, 0);
    assert_eq!(store.get("k", 0).unwrap(), "v");
    assert_eq!(store.get("k", 12345).unwrap(), "v");
    assert_eq!(store.get("k", u64::MAX).unwrap(), "v");
}

#[test]
fn test_expiry_lifecycle() {
    let mut store = Store::new();
    let t0: u64 = 5000;
    store.insert("k".to_string(), "v".to_string(), Some(100), t0);
    // Before the deadline the value is returned.
    assert_eq!(store.get("k", t0 + 99).unwrap(), "v");
    assert_eq!(store.len(), 1);
    // At the deadline the entry is absent and swept.
    assert!(store.get("k", t0 + 100).is_none());
    assert_eq!(store.len(), 0);
    // A repeated lookup stays absent, and iteration shows no trace.
    assert!(store.get("k", t0 + 100).is_none());
    assert!(store.iter_for_rdb().is_empty());
}

#[test]
fn test_length_codec_round_trips_each_width() {
    for value in [0usize, 7, 63, 64, 300, 16383, 16384, 1_000_000, 0xFFFF_FFFF] {
        let mut buffer = Vec::new();
        RDB::length_encode_int(value, &mut buffer);
        let mut pos = 0usize;
        let decoded = RDB::length_decode_int(&mut pos, &buffer).unwrap();
        assert_eq!(decoded, value);
        assert_eq!(pos, buffer.len());
    }
}

#[test]
fn test_length_decode_rejects_special_tag() {
    let buffer = vec![0xC0u8, 0x40u8];
    let mut pos = 0usize;
    assert!(RDB::length_decode_int(&mut pos, &buffer).is_none());
    assert_eq!(pos, 0);
}

#[test]
fn test_checksum_matches_and_detects_corruption() {
    let mut store = Store::new();
    store.insert("key1".to_string(), "value1".to_string(), None, 0);
    let stores = vec![&store];
    let contents = RDB::create_rdb(Some(&stores), 0).unwrap();

    let body_len = contents.len() - 8;
    let crc = Crc::<u64>::new(&CRC_64_MS);
    let checksum = crc.checksum(&contents[..body_len]);
    assert_eq!(&contents[body_len..], checksum.to_be_bytes());

    // Any single body byte changed, the checksum no longer matches.
    for i in 0..body_len {
        let mut corrupted = contents[..body_len].to_vec();
        corrupted[i] ^= 0x01;
        assert_ne!(crc.checksum(&corrupted).to_be_bytes(), contents[body_len..]);
    }
}

#[test]
fn test_snapshot_round_trip_keeps_live_entries() {
    let now: u64 = 50_000;
    let mut store = Store::new();
    store.insert("alive".to_string(), "a".to_string(), None, now);
    store.insert("timed".to_string(), "b".to_string(), Some(now + 777), 0);
    store.insert("gone".to_string(), "c".to_string(), Some(now - 1), 0);

    let stores = vec![&store];
    let contents = RDB::create_rdb(Some(&stores), now).unwrap();
    let mut loaded = RDB::read_rdb(&contents).unwrap();

    assert_eq!(loaded.len(), 2);
    assert_eq!(loaded.get("alive", now).unwrap(), "a");
    // The expiry came back to the millisecond: one ms before it the value
    // is alive, at it the value is gone.
    assert_eq!(loaded.get("timed", now + 776).unwrap(), "b");
    assert!(loaded.get("timed", now + 777).is_none());
    assert!(loaded.get("gone", now).is_none());
}

#[test]
fn test_create_rdb_rejects_long_entry() {
    let mut store = Store::new();
    let long_key: String = std::iter::repeat('x').take(256).collect();
    store.insert(long_key, "v".to_string(), None, 0);
    let stores = vec![&store];
    assert_eq!(RDB::create_rdb(Some(&stores), 0).unwrap_err(), RdbError::EntryTooLong);
}

#[test]
fn test_create_rdb_accepts_255_byte_entry() {
    let mut store = Store::new();
    let key: String = std::iter::repeat('x').take(255).collect();
    store.insert(key.clone(), "v".to_string(), None, 0);
    let stores = vec![&store];
    let contents = RDB::create_rdb(Some(&stores), 0).unwrap();
    let mut loaded = RDB::read_rdb(&contents).unwrap();
    assert_eq!(loaded.get(&key, 0).unwrap(), "v");
}

#[test]
fn test_read_rdb_error_variants() {
    // Truncated: the end marker is missing.
    let contents = RDB::create_rdb(None, 0).unwrap();
    let truncated = contents[..contents.len() - 9].to_vec();
    assert_eq!(RDB::read_rdb(&truncated).unwrap_err(), RdbError::Truncated);

    // Unknown tag right after the magic.
    let mut unknown = b"REDIS0011".to_vec();
    unknown.push(0x42);
    unknown.push(0xFF);
    assert_eq!(RDB::read_rdb(&unknown).unwrap_err(), RdbError::UnknownTag);

    // An expiry followed by a value type other than the string type.
    let mut bad_type = b"REDIS0011".to_vec();
    bad_type.push(0xFC);
    bad_type.extend_from_slice(&1234u64.to_le_bytes());
    bad_type.push(0x07);
    bad_type.push(0xFF);
    assert_eq!(RDB::read_rdb(&bad_type).unwrap_err(), RdbError::UnsupportedValueType);

    // A record cut off inside its key.
    let mut cut = b"REDIS0011".to_vec();
    cut.push(0x00);
    cut.push(5);
    cut.push(b'a');
    assert_eq!(RDB::read_rdb(&cut).unwrap_err(), RdbError::Truncated);
}

#[test]
fn test_save_command_needs_snapshot() {
    let decoder = RedisDecoder::new();
    let mut buffer = BytesMut::new();
    buffer.extend_from_slice(b"*1\r\n$4\r\nSAVE\r\n");
    let cmd = decoder.decode(&mut buffer);
    let mut store = Store::new();
    let mut response = BytesMut::new();
    match execute_command(&mut store, cmd, 0, &mut response) {
        ServerAction::NeedSave => (),
        _ => panic!("expected SAVE to ask for a snapshot"),
    }
    assert_eq!(response.len(), 0);
}

#[test]
fn test_config_get_replies() {
    let decoder = RedisDecoder::new();
    let mut buffer = BytesMut::new();
    buffer.extend_from_slice(b"*3\r\n$6\r\nCONFIG\r\n$3\r\nGET\r\n$3\r\nDir\r\n");
    let cmd = decoder.decode(&mut buffer);
    let mut store = Store::new();
    let mut response = BytesMut::new();
    let param = match execute_command(&mut store, cmd, 0, &mut response) {
        ServerAction::NeedConfig(p) => p,
        _ => panic!("expected CONFIG GET to ask for the configuration"),
    };
    assert_eq!(param, "Dir");

    encode_config_reply(&mut response, &param, Some("/data".to_string()), None);
    assert_eq!(&response[..], b"*2\r\n$3\r\ndir\r\n$5\r\n/data\r\n");

    // An unset setting and an unknown parameter both reply the null bulk
    // string.
    let mut response = BytesMut::new();
    encode_config_reply(&mut response, "dbfilename", Some("/data".to_string()), None);
    assert_eq!(&response[..], b"$-1\r\n");
    let mut response = BytesMut::new();
    encode_config_reply(&mut response, "maxclients", Some("/data".to_string()), None);
    assert_eq!(&response[..], b"$-1\r\n");
}

#[test]
fn test_config_new_prefers_arguments_and_persists() {
    let args = Args { dir: Some("/data".to_string()), dbfilename: Some("dump.rdb".to_string()) };
    let (config, persist) = Config::new(args, "dir /old\n");
    assert_eq!(config.dir.as_deref(), Some("/data"));
    assert_eq!(config.dbfilename.as_deref(), Some("dump.rdb"));
    assert_eq!(persist.as_deref(), Some("dir /data\ndbfilename dump.rdb\n"));
}

#[test]
fn test_config_new_falls_back_to_saved_text() {
    let args = Args { dir: None, dbfilename: None };
    let (config, persist) = Config::new(args, "dir /tmp\ndbfilename dump.rdb\n");
    assert_eq!(config.dir.as_deref(), Some("/tmp"));
    assert_eq!(config.dbfilename.as_deref(), Some("dump.rdb"));
    assert!(persist.is_none());
}

#[test]
fn test_config_text_parsing_details() {
    // Later lines override earlier ones; unknown lines are ignored; extra
    // whitespace is tolerated; a keyword without a value unsets it.
    let config = Config::from_text("port 6379\ndir /a\n  dir\t/b \nignored\n");
    assert_eq!(config.dir.as_deref(), Some("/b"));
    assert!(config.dbfilename.is_none());

    let config = Config::from_text("dir /a\ndir\n");
    assert!(config.dir.is_none());

    let config = Config::from_text("");
    assert!(config.dir.is_none());
    assert!(config.dbfilename.is_none());
}

#[test]
fn test_config_text_round_trip() {
    let config = Config { dir: Some("/data".to_string()), dbfilename: Some("x.rdb".to_string()) };
    let text = config.to_text();
    assert_eq!(text, "dir /data\ndbfilename x.rdb\n");
    let parsed = Config::from_text(&text);
    assert_eq!(parsed.dir.as_deref(), Some("/data"));
    assert_eq!(parsed.dbfilename.as_deref(), Some("x.rdb"));
}

#[test]
fn test_aux_decoder_extracts_length_prefixed_segments() {
    let mut decoder = Decoder::new(b"*1\r\n$4\r\nPING\r\n".to_vec());
    let parsed = decoder.parse();
    assert_eq!(parsed, VecDeque::from(vec!["PING".to_string()]));

    let mut decoder = Decoder::new(b"*3\r\n$3\r\nSET\r\n$3\r\nkey\r\n$5\r\nvalue\r\n".to_vec());
    let parsed = decoder.parse();
    assert_eq!(
        parsed,
        VecDeque::from(vec!["SET".to_string(), "key".to_string(), "value".to_string()])
    );
}

#[test]
fn test_process_command_dispatch() {
    let mut store = Store::new();
    let mut list = VecDeque::from(vec!["ECHO".to_string(), "hello".to_string()]);
    let reply = process_command(&mut list, &mut store, 0).unwrap();
    assert_eq!(reply, b"$5\r\nhello\r\n");

    let mut list = VecDeque::from(vec!["SET".to_string(), "k".to_string(), "v".to_string()]);
    let reply = process_command(&mut list, &mut store, 0).unwrap();
    assert_eq!(reply, b"$2\r\nOK\r\n");

    let mut list = VecDeque::from(vec!["GET".to_string(), "k".to_string()]);
    let reply = process_command(&mut list, &mut store, 0).unwrap();
    assert_eq!(reply, b"$1\r\nv\r\n");

    let mut list = VecDeque::from(vec!["GET".to_string(), "absent".to_string()]);
    let reply = process_command(&mut list, &mut store, 0).unwrap();
    assert_eq!(reply, b"$-1\r\n");

    let mut list = VecDeque::from(vec!["WHATEVER".to_string()]);
    let reply = process_command(&mut list, &mut store, 0).unwrap();
    assert_eq!(reply, b"+PONG\r\n");

    let mut list: VecDeque<String> = VecDeque::new();
    assert!(process_command(&mut list, &mut store, 0).is_err());
}

#[test]
fn test_wildcard_pattern_and_keyspace_lookup() {
    let pattern = WildCardPattern("*".to_string());
    assert!(pattern.matches("anything"));

    let mut store = Store::new();
    assert!(!store.contains_key_pattern(WildCardPattern("*".to_string())));
    store.insert("k".to_string(), "v".to_string(), None, 0);
    assert!(store.contains_key_pattern(WildCardPattern("*".to_string())));
}

#[test]
fn test_echo_decodes_invalid_text_permissively() {
    let decoder = RedisDecoder::new();
    let mut buffer = BytesMut::new();
    buffer.extend_from_slice(b"*2\r\n$4\r\nECHO\r\n$2\r\n\xFF\xFE\r\n");
    match decoder.decode(&mut buffer) {
        Some(RedisCommand::Echo(message)) => {
            assert_eq!(message, "\u{FFFD}\u{FFFD}");
        }
        _ => panic!("Expected ECHO command"),
    }
}

#[test]
fn test_set_overwrites_existing_key() {
    let mut store = Store::new();
    store.insert("k".to_string(), "first".to_string(), None, 0);
    store.insert("k".to_string(), "second".to_string(), None, 0);
    assert_eq!(store.len(), 1);
    assert_eq!(store.get("k", 0).unwrap(), "second");
}

#[test]
fn test_expire_len_counts_entries_with_expiry() {
    let mut store = Store::new();
    store.insert("a".to_string(), "1".to_string(), None, 0);
    store.insert("b".to_string(), "2".to_string(), Some(100), 0);
    store.insert("c".to_string(), "3".to_string(), Some(200), 0);
    assert_eq!(store.len(), 3);
    assert_eq!(store.expire_len(), 2);
}
