use tradingbutler::broker::Broker;
use tradingbutler::broker_keys::{broker_id_from_key, broker_key, broker_key_pattern, live_key, snapshot_key};
use tradingbutler::broker_set::BrokerSet;
use tradingbutler::collector::publication;
use tradingbutler::cli::{Cli, Command};
use tradingbutler::ip::IpAddress;
use tradingbutler::streamer::{
    analytics_connections_key, broker_ids, connection_info, reader_of, scan, seconds_or_zero,
    stays_connected, string_field, tick_of_entry, tick_text, unix_timestamp, ClientEvent,
};
use tradingbutler::streams::{ReaderAction, StreamEntry};
use tradingbutler::string_map::StringMap;

fn keys(list: &[&str]) -> Vec<String> {
    list.iter().map(|s| s.to_string()).collect()
}

fn bulk(text: &str) -> redis::Value {
    redis::Value::BulkString(text.as_bytes().to_vec())
}

#[test]
fn extracts_bare_broker_id() {
    assert_eq!(broker_id_from_key("brokers:b1"), Some("b1".to_string()));
}

#[test]
fn rejects_derived_live_and_snapshot_keys() {
    assert_eq!(broker_id_from_key("brokers:b1:live"), None);
    assert_eq!(broker_id_from_key("brokers:b1:snapshot"), None);
}

#[test]
fn string_field_extracts_and_defaults_to_empty() {
    let mut map = StringMap::new();
    map.insert(
        "key".to_string(),
        redis::Value::BulkString(b"EURUSD".to_vec()),
    );
    assert_eq!(string_field(&map, "key"), "EURUSD");
    assert_eq!(string_field(&map, "missing"), "");
}

#[test]
fn fields_that_are_no_text_are_empty() {
    let mut map = StringMap::new();
    map.insert("nil".to_string(), redis::Value::Nil);
    map.insert("bytes".to_string(), redis::Value::BulkString(vec![0xff, 0xfe]));
    map.insert("number".to_string(), redis::Value::Int(42));
    assert_eq!(string_field(&map, "nil"), "");
    assert_eq!(string_field(&map, "bytes"), "");
    assert_eq!(string_field(&map, "number"), "42");
}

#[test]
fn keys_and_ids_belong_together() {
    assert_eq!(broker_key("b1"), "brokers:b1");
    assert_eq!(broker_key_pattern(), "brokers:*");
    assert_eq!(broker_id_from_key(&broker_key("b1")), Some("b1".to_string()));
    assert_eq!(broker_id_from_key(&live_key("b1")), None);
    assert_eq!(broker_id_from_key(&snapshot_key("b1")), None);
    assert_eq!(broker_id_from_key("broker:b1"), None);
}

#[test]
fn ticks_are_json_objects() {
    let data = serde_json::from_str("{\"bid\": 1.25}").ok();
    assert_eq!(
        tick_text("b1", "EURUSD".to_string(), data),
        "{\"broker\":\"b1\",\"data\":{\"bid\":1.25},\"symbol\":\"EURUSD\",\"type\":\"tick\"}"
    );
    assert_eq!(
        tick_text("b\"1", String::new(), None),
        "{\"broker\":\"b\\\"1\",\"data\":null,\"symbol\":\"\",\"type\":\"tick\"}"
    );
}

#[test]
fn an_entry_becomes_a_tick() {
    let mut map = StringMap::new();
    map.insert("key".to_string(), bulk("GOLD"));
    map.insert("data".to_string(), bulk("[1, 2]"));
    let mut entry = StreamEntry { id: "1-0".to_string(), map };
    assert_eq!(
        tick_of_entry("b1", &entry),
        "{\"broker\":\"b1\",\"data\":[1,2],\"symbol\":\"GOLD\",\"type\":\"tick\"}"
    );
    entry.map.insert("data".to_string(), bulk("[1, 2"));
    assert_eq!(
        tick_of_entry("b1", &entry),
        "{\"broker\":\"b1\",\"data\":null,\"symbol\":\"GOLD\",\"type\":\"tick\"}"
    );
    entry.map = StringMap::new();
    assert_eq!(
        tick_of_entry("b1", &entry),
        "{\"broker\":\"b1\",\"data\":null,\"symbol\":\"\",\"type\":\"tick\"}"
    );
}

#[test]
fn a_published_message_becomes_a_tick() {
    let broker = Broker {
        id: "b1".to_string(),
        symbol_map: StringMap::from_pairs(vec![("OR".to_string(), "XAUUSD".to_string())]),
        ..Broker::default()
    };
    let published = publication("c1", &broker, "OR", "{\"bid\":1}".to_string());
    let map = published.entry.iter().map(|(name, value)| (name.clone(), bulk(value))).collect();
    let entry = StreamEntry { id: "1-0".to_string(), map: StringMap::from_pairs(map) };
    assert_eq!(
        tick_of_entry(&broker.id, &entry),
        "{\"broker\":\"b1\",\"data\":{\"bid\":1},\"symbol\":\"XAUUSD\",\"type\":\"tick\"}"
    );
}

#[test]
fn scans_start_new_brokers_and_stop_those_that_are_gone() {
    let mut followed = BrokerSet::new();
    let found = keys(&["brokers:b2", "brokers:b1", "brokers:b1:live", "brokers:b2", "other"]);
    assert_eq!(broker_ids(&found), keys(&["b2", "b1", "b2"]));
    let (removed, started) = scan(&mut followed, &found);
    assert!(removed.is_empty());
    assert_eq!(started, keys(&["b2", "b1"]));

    let (removed, started) = scan(&mut followed, &found);
    assert!(removed.is_empty());
    assert!(started.is_empty());

    let (removed, started) = scan(&mut followed, &keys(&["brokers:b3", "brokers:b1"]));
    assert_eq!(removed, keys(&["b2"]));
    assert_eq!(started, keys(&["b3"]));
    assert!(followed.contains("b1"));
    assert!(followed.contains("b3"));
    assert!(!followed.contains("b2"));

    let (mut removed, started) = scan(&mut followed, &vec![]);
    removed.sort();
    assert_eq!(removed, keys(&["b1", "b3"]));
    assert!(started.is_empty());
}

#[test]
fn sets_of_brokers_hold_each_once() {
    let mut set = BrokerSet::of(&keys(&["a", "b", "a"]));
    assert!(!set.insert("a".to_string()));
    set.remove("a");
    assert!(set.insert("a".to_string()));
    let mut left = set.retain(&BrokerSet::of(&keys(&["b", "c"])));
    left.sort();
    assert_eq!(left, keys(&["a"]));
    assert!(set.contains("b"));
    assert!(!set.contains("c"));
}

#[test]
fn every_instance_reads_from_when_it_starts() {
    let mut reader = reader_of("b1");
    reader.on_connected();
    match reader.next() {
        ReaderAction::Read(request) => {
            assert_eq!(request.stream_key, "brokers:b1:live");
            assert_eq!(request.id, "$");
        }
        other => panic!("unexpected {:?}", other),
    }
}

#[test]
fn clients_are_disconnected_when_they_lag_or_leave() {
    assert!(stays_connected(ClientEvent::Sent));
    assert!(stays_connected(ClientEvent::Unexpected));
    assert!(!stays_connected(ClientEvent::SendFailed));
    assert!(!stays_connected(ClientEvent::Lagged));
    assert!(!stays_connected(ClientEvent::NoMoreMessages));
    assert!(!stays_connected(ClientEvent::Closed));
}

#[test]
fn connections_are_recorded_with_their_address() {
    let info = connection_info("c1", IpAddress::V4(0x01020304), 12);
    assert_eq!(info.id, "c1");
    assert_eq!(info.ip, "1.2.3.4");
    assert_eq!(info.connected_at, 12);
    assert_eq!(connection_info("c1", IpAddress::V6(1), 0).ip, "::1");
    assert_eq!(analytics_connections_key("i1"), "analytics:rate-streamer:i1:connections");
}

#[test]
fn the_clock_is_read_in_seconds() {
    assert_eq!(seconds_or_zero(None), 0);
    assert_eq!(seconds_or_zero(Some(7)), 7);
    let now = unix_timestamp();
    let then = std::time::SystemTime::now().duration_since(std::time::UNIX_EPOCH).unwrap().as_secs();
    assert!(now <= then && then <= now + 60);
}

#[test]
fn commands_are_told_apart() {
    let cli = Cli { command: Command::Version };
    assert_eq!(cli.command, Command::Version);
    assert_ne!(cli.command, Command::Start);
    assert_ne!(cli.command, Command::Healthcheck);
}

#[test]
fn maps_keep_the_last_value_of_a_key() {
    let mut map: StringMap<u8> = StringMap::from_pairs(vec![("a".to_string(), 1), ("b".to_string(), 2), ("a".to_string(), 3)]);
    assert_eq!(map.get("a"), Some(&3));
    assert_eq!(map.entries().len(), 2);
    assert_eq!(map.remove("a"), Some(3));
    assert_eq!(map.remove("a"), None);
    assert!(!map.is_empty());
    map.insert("b".to_string(), 4);
    assert_eq!(map.into_entries(), vec![("b".to_string(), 4)]);
}
