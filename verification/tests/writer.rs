use tradingbutler::consumer_groups::GroupReader;
use tradingbutler::discovery::{
    broker_ids, broker_key_pattern, public_fields, reader_of, snapshot_update, Discovery,
    DiscoveryAction, WriteTimer,
};
use tradingbutler::rates::{merge_snapshot, record_value, RatesState, SnapshotEvent};
use tradingbutler::streams::ReaderAction;
use tradingbutler::string_map::StringMap;

fn hash(fields: &[(&str, &str)]) -> StringMap<String> {
    StringMap::from_pairs(fields.iter().map(|f| (f.0.to_string(), f.1.to_string())).collect())
}

fn update(id: &str, fields: &[(&str, &str)]) -> SnapshotEvent {
    SnapshotEvent::Update(id.to_string(), hash(fields))
}

fn value(rates: &RatesState, broker: &str, symbol: &str) -> Option<String> {
    let pair = rates.entries().iter().find(|pair| pair.0 == broker)?;
    pair.1.get(symbol).map(|v| v.to_string())
}

fn keys(list: &[&str]) -> Vec<String> {
    list.iter().map(|s| s.to_string()).collect()
}

#[test]
fn snapshots_are_merged_into_the_rates() {
    let mut rates = RatesState::new();
    assert!(!rates.is_worth_writing());
    assert!(rates.on_message(Some(update("b1", &[("A", "1"), ("B", "{\"x\":2}"), ("C", "nonsense")]))));
    assert!(rates.is_worth_writing());
    assert_eq!(value(&rates, "b1", "A").as_deref(), Some("1"));
    assert_eq!(value(&rates, "b1", "B").as_deref(), Some("{\"x\":2}"));
    assert_eq!(value(&rates, "b1", "C"), None);
    // What is no JSON, or is not there, keeps its value.
    assert!(rates.on_message(Some(update("b1", &[("A", "{"), ("C", "3")]))));
    assert_eq!(value(&rates, "b1", "A").as_deref(), Some("1"));
    assert_eq!(value(&rates, "b1", "B").as_deref(), Some("{\"x\":2}"));
    assert_eq!(value(&rates, "b1", "C").as_deref(), Some("3"));
}

#[test]
fn an_empty_snapshot_makes_a_broker_known() {
    let mut rates = RatesState::new();
    rates.apply(update("b1", &[]));
    assert!(rates.is_worth_writing());
    assert_eq!(rates.entries().len(), 1);
}

#[test]
fn deleted_brokers_are_dropped_from_the_rates() {
    let mut rates = RatesState::new();
    rates.apply(update("b1", &[("A", "1")]));
    rates.apply(update("b2", &[("A", "2")]));
    rates.apply(SnapshotEvent::Removed("b1".to_string()));
    rates.apply(SnapshotEvent::Removed("b3".to_string()));
    assert_eq!(value(&rates, "b1", "A"), None);
    assert_eq!(value(&rates, "b2", "A").as_deref(), Some("2"));
    rates.apply(update("b1", &[("B", "3")]));
    assert_eq!(value(&rates, "b1", "A"), None);
    assert_eq!(value(&rates, "b1", "B").as_deref(), Some("3"));
}

#[test]
fn the_last_broker_leaves_the_file_when_it_is_deleted() {
    let mut rates = RatesState::new();
    rates.apply(update("b1", &[("A", "1")]));
    rates.on_written();
    assert!(rates.is_worth_writing());
    rates.apply(SnapshotEvent::Removed("b1".to_string()));
    assert!(rates.is_worth_writing());
    assert!(rates.entries().is_empty());
    rates.on_written();
    assert!(!rates.is_worth_writing());
}

#[test]
fn a_broker_that_no_file_shows_needs_no_write_when_it_is_deleted() {
    let mut rates = RatesState::new();
    rates.apply(update("b1", &[("A", "1")]));
    rates.apply(SnapshotEvent::Removed("b1".to_string()));
    assert!(!rates.is_worth_writing());
}

#[test]
fn the_rates_end_with_their_events() {
    let mut rates = RatesState::new();
    assert!(!rates.on_message(None));
}

#[test]
fn merging_a_snapshot_again_changes_nothing() {
    let mut values = StringMap::new();
    merge_snapshot(&mut values, hash(&[("A", "1"), ("B", "x")]));
    merge_snapshot(&mut values, hash(&[("A", "1"), ("B", "x")]));
    assert_eq!(values.entries().len(), 1);
    record_value(&mut values, "A".to_string(), None);
    assert_eq!(values.get("A").map(|v| v.to_string()).as_deref(), Some("1"));
    record_value(&mut values, "A".to_string(), Some(serde_json::Value::Null));
    assert_eq!(values.get("A").map(|v| v.to_string()).as_deref(), Some("null"));
}

#[test]
fn secrets_are_left_out() {
    let fields = public_fields(hash(&[("id", "b1"), ("api_key", "k"), ("allowed_ips", "::1"), ("logo", "l")]));
    assert_eq!(fields.entries().len(), 2);
    assert_eq!(fields.text("id"), "b1");
    assert_eq!(fields.text("logo"), "l");
    assert_eq!(fields.text("api_key"), "");
}

#[test]
fn ids_follow_the_prefix() {
    assert_eq!(broker_key_pattern(), "broker:*");
    let ids = broker_ids(&keys(&["broker:a", "brokers:b", "broker:", "x"]));
    assert!(ids.contains("a"));
    assert!(ids.contains(""));
    assert!(!ids.contains("b"));
    assert!(!ids.contains("x"));
}

#[test]
fn a_scan_joins_seeds_and_starts_new_brokers() {
    let mut discovery = Discovery::new();
    assert!(matches!(discovery.next(), DiscoveryAction::Finish));
    discovery.on_keys(keys(&["x", "broker:b1", "broker:b2"]));
    match discovery.next() {
        DiscoveryAction::ReadBroker(id, key) => {
            assert_eq!(id, "b1");
            assert_eq!(key, "broker:b1");
        }
        other => panic!("unexpected {:?}", other),
    }
    discovery.on_broker(Some(hash(&[("name", "First"), ("api_key", "k"), ("allowed_ips", "")])));
    match discovery.next() {
        DiscoveryAction::Join(id, key) => {
            assert_eq!(id, "b1");
            assert_eq!(key, "b1:live");
        }
        other => panic!("unexpected {:?}", other),
    }
    discovery.on_joined(true);
    match discovery.next() {
        DiscoveryAction::ReadSnapshot(id, key) => {
            assert_eq!(id, "b1");
            assert_eq!(key, "b1:snapshot");
        }
        other => panic!("unexpected {:?}", other),
    }
    match discovery.on_snapshot(Some(hash(&[("A", "1")]))) {
        Some(SnapshotEvent::Update(id, snapshot)) => {
            assert_eq!(id, "b1");
            assert_eq!(snapshot.text("A"), "1");
        }
        other => panic!("unexpected {:?}", other),
    }
    assert!(matches!(discovery.next(), DiscoveryAction::StartReader(id) if id == "b1"));

    assert!(matches!(discovery.next(), DiscoveryAction::ReadBroker(id, _) if id == "b2"));
    discovery.on_broker(None);
    assert!(matches!(discovery.next(), DiscoveryAction::Join(id, _) if id == "b2"));
    discovery.on_joined(false);
    assert!(matches!(discovery.next(), DiscoveryAction::Finish));

    assert_eq!(discovery.brokers().len(), 1);
    assert_eq!(discovery.brokers()[0].0, "b1");
    assert_eq!(discovery.brokers()[0].1.entries().len(), 1);
    assert_eq!(discovery.brokers()[0].1.text("name"), "First");

    // The next scan tries the second broker again and leaves the first one alone.
    discovery.on_keys(keys(&["broker:b1", "broker:b2"]));
    assert!(matches!(discovery.next(), DiscoveryAction::ReadBroker(id, _) if id == "b1"));
    discovery.on_broker(Some(hash(&[("name", "First")])));
    assert!(matches!(discovery.next(), DiscoveryAction::ReadBroker(id, _) if id == "b2"));
    discovery.on_broker(Some(hash(&[("name", "Second")])));
    assert!(matches!(discovery.next(), DiscoveryAction::Join(id, _) if id == "b2"));
    discovery.on_joined(true);
    assert!(matches!(discovery.next(), DiscoveryAction::ReadSnapshot(id, _) if id == "b2"));
    assert!(discovery.on_snapshot(Some(StringMap::new())).is_none());
    assert!(matches!(discovery.next(), DiscoveryAction::StartReader(id) if id == "b2"));
    assert!(matches!(discovery.next(), DiscoveryAction::Finish));
    assert_eq!(discovery.brokers().len(), 2);
}

#[test]
fn a_scan_stops_brokers_that_are_gone() {
    let mut discovery = Discovery::new();
    discovery.on_keys(keys(&["broker:b1"]));
    discovery.next();
    discovery.on_broker(None);
    discovery.next();
    discovery.on_joined(true);
    discovery.next();
    assert!(discovery.on_snapshot(None).is_none());
    assert!(matches!(discovery.next(), DiscoveryAction::StartReader(_)));
    discovery.on_keys(keys(&["broker:b2"]));
    assert!(matches!(discovery.next(), DiscoveryAction::Stop(id) if id == "b1"));
    assert!(matches!(discovery.next(), DiscoveryAction::ReadBroker(id, _) if id == "b2"));
    discovery.on_keys(vec![]);
    assert!(matches!(discovery.next(), DiscoveryAction::Finish));
}

#[test]
fn reports_that_nobody_waits_for_change_nothing() {
    let mut discovery = Discovery::new();
    discovery.on_broker(Some(hash(&[("name", "x")])));
    discovery.on_joined(true);
    assert!(discovery.on_snapshot(Some(hash(&[("A", "1")]))).is_none());
    assert!(discovery.brokers().is_empty());
    assert!(matches!(discovery.next(), DiscoveryAction::Finish));
}

#[test]
fn a_broker_is_read_by_its_own_consumer() {
    let mut reader: GroupReader = reader_of("b1");
    reader.on_connected();
    match reader.next() {
        ReaderAction::Read(request) => {
            assert_eq!(request.stream_key, "b1:live");
            assert_eq!(request.consumer, Some(("json-writer".to_string(), "json-writer-b1".to_string())));
        }
        other => panic!("unexpected {:?}", other),
    }
}

#[test]
fn a_snapshot_that_was_read_is_an_update_even_if_it_is_empty() {
    assert!(matches!(
        snapshot_update("b1", Some(StringMap::new())),
        Some(SnapshotEvent::Update(id, _)) if id == "b1"
    ));
    assert!(snapshot_update("b1", None).is_none());
}

#[test]
fn brokers_are_written_at_once_and_then_once_a_minute() {
    let mut timer = WriteTimer::new(5);
    assert!(timer.is_due(5));
    timer.on_write(7);
    assert!(!timer.is_due(60006));
    assert!(timer.is_due(60007));
    timer.on_write(u64::MAX);
    assert!(!timer.is_due(u64::MAX - 1));
}
