use tradingbutler::consumer_groups::{create_group_args, group_created, GroupReader};
use tradingbutler::streams::{ReadRequest, ReaderAction, StreamEntry, StreamPosition, StreamReader};
use tradingbutler::string_map::StringMap;

fn entry(id: &str) -> StreamEntry {
    StreamEntry { id: id.to_string(), map: StringMap::new() }
}

fn request(action: ReaderAction) -> ReadRequest {
    match action {
        ReaderAction::Read(request) => request,
        other => panic!("unexpected {:?}", other),
    }
}

fn delivered(action: ReaderAction) -> String {
    match action {
        ReaderAction::Deliver(entry) => entry.id,
        other => panic!("unexpected {:?}", other),
    }
}

#[test]
fn positions_are_written_as_ids() {
    assert_eq!(StreamPosition::Beginning.into_id(), "0");
    assert_eq!(StreamPosition::NewOnly.into_id(), "$");
    assert_eq!(StreamPosition::After("5-1".to_string()).into_id(), "5-1");
}

#[test]
fn a_reader_hands_on_entries_and_reads_behind_the_last() {
    let mut reader = StreamReader::new("s".to_string(), StreamPosition::After("3-0".to_string()));
    assert!(matches!(reader.next(), ReaderAction::Connect));
    reader.on_connected();
    let first = request(reader.next());
    assert_eq!(first.stream_key, "s");
    assert_eq!(first.id, "3-0");
    assert_eq!(first.consumer, None);
    assert_eq!(first.block, Some(5000));
    assert_eq!(first.count, 100);
    reader.on_reply(Some(vec![entry("4-0"), entry("5-0")]));
    assert_eq!(delivered(reader.next()), "4-0");
    assert_eq!(delivered(reader.next()), "5-0");
    assert_eq!(request(reader.next()).id, "5-0");
    reader.on_reply(Some(vec![]));
    assert_eq!(request(reader.next()).id, "5-0");
}

#[test]
fn a_failed_read_ends_a_reader_until_it_is_restarted() {
    let mut reader = StreamReader::new("s".to_string(), StreamPosition::NewOnly);
    reader.on_connected();
    reader.on_reply(Some(vec![entry("4-0")]));
    assert_eq!(delivered(reader.next()), "4-0");
    reader.on_reply(None);
    assert!(matches!(reader.next(), ReaderAction::End));
    assert!(matches!(reader.next(), ReaderAction::End));
    reader.restart();
    assert!(matches!(reader.next(), ReaderAction::Connect));
    reader.on_connected();
    assert_eq!(request(reader.next()).id, "4-0");
}

#[test]
fn a_consumer_takes_what_it_did_not_acknowledge_first() {
    let mut reader = GroupReader::new("s".to_string(), "g".to_string(), "c".to_string());
    assert!(matches!(reader.next(), ReaderAction::Connect));
    reader.on_connected();
    let again = request(reader.next());
    assert_eq!(again.id, "0");
    assert_eq!(again.consumer, Some(("g".to_string(), "c".to_string())));
    assert_eq!(again.block, None);
    assert_eq!(again.count, 100);
    reader.on_reply(Some(vec![entry("1-0"), entry("2-0")]));
    assert_eq!(delivered(reader.next()), "1-0");
    assert_eq!(delivered(reader.next()), "2-0");
    assert_eq!(request(reader.next()).id, "2-0");
    reader.on_reply(Some(vec![]));
    let new = request(reader.next());
    assert_eq!(new.id, ">");
    assert_eq!(new.block, Some(5000));
    reader.on_reply(Some(vec![entry("3-0")]));
    assert_eq!(delivered(reader.next()), "3-0");
    assert_eq!(request(reader.next()).id, ">");
    reader.on_reply(Some(vec![]));
    assert_eq!(request(reader.next()).id, ">");
    reader.on_reply(None);
    assert!(matches!(reader.next(), ReaderAction::Connect));
    reader.on_connected();
    assert_eq!(request(reader.next()).id, "0");
    // A failure here goes on to new entries.
    reader.on_reply(None);
    assert_eq!(request(reader.next()).id, ">");
}

#[test]
fn groups_are_created_with_their_stream() {
    let args = create_group_args("s", "g", StreamPosition::NewOnly);
    assert_eq!(args, vec!["CREATE", "s", "g", "$", "MKSTREAM"]);
    assert_eq!(create_group_args("s", "g", StreamPosition::Beginning)[3], "0");
}

#[test]
fn a_group_that_is_already_there_is_no_failure() {
    assert_eq!(group_created::<u8>(Ok(()), None), Ok(()));
    assert_eq!(group_created(Err(7), Some("BUSYGROUP")), Ok(()));
    assert_eq!(group_created(Err(7), Some("WRONGTYPE")), Err(7));
    assert_eq!(group_created(Err(7), None), Err(7));
}
