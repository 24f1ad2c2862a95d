//! The rate streamer: every live message of every broker goes to every connected client.
use crate::broker::Broker;
use crate::broker_keys;
use crate::broker_set::BrokerSet;
use crate::collector;
use crate::ip;
use crate::ip::IpAddress;
use crate::json;
use crate::sequence;
use crate::streams::{StreamEntry, StreamPosition, StreamReader, StreamReaderView};
use crate::string_map::StringMap;
use crate::text;
use vstd::prelude::*;
use vstd::string::*;

verus! {

/// A client that falls behind by this many messages is disconnected.
pub const BROADCAST_CAPACITY: usize = 1024;

/// How many seconds pass between two scans for brokers.
pub const DISCOVERY_SECONDS: u64 = 30;

/// How many seconds pass before a scan that failed is tried again.
pub const SCAN_RETRY_SECONDS: u64 = 5;

/// The text that a value of a stream entry holds, where it is one.
pub uninterp spec fn redis_text(value: redis::Value) -> Option<Seq<char>>;

/// Reads a value as a `String` with `redis::from_redis_value`, from a copy of the value. The
/// result depends on the value alone; which values are texts is not written out here.
#[verifier::external_body]
fn value_text(value: &redis::Value) -> (r: Option<String>)
    ensures
        match r {
            Some(s) => redis_text(*value) == Some(s@),
            None => redis_text(*value) is None,
        },
{
    redis::from_redis_value(value.clone()).ok()
}

/// The text of a field of a stream entry; empty where there is no such field or it is no text.
pub open spec fn field_text(map: Map<Seq<char>, redis::Value>, key: Seq<char>) -> Seq<char> {
    if map.contains_key(key) {
        text_or_empty(redis_text(map[key]))
    } else {
        Seq::empty()
    }
}

/// A text, or the empty one where there is none.
pub open spec fn text_or_empty(text: Option<Seq<char>>) -> Seq<char> {
    match text {
        Some(s) => s,
        None => Seq::empty(),
    }
}

/// The text of a field of a stream entry; empty where there is no such field or it is no text.
pub fn string_field(map: &StringMap<redis::Value>, key: &str) -> (r: String)
    ensures
        r@ == field_text(map@, key@),
{
    match map.get(key) {
        Some(value) => match value_text(value) {
            Some(s) => s,
            None => String::new(),
        },
        None => String::new(),
    }
}

/// The value, or the JSON `null` in place of none.
pub open spec fn value_or_null(value: Option<serde_json::Value>) -> serde_json::Value {
    match value {
        Some(v) => v,
        None => json::json_value("null"@)->0,
    }
}

/// The fields of what clients are sent of a message of `broker` for `symbol`, whose data reads as
/// `data`.
pub open spec fn tick_fields(
    broker: Seq<char>,
    symbol: Seq<char>,
    data: Option<serde_json::Value>,
) -> Seq<(Seq<char>, serde_json::Value)> {
    seq![
        ("type"@, json::json_string("tick"@)),
        ("broker"@, json::json_string(broker)),
        ("symbol"@, json::json_string(symbol)),
        ("data"@, value_or_null(data)),
    ]
}

/// What clients are sent of a message of `broker` for `symbol`, whose data reads as `data`.
pub open spec fn tick_value(
    broker: Seq<char>,
    symbol: Seq<char>,
    data: Option<serde_json::Value>,
) -> serde_json::Value {
    json::json_object(tick_fields(broker, symbol, data))
}

/// What clients are sent of an entry of the stream of `broker` with the fields `map`.
pub open spec fn entry_tick(broker: Seq<char>, map: Map<Seq<char>, redis::Value>) -> serde_json::Value {
    tick_value(broker, field_text(map, "key"@), json::json_value(field_text(map, "data"@)))
}

/// The text that clients are sent of a message of `broker` for `symbol`, whose data reads as
/// `data`, or cannot be read.
pub fn tick_text(broker: &str, symbol: String, data: Option<serde_json::Value>) -> (r: String)
    ensures
        r@ == json::json_text(tick_value(broker@, symbol@, data)),
        data matches Some(value) ==> r@ == json::json_text(
            json::json_object(
                seq![
                    ("type"@, json::json_string("tick"@)),
                    ("broker"@, json::json_string(broker@)),
                    ("symbol"@, json::json_string(symbol@)),
                    ("data"@, value),
                ],
            ),
        ),
{
    let fields = vec![
        ("type".to_owned(), json::string_value("tick".to_owned())),
        ("broker".to_owned(), json::string_value(broker.to_owned())),
        ("symbol".to_owned(), json::string_value(symbol)),
        ("data".to_owned(), json::value_or_null(data)),
    ];
    assert(json::field_views(fields@) =~= seq![
        ("type"@, json::json_string("tick"@)),
        ("broker"@, json::json_string(broker@)),
        ("symbol"@, json::json_string(symbol@)),
        ("data"@, value_or_null(data)),
    ]);
    json::write_json(&json::object_value(fields))
}

/// The text that clients are sent of an entry of a broker's stream. Data that is no JSON is sent
/// as `null`.
pub fn tick_of_entry(broker: &str, entry: &StreamEntry) -> (r: String)
    ensures
        r@ == json::json_text(
            tick_value(
                broker@,
                field_text(entry.map@, "key"@),
                json::json_value(field_text(entry.map@, "data"@)),
            ),
        ),
        r@ == json::json_text(entry_tick(broker@, entry.map@)),
{
    let symbol = string_field(&entry.map, "key");
    let data = string_field(&entry.map, "data");
    tick_text(broker, symbol, json::parse_json(data.as_str()))
}

/// What the collector publishes of a message is what clients are sent of it: an entry that holds
/// the published fields gives the canonical symbol and the data as it was published.
pub proof fn law_published_messages_become_ticks(
    conn_id: Seq<char>,
    broker: Broker,
    raw: Seq<char>,
    data: Seq<char>,
    entry: Map<Seq<char>, redis::Value>,
)
    requires
        forall|i: int|
            #![trigger collector::publication_of(conn_id, broker, raw, data).entry[i]]
            0 <= i < 3 ==> {
                let field = collector::publication_of(conn_id, broker, raw, data).entry[i];
                entry.contains_key(field.0) && redis_text(entry[field.0]) == Some(field.1)
            },
    ensures
        field_text(entry, "key"@) == collector::symbol_of(broker.symbol_map.texts(), raw),
        field_text(entry, "data"@) == data,
{
    let published = collector::publication_of(conn_id, broker, raw, data).entry;
    assert(published[1].0 == "key"@);
    assert(published[2].0 == "data"@);
}

/// The reader of a broker's stream. Each instance of the service reads on its own, from when it
/// starts, so that every message goes to every instance.
pub fn reader_of(id: &str) -> (reader: StreamReader)
    ensures
        reader@ == (StreamReaderView {
            stream_key: broker_keys::live_key_of(id@),
            last_id: "$"@,
            connected: false,
            ended: false,
            received: Seq::empty(),
        }),
{
    StreamReader::new(broker_keys::live_key(id), StreamPosition::NewOnly)
}

/// The ids of the brokers among `keys`, in order.
pub open spec fn ids_among(keys: Seq<Seq<char>>) -> Seq<Seq<char>>
    decreases keys.len(),
{
    if keys.len() == 0 {
        Seq::empty()
    } else {
        match broker_keys::id_of(keys.last()) {
            Some(id) => ids_among(keys.drop_last()).push(id),
            None => ids_among(keys.drop_last()),
        }
    }
}

/// The ids of the brokers among `keys`, in order.
pub fn broker_ids(keys: &Vec<String>) -> (ids: Vec<String>)
    ensures
        text::texts(ids@) == ids_among(text::texts(keys@)),
{
    let mut ids: Vec<String> = Vec::new();
    let ghost all = text::texts(keys@);
    let mut i: usize = 0;
    assert(text::texts(ids@) =~= ids_among(all.take(0)));
    while i < keys.len()
        invariant
            i <= keys.len(),
            all == text::texts(keys@),
            text::texts(ids@) == ids_among(all.take(i as int)),
        decreases keys.len() - i,
    {
        let ghost before = ids@;
        assert(all.take(i + 1).drop_last() =~= all.take(i as int));
        assert(all.take(i + 1).last() == keys@[i as int]@);
        if let Some(id) = broker_keys::broker_id_from_key(keys[i].as_str()) {
            ids.push(id);
            assert(text::texts(ids@) =~= text::texts(before).push(id@));
        }
        i += 1;
    }
    assert(all.take(i as int) =~= all);
    ids
}

/// The brokers that a scan finds and that are not followed yet, in order and each once.
pub open spec fn newly_found(followed: Set<Seq<char>>, ids: Seq<Seq<char>>) -> Seq<Seq<char>>
    decreases ids.len(),
{
    if ids.len() == 0 {
        Seq::empty()
    } else {
        let before = newly_found(followed, ids.drop_last());
        if followed.contains(ids.last()) || before.contains(ids.last()) {
            before
        } else {
            before.push(ids.last())
        }
    }
}

/// Brings the set of followed brokers up to date with the stored keys. Gives the brokers that are
/// gone, whose readers are stopped, and those that are new, whose readers are started.
pub fn scan(followed: &mut BrokerSet, keys: &Vec<String>) -> (r: (Vec<String>, Vec<String>))
    ensures
        ({
            let ids = ids_among(text::texts(keys@));
            &&& final(followed)@ == ids.to_set()
            &&& text::texts(r.0@).no_duplicates()
            &&& text::texts(r.0@).to_set() == old(followed)@.difference(ids.to_set())
            &&& text::texts(r.1@) == newly_found(old(followed)@, ids)
        }),
{
    let ids = broker_ids(keys);
    let ghost all = text::texts(ids@);
    let ghost start = followed@;
    let current = BrokerSet::of(&ids);
    let removed = followed.retain(&current);
    let ghost kept = followed@;
    let mut started: Vec<String> = Vec::new();
    let mut i: usize = 0;
    proof {
        assert(text::texts(started@) =~= newly_found(start, all.take(0)));
        assert(text::texts(started@).to_set() =~= Set::empty());
        assert(kept.union(text::texts(started@).to_set()) =~= followed@);
    }
    while i < ids.len()
        invariant
            i <= ids.len(),
            all == text::texts(ids@),
            kept == start.intersect(all.to_set()),
            text::texts(started@) == newly_found(start, all.take(i as int)),
            followed@ == kept.union(text::texts(started@).to_set()),
            forall|j: int| 0 <= j < i ==> followed@.contains(#[trigger] all[j]),
            followed@.subset_of(all.to_set()),
        decreases ids.len() - i,
    {
        let ghost before = text::texts(started@);
        let ghost id = all[i as int];
        proof {
            assert(all.take(i + 1).drop_last() =~= all.take(i as int));
            assert(all.take(i + 1).last() == id);
            assert(all.contains(id));
            assert(all.to_set().contains(id));
            assert(before.to_set().contains(id) <==> before.contains(id));
            sequence::lemma_push_to_set(before, id);
        }
        if followed.insert(ids[i].clone()) {
            started.push(ids[i].clone());
            assert(text::texts(started@) =~= before.push(id));
        }
        assert(followed@ =~= kept.union(text::texts(started@).to_set()));
        i += 1;
    }
    proof {
        assert(all.take(i as int) =~= all);
        assert forall|id: Seq<char>| all.to_set().contains(id) implies followed@.contains(id) by {
            let j = choose|j: int| 0 <= j < all.len() && all[j] == id;
            assert(followed@.contains(all[j]));
        }
        assert(followed@ =~= all.to_set());
    }
    (removed, started)
}

/// The brokers that are new are those that are stored and were not followed, each once.
pub proof fn law_new_brokers_are_started_once(followed: Set<Seq<char>>, ids: Seq<Seq<char>>)
    ensures
        newly_found(followed, ids).no_duplicates(),
        newly_found(followed, ids).to_set() == ids.to_set().difference(followed),
    decreases ids.len(),
{
    if ids.len() == 0 {
        assert(newly_found(followed, ids).to_set() =~= ids.to_set().difference(followed));
    } else {
        let front = ids.drop_last();
        law_new_brokers_are_started_once(followed, front);
        sequence::lemma_push_to_set(front, ids.last());
        assert(ids =~= front.push(ids.last()));
        let before = newly_found(followed, front);
        sequence::lemma_push_to_set(before, ids.last());
        assert(before.to_set().contains(ids.last()) <==> before.contains(ids.last()));
        assert(newly_found(followed, ids).to_set() =~= ids.to_set().difference(followed));
    }
}

/// A scan that finds the same keys again stops and starts nothing.
pub proof fn law_unchanged_keys_change_nothing(ids: Seq<Seq<char>>)
    ensures
        newly_found(ids.to_set(), ids) == Seq::<Seq<char>>::empty(),
        ids.to_set().difference(ids.to_set()) == Set::<Seq<char>>::empty(),
{
    law_new_brokers_are_started_once(ids.to_set(), ids);
    let new = newly_found(ids.to_set(), ids);
    if new.len() > 0 {
        assert(new.contains(new[0]));
        assert(new.to_set().contains(new[0]));
    }
    assert(ids.to_set().difference(ids.to_set()) =~= Set::empty());
}

/// What happens on the connection of a client.
#[derive(Clone, Copy, Debug, PartialEq, Eq, Structural)]
pub enum ClientEvent {
    /// A message was sent to the client.
    Sent,
    /// A message could not be sent.
    SendFailed,
    /// The client fell too far behind.
    Lagged,
    /// There are no more messages.
    NoMoreMessages,
    /// The client closed the connection, or it ended.
    Closed,
    /// The client sent something else, which is ignored.
    Unexpected,
}

/// Whether the client stays connected.
pub fn stays_connected(event: ClientEvent) -> (r: bool)
    ensures
        r == (event is Sent || event is Unexpected),
{
    match event {
        ClientEvent::Sent => true,
        ClientEvent::Unexpected => true,
        _ => false,
    }
}

/// What is recorded of a connected client.
#[derive(Debug)]
pub struct ConnectionInfo {
    pub id: String,
    pub ip: String,
    pub connected_at: u64,
}

/// Reads the clock with `std::time::SystemTime` and gives the whole seconds since
/// `std::time::UNIX_EPOCH`, or `None` where the clock is before that. Which time it is is not for
/// this library to say, so nothing is stated of the result.
#[verifier::external_body]
fn clock_seconds() -> (r: Option<u64>) {
    std::time::SystemTime::now().duration_since(std::time::UNIX_EPOCH).ok().map(|d| d.as_secs())
}

/// The seconds that a clock shows, 0 where it shows a time before 1970.
pub fn seconds_or_zero(clock: Option<u64>) -> (r: u64)
    ensures
        r == match clock {
            Some(seconds) => seconds,
            None => 0,
        },
{
    match clock {
        Some(seconds) => seconds,
        None => 0,
    }
}

/// The time in seconds since 1970, by the clock of the machine. Nothing is stated of it, as it
/// depends on when it is read.
pub fn unix_timestamp() -> (r: u64) {
    seconds_or_zero(clock_seconds())
}

/// What is recorded of a client that connected from `ip`.
pub fn connection_info(conn_id: &str, ip: IpAddress, connected_at: u64) -> (r: ConnectionInfo)
    ensures
        r.id@ == conn_id@,
        r.ip@ == ip::shown_ip(ip),
        r.connected_at == connected_at,
{
    ConnectionInfo { id: conn_id.to_owned(), ip: ip::show_ip(ip), connected_at }
}

/// The key under which an instance of the service records its clients.
pub fn analytics_connections_key(id: &str) -> (key: String)
    ensures
        key@ == text::around("analytics:rate-streamer:"@, id@, ":connections"@),
{
    text::enclose("analytics:rate-streamer:", id, ":connections")
}

}
