//! What clients are sent of messages, and which brokers are followed.
use crate::json;
use crate::streamer;
use vstd::prelude::*;

verus! {

/// Clients are sent an object with four fields: that it is a tick, the id of the broker, the symbol
/// and the data, each as it is and whatever its length; in place of data that could not be read,
/// the value that `null` writes.
pub proof fn law_what_a_tick_holds(
    broker: Seq<char>,
    symbol: Seq<char>,
    data: Option<serde_json::Value>,
    value: serde_json::Value,
)
    ensures
        data == Some(value) ==> streamer::tick_value(broker, symbol, data) == json::json_object(
            seq![
                ("type"@, json::json_string("tick"@)),
                ("broker"@, json::json_string(broker)),
                ("symbol"@, json::json_string(symbol)),
                ("data"@, value),
            ],
        ),
        data is None && json::json_value("null"@) == Some(value) ==> streamer::tick_value(broker, symbol, data)
            == json::json_object(
            seq![
                ("type"@, json::json_string("tick"@)),
                ("broker"@, json::json_string(broker)),
                ("symbol"@, json::json_string(symbol)),
                ("data"@, value),
            ],
        ),
{
}

/// The fields of what clients are sent tell entries apart: two with different symbols have the
/// strings of different texts under `symbol`, and the symbol is in the place of that name.
pub proof fn law_fields_of_a_tick(
    broker: Seq<char>,
    symbol: Seq<char>,
    other: Seq<char>,
    data: Option<serde_json::Value>,
)
    ensures
        ({
            let fields = streamer::tick_fields(broker, symbol, data);
            &&& fields.len() == 4
            &&& fields[0] == ("type"@, json::json_string("tick"@))
            &&& fields[1] == ("broker"@, json::json_string(broker))
            &&& fields[2] == ("symbol"@, json::json_string(symbol))
            &&& fields[3].0 == "data"@
            &&& data is Some ==> fields[3].1 == data->0
            &&& streamer::tick_value(broker, symbol, data) == json::json_object(fields)
            &&& json::json_string(symbol) != json::json_string(other) ==> fields[2] != streamer::tick_fields(
                broker,
                other,
                data,
            )[2]
        }),
{
}

/// A field of an entry reads as the text that it holds, and as nothing where there is no such field
/// or it holds no text; other fields do not matter.
pub proof fn law_fields_of_an_entry(
    map: Map<Seq<char>, redis::Value>,
    name: Seq<char>,
    other: Seq<char>,
    value: redis::Value,
)
    ensures
        map.contains_key(name) ==> match streamer::redis_text(map[name]) {
            Some(s) => streamer::field_text(map, name) == s,
            None => streamer::field_text(map, name).len() == 0,
        },
        !map.contains_key(name) ==> streamer::field_text(map, name).len() == 0,
        name != other ==> streamer::field_text(map.insert(other, value), name) == streamer::field_text(map, name),
{
}

/// What clients are sent of an entry whose symbol and data are texts is the tick of exactly those:
/// the symbol as it is, and the value that the data writes.
pub proof fn law_tick_of_an_entry(
    broker: Seq<char>,
    map: Map<Seq<char>, redis::Value>,
    symbol: Seq<char>,
    data: Seq<char>,
    value: serde_json::Value,
)
    ensures
        map.contains_key("key"@) && streamer::redis_text(map["key"@]) == Some(symbol) && map.contains_key("data"@)
            && streamer::redis_text(map["data"@]) == Some(data) && json::json_value(data) == Some(value)
            ==> streamer::entry_tick(broker, map) == json::json_object(
            seq![
                ("type"@, json::json_string("tick"@)),
                ("broker"@, json::json_string(broker)),
                ("symbol"@, json::json_string(symbol)),
                ("data"@, value),
            ],
        ),
{
}

/// The brokers among keys are those whose keys have the prefix and no further colon, in the order of
/// the keys: those of the first keys, and then those of the others.
pub proof fn law_brokers_among_keys(x: Seq<Seq<char>>, y: Seq<Seq<char>>, id: Seq<char>, foreign: Seq<char>)
    ensures
        streamer::ids_among(x + y) == streamer::ids_among(x) + streamer::ids_among(y),
        !id.contains(':') ==> streamer::ids_among(seq!["brokers:"@ + id]) == seq![id],
        id.contains(':') ==> streamer::ids_among(seq!["brokers:"@ + id]) == Seq::<Seq<char>>::empty(),
        !"brokers:"@.is_prefix_of(foreign) ==> streamer::ids_among(seq![foreign]) == Seq::<Seq<char>>::empty(),
        streamer::ids_among(Seq::empty()) == Seq::<Seq<char>>::empty(),
    decreases y.len(),
{
    let key = "brokers:"@ + id;
    let n = "brokers:"@.len() as int;
    assert("brokers:"@ =~= key.subrange(0, n));
    assert(key.skip(n) =~= id);
    assert(seq![key].drop_last() =~= Seq::empty());
    assert(streamer::ids_among(seq![key].drop_last()) == Seq::<Seq<char>>::empty());
    assert(seq![foreign].drop_last() =~= Seq::empty());
    assert(streamer::ids_among(seq![foreign].drop_last()) == Seq::<Seq<char>>::empty());
    assert(Seq::<Seq<char>>::empty().push(id) =~= seq![id]);
    if y.len() == 0 {
        assert(x + y =~= x);
        assert(streamer::ids_among(x) + streamer::ids_among(y) =~= streamer::ids_among(x));
    } else {
        law_brokers_among_keys(x, y.drop_last(), id, foreign);
        assert((x + y).drop_last() =~= x + y.drop_last());
        assert(streamer::ids_among(x + y) =~= streamer::ids_among(x) + streamer::ids_among(y));
    }
}

/// New brokers are started in the order in which a scan finds them: what the first keys start is
/// started first.
pub proof fn law_new_brokers_are_started_in_order(followed: Set<Seq<char>>, x: Seq<Seq<char>>, y: Seq<Seq<char>>)
    ensures
        streamer::newly_found(followed, x).is_prefix_of(streamer::newly_found(followed, x + y)),
    decreases y.len(),
{
    if y.len() == 0 {
        assert(x + y =~= x);
    } else {
        law_new_brokers_are_started_in_order(followed, x, y.drop_last());
        assert((x + y).drop_last() =~= x + y.drop_last());
    }
}

/// Brokers are scanned for every thirty seconds, and again five seconds after a scan failed; a client
/// may fall behind by 1024 messages.
pub proof fn law_limits_of_the_streamer()
    ensures
        streamer::DISCOVERY_SECONDS == 30,
        streamer::SCAN_RETRY_SECONDS == 5,
        streamer::BROADCAST_CAPACITY == 1024,
{
}

}
