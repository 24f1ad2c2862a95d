//! What the collector does with messages and with brokers that introduce themselves.
use crate::admin;
use crate::broker::Broker;
use crate::collector;
use crate::collector::{Category, CollectedValue, GatewayMessage, GatewayValue, Publication, Step, StepView};
use crate::ip;
use crate::ip::IpAddress;
use crate::json;
use crate::string_map;
use crate::text;
use crate::whitelist;
use vstd::prelude::*;

verus! {

/// A message is published under the canonical symbol where the broker's table holds the symbol, and
/// under the symbol as it came where it does not, whatever else the table holds: both in the entry
/// of the stream and in the snapshot.
pub proof fn law_published_symbol(conn_id: Seq<char>, broker: Broker, raw: Seq<char>, data: Seq<char>)
    ensures
        ({
            let p = collector::publication_of(conn_id, broker, raw, data);
            let table = broker.symbol_map.texts();
            &&& !table.contains_key(raw) ==> p.symbol == raw && p.entry[1].1 == raw
            &&& table.contains_key(raw) ==> p.symbol == table[raw] && p.entry[1].1 == table[raw]
        }),
{
}

/// A message is published to the stream and the snapshot of its broker, with the connection and the
/// data as they are.
pub proof fn law_published_entry(conn_id: Seq<char>, broker: Broker, raw: Seq<char>, data: Seq<char>)
    ensures
        ({
            let p = collector::publication_of(conn_id, broker, raw, data);
            &&& p.stream_key == "brokers:"@ + broker.id@ + ":live"@
            &&& p.snapshot_key == "brokers:"@ + broker.id@ + ":snapshot"@
            &&& p.max_len == 1000
            &&& p.entry.len() == 3
            &&& p.entry[0] == ("conn_id"@, conn_id)
            &&& p.entry[1].0 == "key"@
            &&& p.entry[2] == ("data"@, data)
            &&& p.data == data
        }),
{
}

/// What is published of a message depends on nothing of the broker but its id and what its table
/// holds for the symbol, and two symbols that the table does not hold stay apart.
pub proof fn law_symbols_stay_apart(
    conn_id: Seq<char>,
    broker: Broker,
    other: Broker,
    a: Seq<char>,
    b: Seq<char>,
    data: Seq<char>,
)
    ensures
        ({
            let x = broker.symbol_map.texts();
            let y = other.symbol_map.texts();
            &&& !x.contains_key(a) && !x.contains_key(b) && a != b ==> collector::publication_of(
                conn_id,
                broker,
                a,
                data,
            ).symbol != collector::publication_of(conn_id, broker, b, data).symbol
            &&& broker.id@ == other.id@ && x.contains_key(a) == y.contains_key(a) && (x.contains_key(a)
                ==> x[a] == y[a]) ==> collector::publication_of(conn_id, broker, a, data)
                == collector::publication_of(conn_id, other, a, data)
        }),
{
}

/// What a message is about is told by its category, in lower case: `broker`, `live`, or nothing that
/// is supported; a message without a category is about nothing.
pub proof fn law_categories(name: String, lower: Seq<char>)
    ensures
        collector::category_named(lower) == Category::Broker <==> lower == "broker"@,
        collector::category_named(lower) == Category::Live <==> lower == "live"@,
        collector::category_of(Some(name)) == Category::Broker <==> text::lower_case(name@) == "broker"@,
        collector::category_of(Some(name)) == Category::Live <==> text::lower_case(name@) == "live"@,
        collector::category_of(None) == Category::Unsupported,
{
    reveal_strlit("broker");
    reveal_strlit("live");
    assert("broker"@.len() != "live"@.len());
}

/// A message is handled by what it is about: one about a broker is read as a broker, with the value
/// as it is; a live one is published for the connection's broker, with the JSON text of its value,
/// and closes a connection without a broker; any other changes nothing. One that is no JSON fails.
pub proof fn law_messages_are_handled_by_category(
    conn_id: Seq<char>,
    broker: Option<Broker>,
    message: GatewayMessage,
    value: serde_json::Value,
    shown: String,
)
    ensures
        ({
            let step = collector::step_of(conn_id, broker, message);
            let category = collector::category_of(message.category);
            &&& message.value == GatewayValue::Other(shown) ==> step == StepView::Fail(
                "received non-json message: "@ + shown@,
            )
            &&& message.value == GatewayValue::Json(value) ==> {
                &&& category == Category::Broker ==> step == StepView::Register(value)
                &&& category == Category::Unsupported ==> step == StepView::Ignore
                &&& category == Category::Live && broker is None ==> step == StepView::Close
                &&& category == Category::Live && broker is Some ==> step == StepView::Publish(
                    collector::publication_of(conn_id, broker->0, message.key@, json::json_text(value)),
                )
            }
        }),
{
}

/// A step is what it says, and a publication holds each of its texts.
pub proof fn law_contents_of_steps(message: String, value: serde_json::Value, publication: Publication, broker: Broker)
    ensures
        collector::step_view(Err(message)) == StepView::Fail(message@),
        collector::step_view(Ok(Step::Finish(CollectedValue::Nothing))) == StepView::Ignore,
        collector::step_view(Ok(Step::Finish(CollectedValue::CloseConnection))) == StepView::Close,
        collector::step_view(Ok(Step::Finish(CollectedValue::Broker(broker)))) == StepView::Adopt(broker),
        collector::step_view(Ok(Step::Register(value))) == StepView::Register(value),
        collector::step_view(Ok(Step::Publish(publication))) == StepView::Publish(publication@),
        publication@.stream_key == publication.stream_key@,
        publication@.max_len == publication.max_len,
        publication@.entry == admin::pair_views(publication.entry@),
        publication@.snapshot_key == publication.snapshot_key@,
        publication@.symbol == publication.symbol@,
        publication@.data == publication.data@,
{
}

/// A broker is accepted exactly where its hash is stored with a key that is not empty and is the one
/// that was sent, and with a whitelist that is empty, or missing, or admits the address.
pub proof fn law_who_is_accepted(
    conn_id: Seq<char>,
    id: Seq<char>,
    api_key: Seq<char>,
    hash: Map<Seq<char>, Seq<char>>,
    ip: IpAddress,
)
    ensures
        collector::refusal(conn_id, id, api_key, hash, ip) is None <==> {
            &&& hash.contains_key("api_key"@)
            &&& hash["api_key"@].len() > 0
            &&& hash["api_key"@] == api_key
            &&& hash.contains_key("allowed_ips"@) && hash["allowed_ips"@].len() > 0 ==> whitelist::whitelisted(
                hash["allowed_ips"@],
                ip,
            )
        },
{
}

/// A broker is refused with what is wrong first: that it is not registered, that its key is wrong,
/// or that its address is not admitted. The connection, the broker and the address are named.
pub proof fn law_how_brokers_are_refused(
    conn_id: Seq<char>,
    id: Seq<char>,
    api_key: Seq<char>,
    hash: Map<Seq<char>, Seq<char>>,
    ip: IpAddress,
)
    ensures
        ({
            let refused = collector::refusal(conn_id, id, api_key, hash, ip);
            let said = "["@ + conn_id + "] "@;
            let known = hash.contains_key("api_key"@) && hash["api_key"@].len() > 0 && hash["api_key"@] == api_key;
            &&& hash == Map::<Seq<char>, Seq<char>>::empty() ==> refused == Some(
                said + "broker '"@ + id + "' not registered — register it in the admin dashboard first"@,
            )
            &&& hash != Map::<Seq<char>, Seq<char>>::empty() && !known ==> refused == Some(
                said + "invalid api_key for broker '"@ + id + "'"@,
            )
            &&& known && refused is Some ==> refused == Some(
                said + "broker '"@ + id + "': client IP "@ + ip::shown_ip(ip) + " not in whitelist"@,
            )
        }),
{
}

/// Authentication depends on nothing of the hash but its key and its whitelist: any other field of a
/// stored broker may change.
pub proof fn law_other_fields_do_not_authenticate(
    conn_id: Seq<char>,
    id: Seq<char>,
    api_key: Seq<char>,
    hash: Map<Seq<char>, Seq<char>>,
    ip: IpAddress,
    name: Seq<char>,
    value: Seq<char>,
)
    requires
        name != "api_key"@,
        name != "allowed_ips"@,
        admin::is_stored(hash),
    ensures
        collector::refusal(conn_id, id, api_key, hash.insert(name, value), ip) == collector::refusal(
            conn_id,
            id,
            api_key,
            hash,
            ip,
        ),
{
    assert(hash.insert(name, value).contains_key(name));
}

/// An accepted broker has the symbols that its hash holds, where they can be read, and else those
/// that it came with.
pub proof fn law_symbols_of_an_accepted_broker(
    before: Map<Seq<char>, Seq<char>>,
    hash: Map<Seq<char>, Seq<char>>,
)
    ensures
        ({
            let after = collector::symbols_after(before, collector::stored_symbols(hash));
            &&& !hash.contains_key("symbol_map"@) ==> after == before
            &&& hash.contains_key("symbol_map"@) ==> match json::json_table(hash["symbol_map"@]) {
                Some(table) => after == table,
                None => after == before,
            }
        }),
{
}

/// A table that is read holds what its pairs hold.
pub proof fn law_contents_of_tables(pairs: Seq<(String, String)>, i: int)
    requires
        0 <= i < pairs.len(),
        forall|j: int| i < j < pairs.len() ==> (#[trigger] pairs[j]).0@ != pairs[i].0@,
    ensures
        json::table_of(pairs).contains_key(pairs[i].0@),
        json::table_of(pairs)[pairs[i].0@] == pairs[i].1@,
{
    string_map::law_last_pair_counts(pairs, i, pairs[i].0@);
}

/// A connection speaks for a broker from when it is accepted, and nothing else changes for whom it
/// speaks.
pub proof fn law_whom_a_connection_speaks_for(
    held: Option<Broker>,
    broker: Broker,
    failure: String,
    outcomes: Seq<Result<CollectedValue, String>>,
)
    ensures
        collector::broker_after(held, Ok(CollectedValue::Broker(broker))) == Some(broker),
        collector::broker_after(held, Ok(CollectedValue::Nothing)) == held,
        collector::broker_after(held, Ok(CollectedValue::CloseConnection)) == held,
        collector::broker_after(held, Err(failure)) == held,
        collector::broker_after_all(outcomes.push(Ok(CollectedValue::Broker(broker)))) == Some(broker),
        collector::broker_after_all(outcomes.push(Ok(CollectedValue::Nothing))) == collector::broker_after_all(
            outcomes,
        ),
        collector::broker_after_all(outcomes.push(Err(failure))) == collector::broker_after_all(outcomes),
{
    assert(outcomes.push(Ok(CollectedValue::Broker(broker))).drop_last() =~= outcomes);
    assert(outcomes.push(Ok(CollectedValue::Nothing)).drop_last() =~= outcomes);
    assert(outcomes.push(Err(failure)).drop_last() =~= outcomes);
}

}
