//! What the JSON writer keeps of brokers and of their rates.
use crate::discovery;
use crate::discovery::{ActionView, DiscoveryView, StageView};
use crate::json;
use crate::rates;
use crate::rates::SnapshotEvent;
use crate::string_map::StringMap;
use vstd::prelude::*;

verus! {

/// Of a broker's hash everything is kept but its key and its whitelist: each other field is kept
/// exactly where the hash holds it, with the same text.
pub proof fn law_all_but_secrets_is_kept(hash: Map<Seq<char>, Seq<char>>, name: Seq<char>)
    ensures
        ({
            let kept = discovery::public_part(hash);
            &&& name != "api_key"@ && name != "allowed_ips"@ ==> {
                &&& kept.contains_key(name) == hash.contains_key(name)
                &&& hash.contains_key(name) ==> kept[name] == hash[name]
            }
            &&& !kept.contains_key("api_key"@)
            &&& !kept.contains_key("allowed_ips"@)
        }),
{
}

/// A hash that was read is kept under its broker's id with all its fields but the secret ones, in
/// place of what was kept before; the other brokers stay. A hash that could not be read changes
/// nothing of what is kept.
pub proof fn law_hashes_are_kept_by_field(
    state: DiscoveryView,
    id: Seq<char>,
    hash: Map<Seq<char>, Seq<char>>,
    name: Seq<char>,
    other: Seq<char>,
)
    requires
        state.stage == StageView::Reading(id),
        name != "api_key"@,
        name != "allowed_ips"@,
        other != id,
    ensures
        ({
            let after = state.after_broker(Some(hash)).brokers;
            &&& after.contains_key(id)
            &&& after[id].contains_key(name) == hash.contains_key(name)
            &&& hash.contains_key(name) ==> after[id][name] == hash[name]
            &&& after.contains_key(other) == state.brokers.contains_key(other)
            &&& state.brokers.contains_key(other) ==> after[other] == state.brokers[other]
            &&& state.after_broker(None).brokers == state.brokers
        }),
{
}

/// A scan finds exactly the brokers whose keys it was given, and goes through all of those keys; it
/// goes on following those that it followed and still finds, and stops each of the others once.
pub proof fn law_scans_follow_what_is_stored(
    before: DiscoveryView,
    after: DiscoveryView,
    keys: Seq<Seq<char>>,
    id: Seq<char>,
)
    requires
        after.starts_scan(before, keys),
    ensures
        after.found.contains(id) <==> keys.contains("broker:"@ + id),
        after.followed.contains(id) <==> before.followed.contains(id) && keys.contains("broker:"@ + id),
        after.gone.contains(id) <==> before.followed.contains(id) && !keys.contains("broker:"@ + id),
        after.gone.no_duplicates(),
        after.keys == keys,
        !after.brokers.contains_key(id),
{
    assert(after.gone.to_set().contains(id) <==> after.gone.contains(id));
}

/// The next key is gone to only when all brokers that are gone were stopped. A key that is not that
/// of a broker is passed over, and the broker of the first one that is comes next.
pub proof fn law_brokers_are_taken_in_order(
    state: DiscoveryView,
    foreign: Seq<char>,
    id: Seq<char>,
    rest: Seq<Seq<char>>,
)
    requires
        state.stage is Keys,
        state.gone.len() == 0,
        !"broker:"@.is_prefix_of(foreign),
    ensures
        ({
            let at = DiscoveryView { keys: seq!["broker:"@ + id] + rest, ..state };
            &&& at.advanced() == (DiscoveryView { keys: rest, stage: StageView::Reading(id), ..state })
            &&& at.advanced().action() == ActionView::ReadBroker(id, "broker:"@ + id)
        }),
        (DiscoveryView { keys: seq![foreign] + rest, ..state }).advanced() == (DiscoveryView {
            keys: rest,
            ..state
        }).advanced(),
        (DiscoveryView { keys: Seq::empty(), ..state }).advanced().action() is Finish,
{
    let key = "broker:"@ + id;
    let n = "broker:"@.len() as int;
    assert("broker:"@ =~= key.subrange(0, n));
    assert(key.skip(n) =~= id);
    let at = DiscoveryView { keys: seq![key] + rest, ..state };
    assert(at.keys.first() == key);
    assert(at.keys.drop_first() =~= rest);
    let past = seq![foreign] + rest;
    assert(past.first() == foreign);
    assert(past.drop_first() =~= rest);
    assert(discovery::from_broker_key(past) == discovery::from_broker_key(rest));
}

/// A broker that is gone is stopped before anything else is done, the last one first.
pub proof fn law_gone_brokers_are_stopped_first(state: DiscoveryView, gone: Seq<Seq<char>>, id: Seq<char>)
    ensures
        ({
            let at = DiscoveryView { gone: gone.push(id), ..state };
            &&& at.advanced() == at
            &&& at.action() == ActionView::Stop(id)
            &&& at.after_action() == (DiscoveryView { gone, ..state })
        }),
{
    assert(gone.push(id).drop_last() =~= gone);
}

/// A broker that is new is followed: its group is joined on its stream, its snapshot is read, and
/// its reader is started, and then the next key comes. Where its group cannot be joined it is not
/// followed. A broker that was followed already is left alone.
pub proof fn law_new_brokers_are_joined_seeded_and_started(
    state: DiscoveryView,
    id: Seq<char>,
    hash: Option<Map<Seq<char>, Seq<char>>>,
)
    requires
        state.stage == StageView::Reading(id),
        state.gone.len() == 0,
    ensures
        state.action() == ActionView::ReadBroker(id, "broker:"@ + id),
        state.followed.contains(id) ==> state.after_broker(hash).stage is Keys,
        !state.followed.contains(id) ==> ({
            let read = state.after_broker(hash);
            let joined = read.after_join(true);
            let seeded = joined.after_snapshot();
            let unjoined = read.after_join(false);
            &&& read.action() == ActionView::Join(id, id + ":live"@)
            &&& joined.action() == ActionView::ReadSnapshot(id, id + ":snapshot"@)
            &&& seeded.action() == ActionView::StartReader(id)
            &&& seeded.followed == state.followed.insert(id)
            &&& seeded.after_action().stage is Keys
            &&& seeded.after_action().keys == state.keys
            &&& unjoined.stage is Keys
            &&& unjoined.followed == state.followed
            &&& unjoined.keys == state.keys
        }),
        state.after_broker(hash).followed == state.followed.insert(id),
        state.after_broker(hash).keys == state.keys,
{
    assert(state.followed.insert(id).remove(id) =~= state.followed || state.followed.contains(id));
}

/// After a snapshot was merged in, a symbol has the value of its text where that is JSON, and else
/// what it had before; no other symbol is there.
pub proof fn law_merging_by_symbol(
    values: Map<Seq<char>, serde_json::Value>,
    snapshot: Map<Seq<char>, Seq<char>>,
    symbol: Seq<char>,
)
    ensures
        ({
            let after = rates::merged(values, snapshot);
            if snapshot.contains_key(symbol) && json::json_value(snapshot[symbol]) is Some {
                after.contains_key(symbol) && Some(after[symbol]) == json::json_value(snapshot[symbol])
            } else {
                &&& after.contains_key(symbol) == values.contains_key(symbol)
                &&& values.contains_key(symbol) ==> after[symbol] == values[symbol]
            }
        }),
{
}

/// An update changes its broker, which is there from then on, and no other; a removal drops its
/// broker, and no other.
pub proof fn law_events_change_one_broker(
    state: Map<Seq<char>, Map<Seq<char>, serde_json::Value>>,
    broker: String,
    snapshot: StringMap<String>,
    other: Seq<char>,
    symbol: Seq<char>,
)
    requires
        other != broker@,
    ensures
        ({
            let updated = rates::rates_after(state, SnapshotEvent::Update(broker, snapshot));
            let removed = rates::rates_after(state, SnapshotEvent::Removed(broker));
            let texts = snapshot.texts();
            let given = texts.contains_key(symbol) && json::json_value(texts[symbol]) is Some;
            let had = state.contains_key(broker@) && state[broker@].contains_key(symbol);
            &&& updated.contains_key(broker@)
            &&& updated[broker@].contains_key(symbol) <==> given || had
            &&& given ==> Some(updated[broker@][symbol]) == json::json_value(texts[symbol])
            &&& !given && had ==> updated[broker@][symbol] == state[broker@][symbol]
            &&& !removed.contains_key(broker@)
            &&& updated.contains_key(other) == state.contains_key(other)
            &&& removed.contains_key(other) == state.contains_key(other)
            &&& state.contains_key(other) ==> updated[other] == state[other] && removed[other] == state[other]
        }),
{
}

/// The rates are written exactly where they hold a broker, or the file shows one.
pub proof fn law_when_rates_are_written(
    state: Map<Seq<char>, Map<Seq<char>, serde_json::Value>>,
    broker: Seq<char>,
)
    ensures
        state.contains_key(broker) ==> rates::shows_a_broker(state),
        rates::worth_writing(state, true),
        rates::worth_writing(state, false) <==> rates::shows_a_broker(state),
        !rates::shows_a_broker(Map::empty()),
{
}

/// The contents of maps of maps are those of each map, under the same key.
pub proof fn law_contents_of_nested_maps(
    values: Map<Seq<char>, StringMap<serde_json::Value>>,
    hashes: Map<Seq<char>, StringMap<String>>,
    key: Seq<char>,
)
    ensures
        rates::inner_maps(values).contains_key(key) == values.contains_key(key),
        values.contains_key(key) ==> rates::inner_maps(values)[key] == values[key]@,
        discovery::broker_texts(hashes).contains_key(key) == hashes.contains_key(key),
        hashes.contains_key(key) ==> discovery::broker_texts(hashes)[key] == hashes[key].texts(),
{
}

/// A stage and an action are what they say.
pub proof fn law_contents_of_stages_and_actions(id: String, key: String)
    ensures
        discovery::Stage::Keys@ == StageView::Keys,
        discovery::Stage::Reading(id)@ == StageView::Reading(id@),
        discovery::Stage::Joining(id)@ == StageView::Joining(id@),
        discovery::Stage::Seeding(id)@ == StageView::Seeding(id@),
        discovery::Stage::Starting(id)@ == StageView::Starting(id@),
        discovery::DiscoveryAction::Stop(id)@ == ActionView::Stop(id@),
        discovery::DiscoveryAction::ReadBroker(id, key)@ == ActionView::ReadBroker(id@, key@),
        discovery::DiscoveryAction::Join(id, key)@ == ActionView::Join(id@, key@),
        discovery::DiscoveryAction::ReadSnapshot(id, key)@ == ActionView::ReadSnapshot(id@, key@),
        discovery::DiscoveryAction::StartReader(id)@ == ActionView::StartReader(id@),
        discovery::DiscoveryAction::Finish@ == ActionView::Finish,
{
}

/// Brokers are scanned for every thirty seconds, and again five seconds after a scan failed; the
/// rates are written every thirty seconds, and the brokers at most once a minute.
pub proof fn law_times_of_the_writer()
    ensures
        discovery::DISCOVERY_SECONDS == 30,
        discovery::SCAN_RETRY_SECONDS == 5,
        discovery::BROKERS_WRITE_MILLIS == 60000,
        rates::RATES_WRITE_SECONDS == 30,
{
}

}
