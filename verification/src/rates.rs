//! The JSON writer's state: the latest value of each symbol of each broker, which is written to
//! a file from time to time.
use crate::json;
use crate::string_map;
use crate::string_map::StringMap;
use vstd::prelude::*;

verus! {

/// How many seconds pass between two writes of the rates.
pub const RATES_WRITE_SECONDS: u64 = 30;

/// What the rates are told of a broker.
#[derive(Debug)]
pub enum SnapshotEvent {
    /// The broker's snapshot changed: its symbols are merged in.
    Update(String, StringMap<String>),
    /// The broker was deleted: it is dropped.
    Removed(String),
}

/// The values of a broker's symbols after a snapshot was merged in. A symbol whose text is no
/// JSON keeps what it had; a symbol that the snapshot does not hold does, too.
pub open spec fn merged(
    values: Map<Seq<char>, serde_json::Value>,
    snapshot: Map<Seq<char>, Seq<char>>,
) -> Map<Seq<char>, serde_json::Value> {
    Map::new(
        |symbol: Seq<char>| values.contains_key(symbol) || readable(snapshot, symbol),
        |symbol: Seq<char>|
            if readable(snapshot, symbol) {
                json::json_value(snapshot[symbol])->0
            } else {
                values[symbol]
            },
    )
}

/// Whether a snapshot holds the symbol with a text that is JSON.
pub open spec fn readable(snapshot: Map<Seq<char>, Seq<char>>, symbol: Seq<char>) -> bool {
    snapshot.contains_key(symbol) && json::json_value(snapshot[symbol]) is Some
}

/// The latest value of each symbol of each broker, and whether the file, as it was last written,
/// shows a broker.
#[derive(Debug)]
pub struct RatesState {
    brokers: StringMap<StringMap<serde_json::Value>>,
    shown: bool,
}

/// Whether the rates are written when it is time: not while there are none, unless the file still
/// shows some.
pub open spec fn worth_writing(
    rates: Map<Seq<char>, Map<Seq<char>, serde_json::Value>>,
    shown: bool,
) -> bool {
    shows_a_broker(rates) || shown
}

/// Whether a file with these rates shows a broker.
pub open spec fn shows_a_broker(rates: Map<Seq<char>, Map<Seq<char>, serde_json::Value>>) -> bool {
    rates != Map::<Seq<char>, Map<Seq<char>, serde_json::Value>>::empty()
}

/// The contents of maps in a map.
pub open spec fn inner_maps(
    map: Map<Seq<char>, StringMap<serde_json::Value>>,
) -> Map<Seq<char>, Map<Seq<char>, serde_json::Value>> {
    map.map_values(|m: StringMap<serde_json::Value>| m@)
}

impl View for RatesState {
    type V = Map<Seq<char>, Map<Seq<char>, serde_json::Value>>;

    closed spec fn view(&self) -> Map<Seq<char>, Map<Seq<char>, serde_json::Value>> {
        inner_maps(self.brokers@)
    }
}

/// The values of a broker's symbols; none for a broker that is not there.
pub open spec fn values_of(
    rates: Map<Seq<char>, Map<Seq<char>, serde_json::Value>>,
    broker: Seq<char>,
) -> Map<Seq<char>, serde_json::Value> {
    if rates.contains_key(broker) {
        rates[broker]
    } else {
        Map::empty()
    }
}

/// The rates after an event. A broker that is updated is there from then on, even without a
/// symbol.
pub open spec fn rates_after(
    rates: Map<Seq<char>, Map<Seq<char>, serde_json::Value>>,
    event: SnapshotEvent,
) -> Map<Seq<char>, Map<Seq<char>, serde_json::Value>> {
    match event {
        SnapshotEvent::Update(broker, snapshot) => rates.insert(
            broker@,
            merged(values_of(rates, broker@), snapshot.texts()),
        ),
        SnapshotEvent::Removed(broker) => rates.remove(broker@),
    }
}

/// Keeps the value of a symbol, where its text could be read.
pub fn record_value(
    values: &mut StringMap<serde_json::Value>,
    symbol: String,
    value: Option<serde_json::Value>,
)
    ensures
        final(values)@ == match value {
            Some(v) => old(values)@.insert(symbol@, v),
            None => old(values)@,
        },
{
    if let Some(v) = value {
        values.insert(symbol, v);
    }
}

/// Merges a snapshot into the values of a broker's symbols.
pub fn merge_snapshot(values: &mut StringMap<serde_json::Value>, snapshot: StringMap<String>)
    ensures
        final(values)@ == merged(old(values)@, snapshot.texts()),
{
    let ghost start = values@;
    let pairs = snapshot.into_entries();
    let ghost all = pairs@;
    let ghost texts = |n: int| string_map::text_map(string_map::pairs_map(all.take(n)));
    proof {
        assert(merged(start, texts(0)) =~= start);
    }
    for pair in it: pairs
        invariant
            it.seq() == all,
            string_map::distinct_keys(all),
            texts == (|n: int| string_map::text_map(string_map::pairs_map(all.take(n)))),
            values@ == merged(start, texts(it.index() as int)),
    {
        let ghost i = it.index() as int;
        let ghost done = all.take(i);
        let value = json::parse_json(pair.1.as_str());
        let ghost before = values@;
        proof {
            assert(all.take(i + 1).drop_last() =~= done);
            assert(all.take(i + 1).last() == pair);
            assert(texts(i + 1) =~= texts(i).insert(pair.0@, pair.1@));
            string_map::lemma_pairs_map_dom(done, pair.0@);
            if string_map::pairs_map(done).contains_key(pair.0@) {
                let j = choose|j: int| 0 <= j < done.len() && (#[trigger] done[j]).0@ == pair.0@;
                assert(all[j].0@ == all[i].0@);
            }
        }
        record_value(values, pair.0, value);
        assert(values@ =~= merged(start, texts(i + 1)));
    }
    assert(all.take(all.len() as int) =~= all);
}

impl RatesState {
    /// Whether the file, as it was last written, shows a broker.
    pub closed spec fn is_shown(&self) -> bool {
        self.shown
    }

    /// Nothing is known yet, and nothing was written.
    pub fn new() -> (r: RatesState)
        ensures
            r@ == Map::<Seq<char>, Map<Seq<char>, serde_json::Value>>::empty(),
            !r.is_shown(),
    {
        let r = RatesState { brokers: StringMap::new(), shown: false };
        assert(r@ =~= Map::<Seq<char>, Map<Seq<char>, serde_json::Value>>::empty());
        r
    }

    /// Takes note of an event.
    pub fn apply(&mut self, event: SnapshotEvent)
        ensures
            final(self)@ == rates_after(old(self)@, event),
            final(self).is_shown() == old(self).is_shown(),
    {
        let ghost before = self@;
        match event {
            SnapshotEvent::Update(broker, snapshot) => {
                let mut values = match self.brokers.remove(broker.as_str()) {
                    Some(values) => values,
                    None => StringMap::new(),
                };
                assert(values@ == values_of(before, broker@));
                merge_snapshot(&mut values, snapshot);
                self.brokers.insert(broker, values);
            },
            SnapshotEvent::Removed(broker) => {
                let _ = self.brokers.remove(broker.as_str());
            },
        }
        assert(self@ =~= rates_after(before, event));
    }

    /// Takes note of what came from the channel of events; `false` where there are no more, and
    /// the writer ends.
    pub fn on_message(&mut self, message: Option<SnapshotEvent>) -> (go_on: bool)
        ensures
            go_on == message is Some,
            final(self)@ == match message {
                Some(event) => rates_after(old(self)@, event),
                None => old(self)@,
            },
            final(self).is_shown() == old(self).is_shown(),
    {
        match message {
            Some(event) => {
                self.apply(event);
                true
            },
            None => false,
        }
    }

    /// Whether there are no rates.
    fn is_empty(&self) -> (empty: bool)
        ensures
            empty == !shows_a_broker(self@),
    {
        let empty = self.brokers.is_empty();
        proof {
            if empty {
                assert(self@ =~= Map::<Seq<char>, Map<Seq<char>, serde_json::Value>>::empty());
            } else {
                assert(!(self.brokers@ =~= Map::<Seq<char>, StringMap<serde_json::Value>>::empty()));
                assert(exists|k: Seq<char>| self.brokers@.contains_key(k));
                let k = choose|k: Seq<char>| self.brokers@.contains_key(k);
                assert(self@.contains_key(k));
            }
        }
        empty
    }

    /// Whether the rates are written when it is time: not while there are none, unless the file
    /// still shows some.
    pub fn is_worth_writing(&self) -> (r: bool)
        ensures
            r == worth_writing(self@, self.is_shown()),
    {
        !self.is_empty() || self.shown
    }

    /// Takes note that the rates were written.
    pub fn on_written(&mut self)
        ensures
            final(self)@ == old(self)@,
            final(self).is_shown() == shows_a_broker(old(self)@),
    {
        self.shown = !self.is_empty();
    }

    /// The brokers with the values of their symbols, each broker once.
    pub fn entries(&self) -> (pairs: &Vec<(String, StringMap<serde_json::Value>)>)
        ensures
            string_map::distinct_keys(pairs@),
            inner_maps(string_map::pairs_map(pairs@)) == self@,
    {
        self.brokers.entries()
    }
}

/// The rates after several events.
pub open spec fn rates_after_all(
    rates: Map<Seq<char>, Map<Seq<char>, serde_json::Value>>,
    events: Seq<SnapshotEvent>,
) -> Map<Seq<char>, Map<Seq<char>, serde_json::Value>>
    decreases events.len(),
{
    if events.len() == 0 {
        rates
    } else {
        rates_after(rates_after_all(rates, events.drop_last()), events.last())
    }
}

/// Whether an event is about the broker.
pub open spec fn is_about(event: SnapshotEvent, broker: Seq<char>) -> bool {
    match event {
        SnapshotEvent::Update(id, _) => id@ == broker,
        SnapshotEvent::Removed(id) => id@ == broker,
    }
}

/// Events about other brokers change nothing of a broker.
pub proof fn law_brokers_do_not_mix(
    rates: Map<Seq<char>, Map<Seq<char>, serde_json::Value>>,
    events: Seq<SnapshotEvent>,
    broker: Seq<char>,
)
    requires
        forall|i: int| 0 <= i < events.len() ==> !is_about(#[trigger] events[i], broker),
    ensures
        rates_after_all(rates, events).contains_key(broker) == rates.contains_key(broker),
        values_of(rates_after_all(rates, events), broker) == values_of(rates, broker),
    decreases events.len(),
{
    if events.len() > 0 {
        let front = events.drop_last();
        assert forall|i: int| 0 <= i < front.len() implies !is_about(#[trigger] front[i], broker) by {
            assert(front[i] == events[i]);
        }
        law_brokers_do_not_mix(rates, front, broker);
        assert(!is_about(events[events.len() - 1], broker));
    }
}

/// A deleted broker is gone from the rates, and stays so until it is updated again.
pub proof fn law_deleted_broker_stays_gone(
    rates: Map<Seq<char>, Map<Seq<char>, serde_json::Value>>,
    broker: String,
    since: Seq<SnapshotEvent>,
)
    requires
        forall|i: int| 0 <= i < since.len() ==> !is_about(#[trigger] since[i], broker@),
    ensures
        !rates_after_all(rates_after(rates, SnapshotEvent::Removed(broker)), since).contains_key(
            broker@,
        ),
{
    law_brokers_do_not_mix(rates_after(rates, SnapshotEvent::Removed(broker)), since, broker@);
}

/// A deleted broker stops showing up in the file, also where it was the last one: once a file was
/// written that shows it, and it was removed, the next file is written and does not show it. Once
/// a file without brokers was written, there is nothing more to write.
pub proof fn law_deleted_broker_leaves_the_file(
    written: Map<Seq<char>, Map<Seq<char>, serde_json::Value>>,
    before: Seq<SnapshotEvent>,
    broker: String,
    since: Seq<SnapshotEvent>,
)
    requires
        written.contains_key(broker@),
        forall|i: int| 0 <= i < since.len() ==> !is_about(#[trigger] since[i], broker@),
    ensures
        ({
            let removed = rates_after(rates_after_all(written, before), SnapshotEvent::Removed(broker));
            let rates = rates_after_all(removed, since);
            &&& worth_writing(rates, shows_a_broker(written))
            &&& !rates.contains_key(broker@)
            &&& !shows_a_broker(rates) ==> !worth_writing(rates, shows_a_broker(rates))
        }),
{
    law_deleted_broker_stays_gone(rates_after_all(written, before), broker, since);
}

/// Merging a snapshot twice is merging it once, as the reader may send one again.
pub proof fn law_merging_again_changes_nothing(
    values: Map<Seq<char>, serde_json::Value>,
    snapshot: Map<Seq<char>, Seq<char>>,
)
    ensures
        merged(merged(values, snapshot), snapshot) == merged(values, snapshot),
{
    assert(merged(merged(values, snapshot), snapshot) =~= merged(values, snapshot));
}

/// The rates hold the latest message of each symbol: a symbol whose text is JSON has that value
/// from then on, until another update of the broker holds the symbol with a text that is JSON, or the
/// broker is removed.
pub proof fn law_latest_message_is_kept(
    rates: Map<Seq<char>, Map<Seq<char>, serde_json::Value>>,
    broker: String,
    snapshot: StringMap<String>,
    symbol: Seq<char>,
    since: Seq<SnapshotEvent>,
)
    requires
        readable(snapshot.texts(), symbol),
        forall|i: int|
            0 <= i < since.len() ==> {
                ||| !is_about(#[trigger] since[i], broker@)
                ||| since[i] matches SnapshotEvent::Update(_, s) && !readable(s.texts(), symbol)
            },
    ensures
        ({
            let after = rates_after_all(
                rates_after(rates, SnapshotEvent::Update(broker, snapshot)),
                since,
            );
            &&& after.contains_key(broker@)
            &&& after[broker@].contains_key(symbol)
            &&& after[broker@][symbol] == json::json_value(snapshot.texts()[symbol])->0
        }),
    decreases since.len(),
{
    if since.len() > 0 {
        let front = since.drop_last();
        assert forall|i: int| 0 <= i < front.len() implies {
            ||| !is_about(#[trigger] front[i], broker@)
            ||| front[i] matches SnapshotEvent::Update(_, s) && !readable(s.texts(), symbol)
        } by {
            assert(front[i] == since[i]);
        }
        law_latest_message_is_kept(rates, broker, snapshot, symbol, front);
        let last = since[since.len() - 1];
        assert(!is_about(last, broker@) || (last matches SnapshotEvent::Update(_, s)
            && !readable(s.texts(), symbol)));
    }
}

/// No symbol is lost by an update, and one whose text is no JSON keeps its value.
pub proof fn law_updates_lose_no_symbol(
    values: Map<Seq<char>, serde_json::Value>,
    snapshot: Map<Seq<char>, Seq<char>>,
    symbol: Seq<char>,
)
    requires
        values.contains_key(symbol),
    ensures
        merged(values, snapshot).contains_key(symbol),
        !readable(snapshot, symbol) ==> merged(values, snapshot)[symbol] == values[symbol],
{
}

}
