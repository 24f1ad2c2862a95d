//! The JSON writer's discovery of brokers. A scan of the stored keys finds the brokers; those that
//! are gone are no longer followed, and each new one is joined, seeded from its snapshot, and
//! followed. A [`Discovery`] decides what is done next; whoever drives it does so and reports back
//! what came of it.
use crate::broker_set::BrokerSet;
use crate::consumer_groups::{GroupReader, GroupReaderView, PhaseView};
use crate::rates::SnapshotEvent;
use crate::sequence;
use crate::string_map;
use crate::string_map::StringMap;
use crate::text;
use vstd::prelude::*;
use vstd::string::*;

verus! {

/// What the keys of broker hashes start with.
pub const BROKER_KEY_PREFIX: &'static str = "broker:";

/// The consumer group in which the writer reads.
pub const CONSUMER_GROUP: &'static str = "json-writer";

/// How many seconds pass between two scans for brokers.
pub const DISCOVERY_SECONDS: u64 = 30;

/// How many seconds pass before a scan that failed is tried again.
pub const SCAN_RETRY_SECONDS: u64 = 5;

/// How many milliseconds pass at least between two writes of the brokers.
pub const BROKERS_WRITE_MILLIS: u64 = 60000;

/// The key of a broker's hash.
pub open spec fn key_of(id: Seq<char>) -> Seq<char> {
    BROKER_KEY_PREFIX@ + id
}

/// The pattern that the keys of all broker hashes match.
pub fn broker_key_pattern() -> (pattern: String)
    ensures
        pattern@ == BROKER_KEY_PREFIX@ + "*"@,
{
    BROKER_KEY_PREFIX.to_owned().concat("*")
}

/// The ids of the brokers whose hashes are among `keys`.
pub open spec fn ids_among(keys: Seq<Seq<char>>) -> Set<Seq<char>> {
    Set::new(|id: Seq<char>| keys.contains(key_of(id)))
}

/// What is stored of a broker without what is secret: its key and its whitelist.
pub open spec fn public_part(hash: Map<Seq<char>, Seq<char>>) -> Map<Seq<char>, Seq<char>> {
    hash.remove("api_key"@).remove("allowed_ips"@)
}

/// What is stored of a broker without what is secret.
pub fn public_fields(hash: StringMap<String>) -> (r: StringMap<String>)
    ensures
        r.texts() == public_part(hash.texts()),
{
    let mut r = hash;
    let _ = r.remove("api_key");
    let _ = r.remove("allowed_ips");
    assert(r.texts() =~= public_part(hash.texts()));
    r
}

/// What a scan is at: the next key, or one broker, by its id, whose hash is read, whose consumer
/// group is joined, whose snapshot is read, or whose reader is started.
#[derive(Debug)]
pub enum Stage {
    Keys,
    Reading(String),
    Joining(String),
    Seeding(String),
    Starting(String),
}

/// The contents of a [`Stage`].
pub enum StageView {
    Keys,
    Reading(Seq<char>),
    Joining(Seq<char>),
    Seeding(Seq<char>),
    Starting(Seq<char>),
}

impl View for Stage {
    type V = StageView;

    open spec fn view(&self) -> StageView {
        match self {
            Stage::Keys => StageView::Keys,
            Stage::Reading(id) => StageView::Reading(id@),
            Stage::Joining(id) => StageView::Joining(id@),
            Stage::Seeding(id) => StageView::Seeding(id@),
            Stage::Starting(id) => StageView::Starting(id@),
        }
    }
}

/// What is done next, for a broker with the given id.
#[derive(Debug)]
pub enum DiscoveryAction {
    /// Its reader is stopped, and the rates are told that it was removed.
    Stop(String),
    /// Its hash, at the given key, is read.
    ReadBroker(String, String),
    /// The consumer group on its stream, at the given key, is made sure of.
    Join(String, String),
    /// Its snapshot, at the given key, is read.
    ReadSnapshot(String, String),
    /// A reader of its stream is started.
    StartReader(String),
    /// The scan is done.
    Finish,
}

/// The contents of a [`DiscoveryAction`].
pub enum ActionView {
    Stop(Seq<char>),
    ReadBroker(Seq<char>, Seq<char>),
    Join(Seq<char>, Seq<char>),
    ReadSnapshot(Seq<char>, Seq<char>),
    StartReader(Seq<char>),
    Finish,
}

impl View for DiscoveryAction {
    type V = ActionView;

    open spec fn view(&self) -> ActionView {
        match self {
            DiscoveryAction::Stop(id) => ActionView::Stop(id@),
            DiscoveryAction::ReadBroker(id, key) => ActionView::ReadBroker(id@, key@),
            DiscoveryAction::Join(id, key) => ActionView::Join(id@, key@),
            DiscoveryAction::ReadSnapshot(id, key) => ActionView::ReadSnapshot(id@, key@),
            DiscoveryAction::StartReader(id) => ActionView::StartReader(id@),
            DiscoveryAction::Finish => ActionView::Finish,
        }
    }
}

/// The discovery of brokers, from one scan to the next.
#[derive(Debug)]
pub struct Discovery {
    followed: BrokerSet,
    found: BrokerSet,
    gone: Vec<String>,
    keys: Vec<String>,
    brokers: StringMap<StringMap<String>>,
    stage: Stage,
}

/// The contents of the brokers' hashes.
pub open spec fn broker_texts(
    map: Map<Seq<char>, StringMap<String>>,
) -> Map<Seq<char>, Map<Seq<char>, Seq<char>>> {
    map.map_values(|m: StringMap<String>| m.texts())
}

/// The state of a [`Discovery`]: the brokers that are followed, those that the scan found, those
/// that are gone and still to be stopped, the keys still to be gone through, what was read of the
/// brokers so far, and what the scan is at.
#[verifier::ext_equal]
pub struct DiscoveryView {
    pub followed: Set<Seq<char>>,
    pub found: Set<Seq<char>>,
    pub gone: Seq<Seq<char>>,
    pub keys: Seq<Seq<char>>,
    pub brokers: Map<Seq<char>, Map<Seq<char>, Seq<char>>>,
    pub stage: StageView,
}

impl View for Discovery {
    type V = DiscoveryView;

    closed spec fn view(&self) -> DiscoveryView {
        DiscoveryView {
            followed: self.followed@,
            found: self.found@,
            gone: text::texts(self.gone@),
            keys: text::texts(self.keys@),
            brokers: broker_texts(self.brokers@),
            stage: self.stage@,
        }
    }
}

/// The keys from the first one on that is the key of a broker.
pub open spec fn from_broker_key(keys: Seq<Seq<char>>) -> Seq<Seq<char>>
    decreases keys.len(),
{
    if keys.len() == 0 || text::stripped(keys.first(), BROKER_KEY_PREFIX@) is Some {
        keys
    } else {
        from_broker_key(keys.drop_first())
    }
}

impl DiscoveryView {
    /// Whether `self` is the state in which a scan that found `keys` starts, after `before`. The
    /// brokers that are gone may be in any order.
    pub open spec fn starts_scan(self, before: DiscoveryView, keys: Seq<Seq<char>>) -> bool {
        &&& self.found == ids_among(keys)
        &&& self.followed == before.followed.intersect(self.found)
        &&& self.gone.no_duplicates()
        &&& self.gone.to_set() == before.followed.difference(self.found)
        &&& self.keys == keys
        &&& self.brokers == Map::<Seq<char>, Map<Seq<char>, Seq<char>>>::empty()
        &&& self.stage == StageView::Keys
    }

    /// The state once the next broker was chosen, where that is next.
    pub open spec fn advanced(self) -> DiscoveryView {
        if self.gone.len() == 0 && self.stage is Keys {
            let rest = from_broker_key(self.keys);
            if rest.len() == 0 {
                DiscoveryView { keys: rest, ..self }
            } else {
                DiscoveryView {
                    keys: rest.drop_first(),
                    stage: StageView::Reading(text::stripped(rest.first(), BROKER_KEY_PREFIX@)->0),
                    ..self
                }
            }
        } else {
            self
        }
    }

    /// What is done in this state: first, the readers of brokers that are gone are stopped.
    pub open spec fn action(self) -> ActionView {
        if self.gone.len() > 0 {
            ActionView::Stop(self.gone.last())
        } else {
            match self.stage {
                StageView::Keys => ActionView::Finish,
                StageView::Reading(id) => ActionView::ReadBroker(id, key_of(id)),
                StageView::Joining(id) => ActionView::Join(id, id + ":live"@),
                StageView::Seeding(id) => ActionView::ReadSnapshot(id, id + ":snapshot"@),
                StageView::Starting(id) => ActionView::StartReader(id),
            }
        }
    }

    /// The state once that is done, as far as nothing has to be reported back.
    pub open spec fn after_action(self) -> DiscoveryView {
        if self.gone.len() > 0 {
            DiscoveryView { gone: self.gone.drop_last(), ..self }
        } else if self.stage is Starting {
            DiscoveryView { stage: StageView::Keys, ..self }
        } else {
            self
        }
    }

    /// The state after a broker's hash was read, or could not be. Of the hash only the public
    /// part is kept. A broker that is not followed yet is from now on, and joined.
    pub open spec fn after_broker(self, hash: Option<Map<Seq<char>, Seq<char>>>) -> DiscoveryView {
        match self.stage {
            StageView::Reading(id) => DiscoveryView {
                brokers: match hash {
                    Some(hash) => self.brokers.insert(id, public_part(hash)),
                    None => self.brokers,
                },
                followed: self.followed.insert(id),
                stage: if self.followed.contains(id) {
                    StageView::Keys
                } else {
                    StageView::Joining(id)
                },
                ..self
            },
            _ => self,
        }
    }

    /// The state after a consumer group was made sure of, or could not be. In that case the
    /// broker is not followed, and the next scan tries again.
    pub open spec fn after_join(self, joined: bool) -> DiscoveryView {
        match self.stage {
            StageView::Joining(id) => if joined {
                DiscoveryView { stage: StageView::Seeding(id), ..self }
            } else {
                DiscoveryView { followed: self.followed.remove(id), stage: StageView::Keys, ..self }
            },
            _ => self,
        }
    }

    /// The state after a snapshot was read, or could not be.
    pub open spec fn after_snapshot(self) -> DiscoveryView {
        match self.stage {
            StageView::Seeding(id) => DiscoveryView { stage: StageView::Starting(id), ..self },
            _ => self,
        }
    }
}

/// The key of the stream of a broker's live messages.
pub fn live_key(id: &str) -> (key: String)
    ensures
        key@ == id@ + ":live"@,
{
    id.to_owned().concat(":live")
}

/// The key of the hash of a broker's latest messages.
pub fn snapshot_key(id: &str) -> (key: String)
    ensures
        key@ == id@ + ":snapshot"@,
{
    id.to_owned().concat(":snapshot")
}

/// The key of a broker has its id behind the prefix, and no other key has.
proof fn lemma_stripped_key(key: Seq<char>, id: Seq<char>)
    ensures
        text::stripped(key, BROKER_KEY_PREFIX@) == Some(id) <==> key == key_of(id),
{
    let n = BROKER_KEY_PREFIX@.len() as int;
    if key == key_of(id) {
        assert(BROKER_KEY_PREFIX@ =~= key.subrange(0, n));
        assert(key.skip(n) =~= id);
    }
    if text::stripped(key, BROKER_KEY_PREFIX@) == Some(id) {
        assert(key =~= BROKER_KEY_PREFIX@ + key.skip(n));
    }
}

/// The ids of the brokers whose hashes are among `keys`.
pub fn broker_ids(keys: &Vec<String>) -> (ids: BrokerSet)
    ensures
        ids@ == ids_among(text::texts(keys@)),
{
    let mut ids = BrokerSet::new();
    let ghost all = text::texts(keys@);
    let mut i: usize = 0;
    assert(ids@ =~= ids_among(all.take(0)));
    while i < keys.len()
        invariant
            i <= keys.len(),
            all == text::texts(keys@),
            ids@ == ids_among(all.take(i as int)),
        decreases keys.len() - i,
    {
        let ghost before = ids@;
        let ghost key = all[i as int];
        proof {
            assert(all.take(i + 1) =~= all.take(i as int).push(key));
            sequence::lemma_push_contains(all.take(i as int), key);
        }
        match text::strip_prefix(keys[i].as_str(), BROKER_KEY_PREFIX) {
            Some(id) => {
                let _ = ids.insert(id.to_owned());
                proof {
                    assert forall|x: Seq<char>| ids@.contains(x) <==> ids_among(all.take(i + 1)).contains(x) by {
                        lemma_stripped_key(key, x);
                    }
                }
            },
            None => {
                proof {
                    assert forall|x: Seq<char>| ids@.contains(x) <==> ids_among(all.take(i + 1)).contains(x) by {
                        lemma_stripped_key(key, x);
                    }
                }
            },
        }
        assert(ids@ =~= ids_among(all.take(i + 1)));
        i += 1;
    }
    assert(all.take(i as int) =~= all);
    ids
}

impl Discovery {
    /// Nothing is followed, and there is no scan.
    pub fn new() -> (r: Discovery)
        ensures
            r@ == (DiscoveryView {
                followed: Set::empty(),
                found: Set::empty(),
                gone: Seq::empty(),
                keys: Seq::empty(),
                brokers: Map::empty(),
                stage: StageView::Keys,
            }),
    {
        let r = Discovery {
            followed: BrokerSet::new(),
            found: BrokerSet::new(),
            gone: Vec::new(),
            keys: Vec::new(),
            brokers: StringMap::new(),
            stage: Stage::Keys,
        };
        assert(r@.gone =~= Seq::empty());
        assert(r@.keys =~= Seq::empty());
        assert(r@.brokers =~= Map::empty());
        r
    }

    /// Starts a scan that found `keys`.
    pub fn on_keys(&mut self, keys: Vec<String>)
        ensures
            final(self)@.starts_scan(old(self)@, text::texts(keys@)),
    {
        self.found = broker_ids(&keys);
        self.gone = self.followed.retain(&self.found);
        self.keys = keys;
        self.brokers = StringMap::new();
        self.stage = Stage::Keys;
        assert(self@.brokers =~= Map::empty());
    }

    /// Chooses the next broker, where that is next.
    fn advance(&mut self)
        ensures
            final(self)@ == old(self)@.advanced(),
    {
        let at_keys = match &self.stage {
            Stage::Keys => true,
            _ => false,
        };
        if self.gone.len() > 0 || !at_keys {
            return;
        }
        let ghost start = self@;
        while self.keys.len() > 0
            invariant
                self@ == (DiscoveryView { keys: self@.keys, ..start }),
                from_broker_key(self@.keys) == from_broker_key(start.keys),
                start.gone.len() == 0,
                start.stage is Keys,
                start == old(self)@,
            decreases self.keys.len(),
        {
            let ghost before = self@.keys;
            let key = self.keys.remove(0);
            proof {
                assert(before.first() == key@);
                assert(text::texts(self.keys@) =~= before.drop_first());
            }
            if let Some(id) = text::strip_prefix(key.as_str(), BROKER_KEY_PREFIX) {
                self.stage = Stage::Reading(id.to_owned());
                return;
            }
        }
    }

    /// What is done next.
    pub fn next(&mut self) -> (action: DiscoveryAction)
        ensures
            action@ == old(self)@.advanced().action(),
            final(self)@ == old(self)@.advanced().after_action(),
    {
        self.advance();
        let ghost now = self@;
        if let Some(id) = self.gone.pop() {
            proof {
                assert(now.gone.last() == id@);
                assert(text::texts(self.gone@) =~= now.gone.drop_last());
            }
            return DiscoveryAction::Stop(id);
        }
        let action = match &self.stage {
            Stage::Keys => DiscoveryAction::Finish,
            Stage::Reading(id) => DiscoveryAction::ReadBroker(
                id.clone(),
                BROKER_KEY_PREFIX.to_owned().concat(id.as_str()),
            ),
            Stage::Joining(id) => DiscoveryAction::Join(id.clone(), live_key(id.as_str())),
            Stage::Seeding(id) => DiscoveryAction::ReadSnapshot(id.clone(), snapshot_key(id.as_str())),
            Stage::Starting(id) => DiscoveryAction::StartReader(id.clone()),
        };
        if let DiscoveryAction::StartReader(_) = &action {
            self.stage = Stage::Keys;
        }
        action
    }

    /// Takes note of a broker's hash, `None` where it could not be read.
    pub fn on_broker(&mut self, hash: Option<StringMap<String>>)
        ensures
            final(self)@ == old(self)@.after_broker(
                match hash {
                    Some(hash) => Some(hash.texts()),
                    None => None,
                },
            ),
    {
        let ghost before = self@;
        let id = match &self.stage {
            Stage::Reading(id) => id.clone(),
            _ => return,
        };
        if let Some(hash) = hash {
            self.brokers.insert(id.clone(), public_fields(hash));
            assert(self@.brokers =~= before.brokers.insert(id@, public_part(hash.texts())));
        }
        if self.followed.insert(id.clone()) {
            self.stage = Stage::Joining(id);
        } else {
            self.stage = Stage::Keys;
        }
    }

    /// Takes note of whether the consumer group could be made sure of.
    pub fn on_joined(&mut self, joined: bool)
        ensures
            final(self)@ == old(self)@.after_join(joined),
    {
        let id = match &self.stage {
            Stage::Joining(id) => id.clone(),
            _ => return,
        };
        if joined {
            self.stage = Stage::Seeding(id);
        } else {
            self.followed.remove(id.as_str());
            self.stage = Stage::Keys;
        }
    }

    /// Takes note of a broker's snapshot, `None` where it could not be read. Gives what the rates
    /// are told: a snapshot that holds something, so that nothing is missed that came before the
    /// group was there.
    pub fn on_snapshot(&mut self, snapshot: Option<StringMap<String>>) -> (r: Option<SnapshotEvent>)
        ensures
            final(self)@ == old(self)@.after_snapshot(),
            match (old(self)@.stage, snapshot) {
                (StageView::Seeding(id), Some(s)) => if s.texts() == Map::<
                    Seq<char>,
                    Seq<char>,
                >::empty() {
                    r is None
                } else {
                    r matches Some(SnapshotEvent::Update(broker, given)) && broker@ == id && given == s
                },
                _ => r is None,
            },
    {
        let id = match &self.stage {
            Stage::Seeding(id) => id.clone(),
            _ => return None,
        };
        self.stage = Stage::Starting(id.clone());
        match snapshot {
            Some(s) => if s.is_absent() {
                None
            } else {
                Some(SnapshotEvent::Update(id, s))
            },
            None => None,
        }
    }

    /// What was read of the brokers in this scan, each broker once. It holds no secret.
    pub fn brokers(&self) -> (pairs: &Vec<(String, StringMap<String>)>)
        ensures
            string_map::distinct_keys(pairs@),
            broker_texts(string_map::pairs_map(pairs@)) == self@.brokers,
    {
        self.brokers.entries()
    }
}

/// The reader of a broker's stream, as the writer's one consumer for that broker.
pub fn reader_of(id: &str) -> (reader: GroupReader)
    ensures
        reader@ == (GroupReaderView {
            stream_key: id@ + ":live"@,
            group: CONSUMER_GROUP@,
            consumer: "json-writer-"@ + id@,
            phase: PhaseView::Disconnected,
            received: Seq::empty(),
        }),
{
    GroupReader::new(live_key(id), CONSUMER_GROUP.to_owned(), "json-writer-".to_owned().concat(id))
}

/// What the rates are told when an entry of a broker's stream came and its snapshot was read, or
/// could not be. The entry is acknowledged either way.
pub fn snapshot_update(id: &str, snapshot: Option<StringMap<String>>) -> (r: Option<SnapshotEvent>)
    ensures
        match snapshot {
            Some(s) => r matches Some(SnapshotEvent::Update(broker, given)) && broker@ == id@ && given
                == s,
            None => r is None,
        },
{
    match snapshot {
        Some(s) => Some(SnapshotEvent::Update(id.to_owned(), s)),
        None => None,
    }
}

/// When the brokers are written next, in milliseconds of some clock.
#[derive(Debug)]
pub struct WriteTimer {
    pub next: u64,
}

impl WriteTimer {
    /// The brokers are written as soon as there is something to write.
    pub fn new(now: u64) -> (timer: WriteTimer)
        ensures
            timer.next == now,
    {
        WriteTimer { next: now }
    }

    /// Whether it is time to write.
    pub fn is_due(&self, now: u64) -> (due: bool)
        ensures
            due == (now >= self.next),
    {
        now >= self.next
    }

    /// Takes note that the brokers were written, or could not be; the clock ends at its maximum.
    pub fn on_write(&mut self, now: u64)
        ensures
            final(self).next == if now + BROKERS_WRITE_MILLIS <= u64::MAX {
                now + BROKERS_WRITE_MILLIS
            } else {
                u64::MAX as int
            },
    {
        self.next = if now <= u64::MAX - BROKERS_WRITE_MILLIS {
            now + BROKERS_WRITE_MILLIS
        } else {
            u64::MAX
        };
    }
}

/// What can happen in the course of a scan: the next thing is done, or something is reported.
pub enum ScanEvent {
    Next,
    Broker(Option<Map<Seq<char>, Seq<char>>>),
    Joined(bool),
    Snapshot,
}

impl DiscoveryView {
    /// The state after something happened.
    pub open spec fn after(self, event: ScanEvent) -> DiscoveryView {
        match event {
            ScanEvent::Next => self.advanced().after_action(),
            ScanEvent::Broker(hash) => self.after_broker(hash),
            ScanEvent::Joined(joined) => self.after_join(joined),
            ScanEvent::Snapshot => self.after_snapshot(),
        }
    }

    /// The broker that the scan is at, where it is at one.
    pub open spec fn at(self) -> Option<Seq<char>> {
        match self.stage {
            StageView::Keys => None,
            StageView::Reading(id) => Some(id),
            StageView::Joining(id) => Some(id),
            StageView::Seeding(id) => Some(id),
            StageView::Starting(id) => Some(id),
        }
    }

    /// What holds throughout a scan: only brokers that the scan found are followed, chosen and
    /// kept; the brokers that are gone are none of them; a broker that is joined, seeded or
    /// started is followed; and nothing secret is kept.
    pub open spec fn is_sound(self) -> bool {
        &&& self.followed.subset_of(self.found)
        &&& forall|id: Seq<char>| #[trigger] self.gone.contains(id) ==> !self.found.contains(id)
        &&& forall|id: Seq<char>| self.keys.contains(#[trigger] key_of(id)) ==> self.found.contains(id)
        &&& self.at() matches Some(id) ==> self.found.contains(id)
        &&& !(self.stage is Reading) ==> (self.at() matches Some(id) ==> self.followed.contains(id))
        &&& self.brokers.dom().subset_of(self.found)
        &&& forall|id: Seq<char>| #[trigger]
            self.brokers.contains_key(id) ==> !self.brokers[id].contains_key("api_key"@)
                && !self.brokers[id].contains_key("allowed_ips"@)
    }

    /// Whether every broker that the scan found is still to come, or was handled: its hash is
    /// kept unless it is in `unread`, and it is followed unless it is in `unjoined`.
    pub open spec fn accounts_for(self, unread: Set<Seq<char>>, unjoined: Set<Seq<char>>) -> bool {
        forall|id: Seq<char>| #[trigger]
            self.found.contains(id) ==> {
                ||| self.keys.contains(key_of(id))
                ||| self.stage == StageView::Reading(id)
                ||| {
                    &&& self.brokers.contains_key(id) || unread.contains(id)
                    &&& self.followed.contains(id) || unjoined.contains(id)
                }
            }
    }
}

/// Skipping keys that are not those of brokers skips no broker.
proof fn lemma_from_broker_key(keys: Seq<Seq<char>>, id: Seq<char>)
    ensures
        from_broker_key(keys).contains(key_of(id)) <==> keys.contains(key_of(id)),
        from_broker_key(keys).len() > 0 ==> text::stripped(
            from_broker_key(keys).first(),
            BROKER_KEY_PREFIX@,
        ) is Some,
    decreases keys.len(),
{
    if keys.len() > 0 && text::stripped(keys.first(), BROKER_KEY_PREFIX@) is None {
        lemma_from_broker_key(keys.drop_first(), id);
        lemma_stripped_key(keys.first(), id);
        lemma_front(keys, key_of(id));
    }
}

proof fn lemma_front(keys: Seq<Seq<char>>, key: Seq<char>)
    requires
        keys.len() > 0,
    ensures
        keys.contains(key) <==> key == keys.first() || keys.drop_first().contains(key),
{
    if keys.contains(key) {
        let i = choose|i: int| 0 <= i < keys.len() && keys[i] == key;
        if i > 0 {
            assert(keys.drop_first()[i - 1] == key);
        }
    }
    if keys.drop_first().contains(key) {
        let i = choose|i: int| 0 <= i < keys.drop_first().len() && keys.drop_first()[i] == key;
        assert(keys[i + 1] == key);
    }
}

/// A scan starts soundly, with every broker that it found still to come.
pub proof fn law_scan_starts_soundly(before: DiscoveryView, after: DiscoveryView, keys: Seq<Seq<char>>)
    requires
        after.starts_scan(before, keys),
    ensures
        after.is_sound(),
        after.accounts_for(Set::empty(), Set::empty()),
{
    assert forall|id: Seq<char>| #[trigger] after.gone.contains(id) implies !after.found.contains(id) by {
        assert(after.gone.to_set().contains(id));
    }
}

/// Whatever happens in the course of a scan, it stays sound: in particular, only brokers that
/// are stored are followed, and no key and no whitelist gets into what is written of the brokers.
pub proof fn law_scan_stays_sound(state: DiscoveryView, event: ScanEvent)
    requires
        state.is_sound(),
    ensures
        state.after(event).is_sound(),
{
    let after = state.after(event);
    match event {
        ScanEvent::Next => {
            let now = state.advanced();
            assert forall|id: Seq<char>| now.keys.contains(#[trigger] key_of(id)) implies now.found.contains(id) by {
                lemma_from_broker_key(state.keys, id);
                if from_broker_key(state.keys).len() > 0 {
                    lemma_front(from_broker_key(state.keys), key_of(id));
                }
            }
            if state.gone.len() == 0 && state.stage is Keys && from_broker_key(state.keys).len() > 0 {
                let rest = from_broker_key(state.keys);
                let id = text::stripped(rest.first(), BROKER_KEY_PREFIX@)->0;
                lemma_from_broker_key(state.keys, id);
                lemma_stripped_key(rest.first(), id);
                assert(rest.contains(rest.first()));
                assert(state.found.contains(id));
            }
            assert(now.is_sound());
            assert forall|id: Seq<char>| #[trigger] after.gone.contains(id) implies !after.found.contains(id) by {
                let i = choose|i: int| 0 <= i < after.gone.len() && after.gone[i] == id;
                assert(now.gone[i] == id);
                assert(now.gone.contains(id));
            }
        },
        ScanEvent::Broker(hash) => {
            if let StageView::Reading(id) = state.stage {
                assert(after.brokers.dom().subset_of(state.found));
            }
        },
        ScanEvent::Joined(_) => {},
        ScanEvent::Snapshot => {},
    }
}

/// A scan goes through all brokers that it found: what happens in its course leaves none
/// unaccounted for, where a hash that cannot be read and a group that cannot be joined are.
pub proof fn law_scan_accounts_for_all(
    state: DiscoveryView,
    event: ScanEvent,
    unread: Set<Seq<char>>,
    unjoined: Set<Seq<char>>,
)
    requires
        state.is_sound(),
        state.accounts_for(unread, unjoined),
    ensures
        match (event, state.at()) {
            (ScanEvent::Broker(None), Some(id)) => state.after(event).accounts_for(
                unread.insert(id),
                unjoined,
            ),
            (ScanEvent::Joined(false), Some(id)) => state.after(event).accounts_for(
                unread,
                unjoined.insert(id),
            ),
            _ => state.after(event).accounts_for(unread, unjoined),
        },
{
    let after = state.after(event);
    match event {
        ScanEvent::Next => {
            let now = state.advanced();
            let rest = from_broker_key(state.keys);
            assert forall|id: Seq<char>| #[trigger] now.found.contains(id) implies {
                ||| now.keys.contains(key_of(id))
                ||| now.stage == StageView::Reading(id)
                ||| {
                    &&& now.brokers.contains_key(id) || unread.contains(id)
                    &&& now.followed.contains(id) || unjoined.contains(id)
                }
            } by {
                assert(state.found.contains(id));
                lemma_from_broker_key(state.keys, id);
                if rest.len() > 0 {
                    lemma_front(rest, key_of(id));
                    lemma_stripped_key(rest.first(), id);
                }
            }
            assert(now.accounts_for(unread, unjoined));
            assert forall|id: Seq<char>| #[trigger] after.found.contains(id) implies {
                ||| after.keys.contains(key_of(id))
                ||| after.stage == StageView::Reading(id)
                ||| {
                    &&& after.brokers.contains_key(id) || unread.contains(id)
                    &&& after.followed.contains(id) || unjoined.contains(id)
                }
            } by {
                assert(now.found.contains(id));
            }
        },
        _ => {
            assert(after.found == state.found && after.keys == state.keys);
        },
    }
}

/// A scan that is done has read the hash of each broker that it found, and follows it, unless
/// that failed.
pub proof fn law_finished_scan_is_complete(
    state: DiscoveryView,
    unread: Set<Seq<char>>,
    unjoined: Set<Seq<char>>,
    id: Seq<char>,
)
    requires
        state.is_sound(),
        state.accounts_for(unread, unjoined),
        state.advanced().action() is Finish,
        state.found.contains(id),
    ensures
        state.brokers.contains_key(id) || unread.contains(id),
        state.followed.contains(id) || unjoined.contains(id),
{
    lemma_from_broker_key(state.keys, id);
}

}
