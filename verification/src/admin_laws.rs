//! What holds of the admin API across its requests.
use crate::admin;
use crate::admin::NewBrokerView;
use crate::api_error::ApiErrorView;
use crate::broker_keys;
use crate::listing;
use crate::listing::SummaryView;
use crate::namespace;
use crate::secret;
use crate::text;
use crate::whitelist;
use vstd::prelude::*;

verus! {

/// The names of a broker's fields differ from each other.
pub proof fn lemma_field_names_differ()
    ensures
        "id"@ != "name"@,
        "id"@ != "api_key"@,
        "id"@ != "allowed_ips"@,
        "id"@ != "open_account_url"@,
        "id"@ != "logo"@,
        "id"@ != "symbol_map"@,
        "name"@ != "api_key"@,
        "name"@ != "allowed_ips"@,
        "name"@ != "open_account_url"@,
        "name"@ != "logo"@,
        "name"@ != "symbol_map"@,
        "api_key"@ != "allowed_ips"@,
        "api_key"@ != "open_account_url"@,
        "api_key"@ != "logo"@,
        "api_key"@ != "symbol_map"@,
        "allowed_ips"@ != "open_account_url"@,
        "allowed_ips"@ != "logo"@,
        "allowed_ips"@ != "symbol_map"@,
        "open_account_url"@ != "logo"@,
        "open_account_url"@ != "symbol_map"@,
        "logo"@ != "symbol_map"@,
{
    reveal_strlit("id");
    reveal_strlit("name");
    reveal_strlit("api_key");
    reveal_strlit("allowed_ips");
    reveal_strlit("open_account_url");
    reveal_strlit("logo");
    reveal_strlit("symbol_map");
    assert("id"@.len() == 2 && "name"@.len() == 4 && "api_key"@.len() == 7 && "allowed_ips"@.len() == 11);
    assert("open_account_url"@.len() == 16 && "logo"@.len() == 4 && "symbol_map"@.len() == 10);
    assert("name"@[0] != "logo"@[0]);
}

/// The hash of a broker that was just created.
pub open spec fn created_hash(broker: NewBrokerView, api_key: Seq<char>) -> Map<Seq<char>, Seq<char>> {
    admin::with_fields(Map::empty(), admin::new_fields(broker, api_key))
}

/// A created hash holds each of the fields that were set, and no other.
pub proof fn law_created_hash_holds_its_fields(broker: NewBrokerView, api_key: Seq<char>)
    ensures
        created_hash(broker, api_key) == map![
            "id"@ => broker.id,
            "name"@ => broker.name,
            "api_key"@ => secret::digest_text(api_key),
            "allowed_ips"@ => broker.allowed_ips,
            "open_account_url"@ => broker.open_account_url,
            "logo"@ => broker.logo,
        ],
        admin::is_stored(created_hash(broker, api_key)),
{
    let fields = admin::new_fields(broker, api_key);
    reveal_with_fuel(admin::with_fields, 7);
    lemma_field_names_differ();
    assert(fields.drop_last().drop_last().drop_last().drop_last().drop_last().drop_last().len() == 0);
    assert(created_hash(broker, api_key).contains_key("logo"@));
}

/// What is stored of a key is not the key: a digest has twice as many digits.
pub proof fn law_the_key_itself_is_not_stored(broker: NewBrokerView, api_key: Seq<char>)
    requires
        secret::is_api_key(api_key),
    ensures
        secret::digest_text(api_key).len() == 128 ==> created_hash(broker, api_key)["api_key"@] != api_key,
{
    law_created_hash_holds_its_fields(broker, api_key);
    lemma_field_names_differ();
}

/// Setting one field changes that field and keeps the others.
pub proof fn law_setting_a_field_keeps_the_others(
    hash: Map<Seq<char>, Seq<char>>,
    name: Seq<char>,
    value: Seq<char>,
)
    ensures
        admin::with_fields(hash, seq![(name, value)]) == hash.insert(name, value),
{
    assert(seq![(name, value)].drop_last() =~= Seq::empty());
    assert(admin::with_fields(hash, seq![(name, value)].drop_last()) == hash);
}

/// A created broker is listed under its id with what was asked for, and with a key.
pub proof fn law_created_broker_reads_back(broker: NewBrokerView, api_key: Seq<char>)
    ensures
        ({
            let hash = created_hash(broker, api_key);
            listing::summary(listing::stored_id(admin::key_of(broker.id), hash), hash) == SummaryView {
                id: broker.id,
                name: broker.name,
                has_key: secret::digest_text(api_key).len() > 0,
                allowed_ips: whitelist::list_entries(broker.allowed_ips),
                open_account_url: broker.open_account_url,
                logo: if broker.logo.len() > 0 { Some(broker.logo) } else { None },
            }
        }),
{
    law_created_hash_holds_its_fields(broker, api_key);
    lemma_field_names_differ();
}

/// A broker whose request was accepted has an id and a name that are not empty, and an id that
/// fits into keys; trimming changes neither. Its whitelist holds the entries that were given, each
/// where it first occurred.
pub proof fn law_accepted_broker_is_clean(body: admin::CreateBroker)
    requires
        admin::requested_broker(body) is Ok,
    ensures
        ({
            let broker = admin::requested_broker(body)->Ok_0;
            &&& admin::is_clean(broker.id)
            &&& broker.id.len() > 0
            &&& broker.name.len() > 0
            &&& text::trimmed(broker.id) == broker.id
            &&& text::trimmed(broker.name) == broker.name
            &&& whitelist::list_entries(broker.allowed_ips) == whitelist::once_each(
                whitelist::all_entries(text::texts(body.allowed_ips@)),
            )
        }),
{
    text::lemma_trimmed(body.id@);
    text::lemma_trimmed(body.name@);
    whitelist::law_stored_list_reads_back(text::texts(body.allowed_ips@));
}

/// What clients are told of a broker does not depend on its key, but for whether there is one.
pub proof fn law_summary_hides_the_key(
    id: Seq<char>,
    hash: Map<Seq<char>, Seq<char>>,
    first: Seq<char>,
    second: Seq<char>,
)
    requires
        first.len() > 0 <==> second.len() > 0,
    ensures
        listing::summary(id, hash.insert("api_key"@, first)) == listing::summary(
            id,
            hash.insert("api_key"@, second),
        ),
{
    lemma_field_names_differ();
}

/// Changing the logo changes nothing else of what clients are told.
pub proof fn law_logo_update(id: Seq<char>, hash: Map<Seq<char>, Seq<char>>, logo: Seq<char>)
    ensures
        listing::summary(id, admin::with_fields(hash, seq![("logo"@, logo)])) == (SummaryView {
            logo: if logo.len() > 0 { Some(logo) } else { None },
            ..listing::summary(id, hash)
        }),
{
    law_setting_a_field_keeps_the_others(hash, "logo"@, logo);
    lemma_field_names_differ();
}

/// Changing the address of the account page changes nothing else of what clients are told.
pub proof fn law_open_account_url_update(id: Seq<char>, hash: Map<Seq<char>, Seq<char>>, url: Seq<char>)
    ensures
        listing::summary(id, admin::with_fields(hash, seq![("open_account_url"@, url)])) == (SummaryView {
            open_account_url: url,
            ..listing::summary(id, hash)
        }),
{
    law_setting_a_field_keeps_the_others(hash, "open_account_url"@, url);
    lemma_field_names_differ();
}

/// Changing the whitelist changes nothing else of what clients are told, and they are told the
/// entries that were given, each where it first occurred.
pub proof fn law_allowed_ips_update(
    id: Seq<char>,
    hash: Map<Seq<char>, Seq<char>>,
    lists: Seq<Seq<char>>,
)
    requires
        whitelist::normalized(lists) is Ok,
    ensures
        listing::summary(
            id,
            admin::with_fields(hash, seq![("allowed_ips"@, whitelist::normalized(lists)->Ok_0)]),
        ) == (SummaryView {
            allowed_ips: whitelist::once_each(whitelist::all_entries(lists)),
            ..listing::summary(id, hash)
        }),
{
    let list = whitelist::normalized(lists)->Ok_0;
    law_setting_a_field_keeps_the_others(hash, "allowed_ips"@, list);
    whitelist::law_stored_list_reads_back(lists);
    lemma_field_names_differ();
}

/// Issuing a new key changes nothing else of what clients are told.
pub proof fn law_key_update(id: Seq<char>, hash: Map<Seq<char>, Seq<char>>, digest: Seq<char>)
    ensures
        listing::summary(id, admin::with_fields(hash, seq![("api_key"@, digest)])) == (SummaryView {
            has_key: digest.len() > 0,
            ..listing::summary(id, hash)
        }),
{
    law_setting_a_field_keeps_the_others(hash, "api_key"@, digest);
    lemma_field_names_differ();
}

/// Brokers with different ids are stored at different keys, and a key gives back its id.
pub proof fn law_keys_tell_brokers_apart(a: Seq<char>, b: Seq<char>)
    ensures
        admin::key_of(a) == admin::key_of(b) ==> a == b,
        text::stripped(admin::key_of(a), admin::BROKER_KEY_PREFIX@) == Some(a),
{
    let n = admin::BROKER_KEY_PREFIX@.len() as int;
    assert(admin::key_of(a).skip(n) =~= a);
    assert(admin::key_of(b).skip(n) =~= b);
    assert(admin::BROKER_KEY_PREFIX@ =~= admin::key_of(a).subrange(0, n));
}

/// The first colon in a text that starts with a clean id ends the id.
proof fn lemma_clean_start(a: Seq<char>, x: Seq<char>, b: Seq<char>, y: Seq<char>)
    requires
        !a.contains(':'),
        !b.contains(':'),
        x.len() > 0 && x[0] == ':',
        y.len() > 0 && y[0] == ':',
        a + x == b + y,
    ensures
        a == b,
        x == y,
{
    assert((a + x)[a.len() as int] == ':');
    assert((b + y)[b.len() as int] == ':');
    if a.len() < b.len() {
        assert((b + y)[a.len() as int] == b[a.len() as int]);
        assert(b.contains(':'));
    }
    if b.len() < a.len() {
        assert((a + x)[b.len() as int] == a[b.len() as int]);
        assert(a.contains(':'));
    }
    assert(a =~= (a + x).take(a.len() as int));
    assert(b =~= (b + y).take(b.len() as int));
    assert(x =~= (a + x).skip(a.len() as int));
    assert(y =~= (b + y).skip(b.len() as int));
}

/// The last colon in a text that ends with a clean id, and what follows it, starts the id.
proof fn lemma_clean_end(p: Seq<char>, a: Seq<char>, q: Seq<char>, b: Seq<char>, end: Seq<char>)
    requires
        !a.contains(':'),
        !b.contains(':'),
        p.len() > 0 && p.last() == ':',
        q.len() > 0 && q.last() == ':',
        p + a + end == q + b + end,
    ensures
        p == q,
        a == b,
{
    let s = p + a;
    let t = q + b;
    assert(s + end == t + end);
    assert((s + end).len() == s.len() + end.len());
    assert((t + end).len() == t.len() + end.len());
    assert(s =~= (s + end).take(s.len() as int));
    assert(t =~= (t + end).take(t.len() as int));
    if p.len() < q.len() {
        assert(s[q.len() - 1] == a[q.len() - 1 - p.len()]);
        assert(t[q.len() - 1] == ':');
        assert(a.contains(':'));
    }
    if q.len() < p.len() {
        assert(t[p.len() - 1] == b[p.len() - 1 - q.len()]);
        assert(s[p.len() - 1] == ':');
        assert(b.contains(':'));
    }
    assert(p =~= s.take(p.len() as int));
    assert(q =~= t.take(q.len() as int));
    assert(a =~= s.skip(p.len() as int));
    assert(b =~= t.skip(q.len() as int));
}

/// What the keys that the collector fills start with, up to the id.
spec fn feed_start(namespace: Seq<char>) -> Seq<char> {
    namespace + ":"@ + "brokers:"@
}

/// The start of the collector's keys has a colon inside, so it is not that of the admin API's.
proof fn lemma_feed_start(namespace: Seq<char>)
    ensures
        feed_start(namespace).len() > 0 && feed_start(namespace).last() == ':',
        feed_start(namespace) != "tradingbutler:"@,
{
    reveal_strlit("tradingbutler:");
    reveal_strlit(":");
    reveal_strlit("brokers:");
    let start = feed_start(namespace);
    let n = namespace.len() as int;
    assert(start[n] == ':');
    assert(n < start.len() - 1);
    if start == "tradingbutler:"@ {
        assert("tradingbutler:"@[n] != ':');
    }
}

/// A key that the collector fills is not that of a hash of the admin API.
proof fn lemma_feed_key_is_no_hash(namespace: Seq<char>, id: Seq<char>, other: Seq<char>, word: Seq<char>)
    requires
        !id.contains(':'),
        !other.contains(':'),
        !word.contains(':'),
    ensures
        feed_start(namespace) + id + (":"@ + word) != admin::key_of(other),
{
    reveal_strlit("tradingbutler:broker:");
    reveal_strlit("tradingbutler:");
    reveal_strlit("broker");
    reveal_strlit(":");
    lemma_feed_start(namespace);
    let none = Seq::<char>::empty();
    let start = feed_start(namespace);
    let front = start + id + ":"@;
    let prefix = "tradingbutler:broker:"@;
    if start + id + (":"@ + word) == admin::key_of(other) {
        assert(start + id + (":"@ + word) =~= front + word + none);
        assert(admin::key_of(other) =~= prefix + other + none);
        lemma_clean_end(front, word, prefix, other, none);
        assert(prefix =~= "tradingbutler:"@ + "broker"@ + ":"@);
        assert(!"broker"@.contains(':'));
        lemma_clean_end(start, id, "tradingbutler:"@, "broker"@, ":"@);
    }
}

/// Keys of streams and keys of snapshots end differently.
proof fn lemma_ends_differ(a: Seq<char>, b: Seq<char>)
    ensures
        a + ":live"@ != b + ":snapshot"@,
{
    reveal_strlit(":live");
    reveal_strlit(":snapshot");
    assert((a + ":live"@).last() == 'e');
    assert((b + ":snapshot"@).last() == 't');
}

/// Deleting a broker deletes nothing of another one: not its hash, where the deleted id is not
/// `broker`, and neither its stream nor its snapshot, where the other id is not `broker`. With
/// that id, the key of a stream or a snapshot is the key of a hash. What the collector fills for
/// the other broker stays in any case.
pub proof fn law_deleting_keeps_other_brokers(namespace: Seq<char>, id: Seq<char>, other: Seq<char>)
    requires
        admin::is_clean(id),
        admin::is_clean(other),
        id != other,
    ensures
        ({
            let deleted = admin::deleted_keys(namespace, id);
            &&& id != "broker"@ ==> !deleted.contains(admin::key_of(other))
            &&& other != "broker"@ ==> !deleted.contains(admin::live_key(other))
                && !deleted.contains(admin::snapshot_key(other))
            &&& !deleted.contains(namespace::key_in(namespace, broker_keys::live_key_of(other)))
            &&& !deleted.contains(namespace::key_in(namespace, broker_keys::snapshot_key_of(other)))
        }),
{
    assert(!id.contains(':'));
    assert(!other.contains(':'));
    lemma_own_keys_differ(id, other);
    lemma_feed_keys_differ(namespace, id, other);
    lemma_feed_keys_differ(namespace, other, id);
}

/// The keys of two brokers in the admin API differ, but for the id `broker`.
proof fn lemma_own_keys_differ(id: Seq<char>, other: Seq<char>)
    requires
        !id.contains(':'),
        !other.contains(':'),
        id != other,
    ensures
        admin::key_of(id) != admin::key_of(other),
        id != "broker"@ ==> admin::live_key(id) != admin::key_of(other) && admin::snapshot_key(id)
            != admin::key_of(other),
        other != "broker"@ ==> admin::key_of(id) != admin::live_key(other) && admin::key_of(id)
            != admin::snapshot_key(other),
        admin::live_key(id) != admin::live_key(other),
        admin::live_key(id) != admin::snapshot_key(other),
        admin::snapshot_key(id) != admin::live_key(other),
        admin::snapshot_key(id) != admin::snapshot_key(other),
{
    reveal_strlit("tradingbutler:broker:");
    reveal_strlit("tradingbutler:");
    reveal_strlit("broker");
    reveal_strlit(":live");
    reveal_strlit(":snapshot");
    let base = "tradingbutler:"@;
    let colon = seq![':'];
    assert(!"broker"@.contains(':'));
    assert(admin::key_of(id) =~= base + ("broker"@ + (colon + id)));
    assert(admin::key_of(other) =~= base + ("broker"@ + (colon + other)));
    assert(admin::live_key(id) =~= base + (id + ":live"@));
    assert(admin::live_key(other) =~= base + (other + ":live"@));
    assert(admin::snapshot_key(id) =~= base + (id + ":snapshot"@));
    assert(admin::snapshot_key(other) =~= base + (other + ":snapshot"@));
    law_keys_tell_brokers_apart(id, other);
    lemma_same_rest(base, id, ":live"@, "broker"@, colon + other);
    lemma_same_rest(base, id, ":snapshot"@, "broker"@, colon + other);
    lemma_same_rest(base, other, ":live"@, "broker"@, colon + id);
    lemma_same_rest(base, other, ":snapshot"@, "broker"@, colon + id);
    lemma_same_rest(base, id, ":live"@, other, ":live"@);
    lemma_same_rest(base, id, ":snapshot"@, other, ":snapshot"@);
    lemma_ends_differ(base + id, base + other);
    lemma_ends_differ(base + other, base + id);
}

/// The keys that the collector fills for a broker are none of another broker.
proof fn lemma_feed_keys_differ(namespace: Seq<char>, id: Seq<char>, other: Seq<char>)
    requires
        !id.contains(':'),
        !other.contains(':'),
        id != other,
    ensures
        ({
            let live = namespace::key_in(namespace, broker_keys::live_key_of(id));
            let snapshot = namespace::key_in(namespace, broker_keys::snapshot_key_of(id));
            &&& live != admin::key_of(other) && snapshot != admin::key_of(other)
            &&& live != admin::live_key(other) && snapshot != admin::live_key(other)
            &&& live != admin::snapshot_key(other) && snapshot != admin::snapshot_key(other)
            &&& live != namespace::key_in(namespace, broker_keys::live_key_of(other))
            &&& live != namespace::key_in(namespace, broker_keys::snapshot_key_of(other))
            &&& snapshot != namespace::key_in(namespace, broker_keys::live_key_of(other))
            &&& snapshot != namespace::key_in(namespace, broker_keys::snapshot_key_of(other))
        }),
{
    reveal_strlit("tradingbutler:");
    reveal_strlit(":live");
    reveal_strlit(":snapshot");
    reveal_strlit("live");
    reveal_strlit("snapshot");
    reveal_strlit(":");
    lemma_feed_start(namespace);
    let start = feed_start(namespace);
    let base = "tradingbutler:"@;
    let live = namespace::key_in(namespace, broker_keys::live_key_of(id));
    let snapshot = namespace::key_in(namespace, broker_keys::snapshot_key_of(id));
    let other_live = namespace::key_in(namespace, broker_keys::live_key_of(other));
    let other_snapshot = namespace::key_in(namespace, broker_keys::snapshot_key_of(other));
    assert(live =~= start + id + ":live"@);
    assert(snapshot =~= start + id + ":snapshot"@);
    assert(other_live =~= start + other + ":live"@);
    assert(other_snapshot =~= start + other + ":snapshot"@);
    assert(":live"@ =~= ":"@ + "live"@);
    assert(":snapshot"@ =~= ":"@ + "snapshot"@);
    assert(!"live"@.contains(':'));
    assert(!"snapshot"@.contains(':'));
    lemma_feed_key_is_no_hash(namespace, id, other, "live"@);
    lemma_feed_key_is_no_hash(namespace, id, other, "snapshot"@);
    lemma_ends_differ(start + id, base + other);
    lemma_ends_differ(base + other, start + id);
    lemma_ends_differ(start + id, start + other);
    lemma_ends_differ(start + other, start + id);
    if live == admin::live_key(other) {
        lemma_clean_end(start, id, base, other, ":live"@);
    }
    if snapshot == admin::snapshot_key(other) {
        lemma_clean_end(start, id, base, other, ":snapshot"@);
    }
    if live == other_live {
        lemma_clean_end(start, id, start, other, ":live"@);
    }
    if snapshot == other_snapshot {
        lemma_clean_end(start, id, start, other, ":snapshot"@);
    }
}

/// Deleting a broker undoes creating it: the store holds again what it held before, where it held
/// nothing of the broker.
pub proof fn law_deleting_undoes_creating(
    store: Map<Seq<char>, Map<Seq<char>, Seq<char>>>,
    namespace: Seq<char>,
    broker: NewBrokerView,
    api_key: Seq<char>,
)
    requires
        forall|key: Seq<char>| #[trigger]
            admin::deleted_keys(namespace, broker.id).contains(key) ==> !store.contains_key(key),
    ensures
        store.insert(admin::key_of(broker.id), created_hash(broker, api_key)).remove_keys(
            admin::deleted_keys(namespace, broker.id).to_set(),
        ) == store,
{
    let keys = admin::deleted_keys(namespace, broker.id);
    let after = store.insert(admin::key_of(broker.id), created_hash(broker, api_key)).remove_keys(
        keys.to_set(),
    );
    assert(keys[0] == admin::key_of(broker.id));
    assert(keys.contains(admin::key_of(broker.id)));
    assert forall|key: Seq<char>| after.contains_key(key) <==> store.contains_key(key) by {
        if keys.to_set().contains(key) {
            assert(keys.contains(key));
        }
    }
    assert(after =~= store);
}

proof fn lemma_same_rest(base: Seq<char>, a: Seq<char>, x: Seq<char>, b: Seq<char>, y: Seq<char>)
    requires
        !a.contains(':'),
        !b.contains(':'),
        x.len() > 0 && x[0] == ':',
        y.len() > 0 && y[0] == ':',
    ensures
        base + (a + x) == base + (b + y) ==> a == b && x == y,
{
    if base + (a + x) == base + (b + y) {
        assert(a + x =~= (base + (a + x)).skip(base.len() as int));
        assert(b + y =~= (base + (b + y)).skip(base.len() as int));
        lemma_clean_start(a, x, b, y);
    }
}

/// An accepted request gives a broker with each text of the request without the white space around
/// it, whatever the other texts are.
pub proof fn law_accepted_texts_are_kept(body: admin::CreateBroker)
    requires
        admin::requested_broker(body) is Ok,
    ensures
        ({
            let broker = admin::requested_broker(body)->Ok_0;
            &&& broker.id == text::trimmed(body.id@)
            &&& broker.name == text::trimmed(body.name@)
            &&& broker.open_account_url == text::trimmed(body.open_account_url@)
            &&& broker.logo == text::trimmed(body.logo@)
            &&& whitelist::normalized(text::texts(body.allowed_ips@)) == Ok::<Seq<char>, Seq<char>>(
                broker.allowed_ips,
            )
        }),
{
}

/// What becomes of one text of a request does not depend on the others: two requests with the same
/// id, name and whitelist are accepted or refused alike, and two accepted requests give brokers
/// that differ only where the requests do.
pub proof fn law_texts_of_a_request_do_not_mix(a: admin::CreateBroker, b: admin::CreateBroker)
    ensures
        ({
            let x = admin::requested_broker(a);
            let y = admin::requested_broker(b);
            &&& a.id@ == b.id@ && a.name@ == b.name@ && text::texts(a.allowed_ips@) == text::texts(b.allowed_ips@)
                ==> (x is Ok <==> y is Ok) && (x is Err && y is Err ==> x == y)
            &&& x is Ok && y is Ok ==> {
                &&& a.id@ == b.id@ ==> x->Ok_0.id == y->Ok_0.id
                &&& a.name@ == b.name@ ==> x->Ok_0.name == y->Ok_0.name
                &&& a.open_account_url@ == b.open_account_url@ ==> x->Ok_0.open_account_url
                    == y->Ok_0.open_account_url
                &&& a.logo@ == b.logo@ ==> x->Ok_0.logo == y->Ok_0.logo
                &&& text::texts(a.allowed_ips@) == text::texts(b.allowed_ips@) ==> x->Ok_0.allowed_ips
                    == y->Ok_0.allowed_ips
            }
        }),
{
}

/// A request is accepted exactly where its id and its name hold more than white space, the id,
/// without the white space around it, holds neither white space nor a colon, and every entry of its
/// whitelist is accepted. What is wrong first is what it is refused for.
pub proof fn law_which_requests_are_accepted(body: admin::CreateBroker)
    ensures
        ({
            let r = admin::requested_broker(body);
            let id = text::trimmed(body.id@);
            let name = text::trimmed(body.name@);
            let blank = id.len() == 0 || name.len() == 0;
            let unclean = exists|c: char| #[trigger] id.contains(c) && (text::is_white_space(c) || c == ':');
            let list = whitelist::normalized(text::texts(body.allowed_ips@));
            &&& r is Ok <==> !blank && !unclean && list is Ok
            &&& blank ==> r == Err::<NewBrokerView, ApiErrorView>(
                ApiErrorView::BadRequest("id and name are required"@),
            )
            &&& !blank && unclean ==> r == Err::<NewBrokerView, ApiErrorView>(
                ApiErrorView::BadRequest("id must not contain spaces or ':'"@),
            )
            &&& !blank && !unclean && list is Err ==> r == Err::<NewBrokerView, ApiErrorView>(
                ApiErrorView::BadRequest(list->Err_0),
            )
        }),
{
    let id = text::trimmed(body.id@);
    if admin::is_clean(id) {
        assert forall|c: char| #[trigger] id.contains(c) implies !(text::is_white_space(c) || c == ':') by {
            let i = choose|i: int| 0 <= i < id.len() && id[i] == c;
            assert(!text::is_white_space(id[i]) && id[i] != ':');
        }
    } else {
        let i = choose|i: int| 0 <= i < id.len() && !(!text::is_white_space(#[trigger] id[i]) && id[i] != ':');
        assert(id.contains(id[i]));
    }
}

/// Requests about a broker are refused with its id in the message, as it is.
pub proof fn law_refusals_name_the_broker(id: Seq<char>)
    ensures
        admin::not_found(id) == ApiErrorView::NotFound("broker '"@ + id + "' not found"@),
        admin::already_exists(id) == ApiErrorView::Conflict("broker '"@ + id + "' already exists"@),
{
}

/// A broker is stored, and what belongs to it is found and deleted, under keys that hold its id as
/// it is. A hash is stored exactly where it has a field.
pub proof fn law_keys_hold_the_id(
    namespace: Seq<char>,
    id: Seq<char>,
    hash: Map<Seq<char>, Seq<char>>,
    name: Seq<char>,
)
    ensures
        admin::key_of(id) == "tradingbutler:broker:"@ + id,
        admin::deleted_keys(namespace, id) == seq![
            "tradingbutler:broker:"@ + id,
            "tradingbutler:"@ + id + ":live"@,
            "tradingbutler:"@ + id + ":snapshot"@,
            namespace + ":"@ + ("brokers:"@ + id + ":live"@),
            namespace + ":"@ + ("brokers:"@ + id + ":snapshot"@),
        ],
        hash.contains_key(name) ==> admin::is_stored(hash),
        !admin::is_stored(Map::empty()),
{
}

/// Setting fields one after the other: each is set to the value that is last given for it, and
/// fields that are not given stay as they are.
pub proof fn law_fields_are_set_in_order(
    hash: Map<Seq<char>, Seq<char>>,
    fields: Seq<(Seq<char>, Seq<char>)>,
    name: Seq<char>,
    i: int,
)
    ensures
        (forall|j: int| 0 <= j < fields.len() ==> (#[trigger] fields[j]).0 != name) ==> {
            let after = admin::with_fields(hash, fields);
            &&& after.contains_key(name) == hash.contains_key(name)
            &&& hash.contains_key(name) ==> after[name] == hash[name]
        },
        0 <= i < fields.len() && (forall|j: int|
            i < j < fields.len() ==> (#[trigger] fields[j]).0 != fields[i].0) ==> {
            let after = admin::with_fields(hash, fields);
            after.contains_key(fields[i].0) && after[fields[i].0] == fields[i].1
        },
    decreases fields.len(),
{
    if fields.len() > 0 {
        let front = fields.drop_last();
        law_fields_are_set_in_order(hash, front, name, i);
        assert(forall|j: int| 0 <= j < front.len() ==> #[trigger] front[j] == fields[j]);
        assert(fields.last() == fields[fields.len() - 1]);
        if i == fields.len() - 1 {
        } else if 0 <= i < front.len() {
            assert(front[i] == fields[i]);
        }
    }
}

/// The contents of a list of fields are those of each field, in order, and those of a checked
/// broker are those of each of its texts.
pub proof fn law_contents_of_fields(fields: Seq<(String, String)>, i: int, broker: admin::NewBroker)
    ensures
        admin::pair_views(fields).len() == fields.len(),
        0 <= i < fields.len() ==> admin::pair_views(fields)[i] == (fields[i].0@, fields[i].1@),
        broker@.id == broker.id@,
        broker@.name == broker.name@,
        broker@.allowed_ips == broker.allowed_ips@,
        broker@.open_account_url == broker.open_account_url@,
        broker@.logo == broker.logo@,
{
}

/// A write sets the fields that it holds, all of them, in the hash at its key.
pub proof fn law_writes_set_their_fields(write: admin::HashWrite, key: Seq<char>, fields: Seq<(Seq<char>, Seq<char>)>)
    requires
        write.sets(key, fields),
    ensures
        write.key@ == key,
        write.fields@.len() == fields.len(),
        forall|i: int|
            0 <= i < fields.len() ==> (#[trigger] write.fields@[i]).0@ == fields[i].0 && write.fields@[i].1@
                == fields[i].1,
{
    assert(admin::pair_views(write.fields@).len() == write.fields@.len());
    assert forall|i: int| 0 <= i < fields.len() implies (#[trigger] write.fields@[i]).0@ == fields[i].0
        && write.fields@[i].1@ == fields[i].1 by {
        assert(admin::pair_views(write.fields@)[i] == (write.fields@[i].0@, write.fields@[i].1@));
    }
}

}
