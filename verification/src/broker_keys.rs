//! The keys under which the collector and the rate streamer find brokers and their messages.
use crate::text;
use vstd::prelude::*;
use vstd::string::*;

verus! {

/// What the keys of brokers start with.
pub const BROKER_KEY_PREFIX: &'static str = "brokers:";

/// The key of a broker's hash.
pub open spec fn key_of(id: Seq<char>) -> Seq<char> {
    BROKER_KEY_PREFIX@ + id
}

/// The key of the stream of a broker's live messages.
pub open spec fn live_key_of(id: Seq<char>) -> Seq<char> {
    text::around(BROKER_KEY_PREFIX@, id, ":live"@)
}

/// The key of the hash of a broker's latest messages.
pub open spec fn snapshot_key_of(id: Seq<char>) -> Seq<char> {
    text::around(BROKER_KEY_PREFIX@, id, ":snapshot"@)
}

/// The id of the broker whose hash has the given key. Keys with a further colon are those of
/// streams and snapshots, as ids hold none.
pub open spec fn id_of(key: Seq<char>) -> Option<Seq<char>> {
    match text::stripped(key, BROKER_KEY_PREFIX@) {
        Some(id) => if id.contains(':') { None } else { Some(id) },
        None => None,
    }
}

/// The key of a broker's hash.
pub fn broker_key(id: &str) -> (key: String)
    ensures
        key@ == key_of(id@),
{
    BROKER_KEY_PREFIX.to_owned().concat(id)
}

/// The pattern that the keys of brokers, their streams and their snapshots match.
pub fn broker_key_pattern() -> (pattern: String)
    ensures
        pattern@ == BROKER_KEY_PREFIX@ + "*"@,
{
    BROKER_KEY_PREFIX.to_owned().concat("*")
}

/// The key of the stream of a broker's live messages.
pub fn live_key(id: &str) -> (key: String)
    ensures
        key@ == live_key_of(id@),
{
    text::enclose(BROKER_KEY_PREFIX, id, ":live")
}

/// The key of the hash of a broker's latest messages.
pub fn snapshot_key(id: &str) -> (key: String)
    ensures
        key@ == snapshot_key_of(id@),
{
    text::enclose(BROKER_KEY_PREFIX, id, ":snapshot")
}

/// The id of the broker whose hash has the given key. The pattern of broker keys also matches
/// the keys of streams and snapshots; ids never hold a colon, so whatever has a further colon
/// behind the prefix is rejected.
pub fn broker_id_from_key(key: &str) -> (r: Option<String>)
    ensures
        match r {
            Some(id) => id_of(key@) == Some(id@),
            None => id_of(key@) is None,
        },
{
    match text::strip_prefix(key, BROKER_KEY_PREFIX) {
        Some(id) => if text::has_char(id, ':') { None } else { Some(id.to_owned()) },
        None => None,
    }
}

/// The key of a broker gives back its id, which holds no colon.
pub proof fn law_key_gives_back_the_id(id: Seq<char>)
    requires
        !id.contains(':'),
    ensures
        id_of(key_of(id)) == Some(id),
{
    let n = BROKER_KEY_PREFIX@.len() as int;
    assert(BROKER_KEY_PREFIX@ =~= key_of(id).subrange(0, n));
    assert(key_of(id).skip(n) =~= id);
}

/// The keys of streams and snapshots are not taken for those of brokers, whatever the id.
pub proof fn law_derived_keys_are_rejected(id: Seq<char>)
    ensures
        id_of(live_key_of(id)) is None,
        id_of(snapshot_key_of(id)) is None,
{
    reveal_strlit(":live");
    reveal_strlit(":snapshot");
    let n = BROKER_KEY_PREFIX@.len() as int;
    assert(BROKER_KEY_PREFIX@ =~= live_key_of(id).subrange(0, n));
    assert(BROKER_KEY_PREFIX@ =~= snapshot_key_of(id).subrange(0, n));
    assert(live_key_of(id).skip(n)[id.len() as int] == ':');
    assert(snapshot_key_of(id).skip(n)[id.len() as int] == ':');
}

/// An id that a key gives is the only one: the key is that of its broker.
pub proof fn law_key_has_one_id(key: Seq<char>)
    requires
        id_of(key) is Some,
    ensures
        key_of(id_of(key)->0) == key,
{
    let n = BROKER_KEY_PREFIX@.len() as int;
    assert(key =~= BROKER_KEY_PREFIX@ + key.skip(n));
}

/// Keys hold the id as it is between what they start and end with, and only a key with the prefix
/// and no further colon is that of a broker.
pub proof fn law_how_keys_are_written(id: Seq<char>, key: Seq<char>)
    ensures
        key_of(id) == "brokers:"@ + id,
        live_key_of(id) == "brokers:"@ + id + ":live"@,
        snapshot_key_of(id) == "brokers:"@ + id + ":snapshot"@,
        id_of(key) is Some ==> key == "brokers:"@ + id_of(key)->0 && !id_of(key)->0.contains(':'),
        id_of("brokers:"@ + id) is Some <==> !id.contains(':'),
{
    let prefix = "brokers:"@;
    let n = prefix.len() as int;
    assert(prefix =~= (prefix + id).subrange(0, n));
    assert((prefix + id).skip(n) =~= id);
    if id_of(key) is Some {
        assert(key =~= prefix + key.skip(n));
    }
}

}
