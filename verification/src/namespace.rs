//! Namespaces: services that share a store keep their keys apart by what they start with.
use crate::admin;
use crate::discovery;
use crate::text;
use vstd::prelude::*;
use vstd::string::*;

verus! {

/// The key in the namespace.
pub open spec fn key_in(namespace: Seq<char>, key: Seq<char>) -> Seq<char> {
    namespace + ":"@ + key
}

/// The key without the namespace; a key outside of it stays as it is.
pub open spec fn bare(namespace: Seq<char>, key: Seq<char>) -> Seq<char> {
    match text::stripped(key, namespace + ":"@) {
        Some(rest) => rest,
        None => key,
    }
}

/// The key in the namespace.
pub fn namespaced(namespace: &str, key: &str) -> (r: String)
    ensures
        r@ == key_in(namespace@, key@),
{
    text::enclose(namespace, ":", key)
}

/// The key without the namespace; a key outside of it stays as it is.
pub fn bare_key<'a>(namespace: &str, key: &'a str) -> (r: &'a str)
    ensures
        r@ == bare(namespace@, key@),
{
    let start = namespace.to_owned().concat(":");
    match text::strip_prefix(key, start.as_str()) {
        Some(rest) => rest,
        None => key,
    }
}

/// Taking a key out of the namespace undoes putting it in.
pub proof fn law_bare_undoes_namespaced(namespace: Seq<char>, key: Seq<char>)
    ensures
        bare(namespace, key_in(namespace, key)) == key,
{
    let start = namespace + ":"@;
    assert(start =~= key_in(namespace, key).subrange(0, start.len() as int));
    assert(key_in(namespace, key).skip(start.len() as int) =~= key);
}

/// In the namespace `tradingbutler` the JSON writer finds brokers where the admin API stores them,
/// and reads the streams and the snapshots that are deleted with them.
pub proof fn law_writer_shares_the_keys_of_the_admin_api(id: Seq<char>)
    ensures
        key_in("tradingbutler"@, discovery::key_of(id)) == admin::key_of(id),
        key_in("tradingbutler"@, id + ":live"@) == admin::live_key(id),
        key_in("tradingbutler"@, id + ":snapshot"@) == admin::snapshot_key(id),
{
    reveal_strlit("tradingbutler");
    reveal_strlit(":");
    reveal_strlit("broker:");
    reveal_strlit("tradingbutler:");
    reveal_strlit("tradingbutler:broker:");
    assert("tradingbutler"@ + ":"@ =~= "tradingbutler:"@);
    assert("tradingbutler:"@ + "broker:"@ =~= "tradingbutler:broker:"@);
    assert(key_in("tradingbutler"@, discovery::key_of(id)) =~= admin::key_of(id));
    assert(key_in("tradingbutler"@, id + ":live"@) =~= admin::live_key(id));
    assert(key_in("tradingbutler"@, id + ":snapshot"@) =~= admin::snapshot_key(id));
}

/// A key in a namespace is the namespace, a colon and the key, and a key that does not start with
/// the namespace and a colon is left as it is.
pub proof fn law_keys_outside_a_namespace_stay(namespace: Seq<char>, key: Seq<char>, outside: Seq<char>)
    requires
        !(namespace + ":"@).is_prefix_of(outside),
    ensures
        key_in(namespace, key) == namespace + (":"@ + key),
        bare(namespace, outside) == outside,
{
    assert(key_in(namespace, key) =~= namespace + (":"@ + key));
}

}
