//! The admin API: brokers are listed, created, changed and deleted.
//!
//! A broker is stored as a hash at `tradingbutler:broker:{id}` with the fields `id`, `name`,
//! `api_key`, `allowed_ips`, `open_account_url` and `logo`.
//!
//! - `api_key` is the SHA-512 digest of the key in hexadecimal digits, the same digest that a
//!   terminal sends, so a terminal that holds the key produces a matching digest. An empty
//!   `api_key` means that the key has been revoked.
//! - `allowed_ips` is a comma-separated list of the addresses and CIDR ranges that may connect
//!   for the broker. Empty means no restriction.
//!
//! Each handler is a function from the request and the stored hash to the write that it makes
//! and the answer that it gives, or to the error that it is refused with.
use crate::admin_laws;
use crate::api_error::{ApiError, ApiErrorView};
use crate::broker_keys;
use crate::listing;
use crate::listing::BrokerSummary;
use crate::namespace;
use crate::secret;
use crate::string_map;
use crate::string_map::StringMap;
use crate::text;
use crate::whitelist;
use vstd::prelude::*;
use vstd::string::*;

verus! {

/// What the keys of broker hashes start with.
pub const BROKER_KEY_PREFIX: &'static str = "tradingbutler:broker:";

/// The HTTP status of an answer that reports something created.
pub const CREATED: u16 = 201;

/// The HTTP status of an answer without a body.
pub const NO_CONTENT: u16 = 204;

/// The key of a broker's hash.
pub open spec fn key_of(id: Seq<char>) -> Seq<char> {
    BROKER_KEY_PREFIX@ + id
}

/// The key of a broker's hash.
pub fn broker_key(id: &str) -> (key: String)
    ensures
        key@ == key_of(id@),
{
    BROKER_KEY_PREFIX.to_owned().concat(id)
}

/// The pattern that the keys of all broker hashes match.
pub fn broker_key_pattern() -> (pattern: String)
    ensures
        pattern@ == BROKER_KEY_PREFIX@ + "*"@,
{
    BROKER_KEY_PREFIX.to_owned().concat("*")
}

/// A request to create a broker.
#[derive(Debug)]
pub struct CreateBroker {
    pub id: String,
    pub name: String,
    pub allowed_ips: Vec<String>,
    pub open_account_url: String,
    pub logo: String,
}

/// A broker that a request asks for and that may be stored: trimmed and checked.
#[derive(Debug)]
pub struct NewBroker {
    pub id: String,
    pub name: String,
    pub allowed_ips: String,
    pub open_account_url: String,
    pub logo: String,
}

/// The contents of a [`NewBroker`].
pub struct NewBrokerView {
    pub id: Seq<char>,
    pub name: Seq<char>,
    pub allowed_ips: Seq<char>,
    pub open_account_url: Seq<char>,
    pub logo: Seq<char>,
}

impl View for NewBroker {
    type V = NewBrokerView;

    open spec fn view(&self) -> NewBrokerView {
        NewBrokerView {
            id: self.id@,
            name: self.name@,
            allowed_ips: self.allowed_ips@,
            open_account_url: self.open_account_url@,
            logo: self.logo@,
        }
    }
}

/// A key, handed out once: when it is issued. Only its digest is stored.
#[derive(Debug)]
pub struct IssuedKey {
    pub id: String,
    pub name: String,
    pub api_key: String,
}

/// The fields to set in the hash at `key`.
#[derive(Debug)]
pub struct HashWrite {
    pub key: String,
    pub fields: Vec<(String, String)>,
}

/// The names and texts of fields.
pub open spec fn pair_views(fields: Seq<(String, String)>) -> Seq<(Seq<char>, Seq<char>)> {
    fields.map_values(|f: (String, String)| (f.0@, f.1@))
}

/// A hash after fields were set in it, one after the other.
pub open spec fn with_fields(
    hash: Map<Seq<char>, Seq<char>>,
    fields: Seq<(Seq<char>, Seq<char>)>,
) -> Map<Seq<char>, Seq<char>>
    decreases fields.len(),
{
    if fields.len() == 0 {
        hash
    } else {
        with_fields(hash, fields.drop_last()).insert(fields.last().0, fields.last().1)
    }
}

impl HashWrite {
    /// Whether this sets `fields` in the hash at `key` and nothing else.
    pub open spec fn sets(self, key: Seq<char>, fields: Seq<(Seq<char>, Seq<char>)>) -> bool {
        self.key@ == key && pair_views(self.fields@) == fields
    }
}

/// Whether `id` may be the id of a broker: it is part of keys, so it holds no white space and
/// no colon.
pub open spec fn is_clean(id: Seq<char>) -> bool {
    forall|i: int| 0 <= i < id.len() ==> !text::is_white_space(#[trigger] id[i]) && id[i] != ':'
}

/// The broker that a request asks for, or why it is refused.
pub open spec fn requested_broker(body: CreateBroker) -> Result<NewBrokerView, ApiErrorView> {
    let id = text::trimmed(body.id@);
    let name = text::trimmed(body.name@);
    if id.len() == 0 || name.len() == 0 {
        Err(ApiErrorView::BadRequest("id and name are required"@))
    } else if !is_clean(id) {
        Err(ApiErrorView::BadRequest("id must not contain spaces or ':'"@))
    } else {
        match whitelist::normalized(text::texts(body.allowed_ips@)) {
            Err(problem) => Err(ApiErrorView::BadRequest(problem)),
            Ok(list) => Ok(
                NewBrokerView {
                    id,
                    name,
                    allowed_ips: list,
                    open_account_url: text::trimmed(body.open_account_url@),
                    logo: text::trimmed(body.logo@),
                },
            ),
        }
    }
}

/// Why a request about a broker that is not stored is refused.
pub open spec fn not_found(id: Seq<char>) -> ApiErrorView {
    ApiErrorView::NotFound(text::around("broker '"@, id, "' not found"@))
}

/// Why a broker that is already stored is not created again.
pub open spec fn already_exists(id: Seq<char>) -> ApiErrorView {
    ApiErrorView::Conflict(text::around("broker '"@, id, "' already exists"@))
}

/// Whether a hash is stored: one that is not reads as empty.
pub open spec fn is_stored(hash: Map<Seq<char>, Seq<char>>) -> bool {
    hash != Map::<Seq<char>, Seq<char>>::empty()
}

/// The fields that are stored for a new broker whose key has the given digest.
pub open spec fn fields_of(
    broker: NewBrokerView,
    digest: Seq<char>,
) -> Seq<(Seq<char>, Seq<char>)> {
    seq![
        ("id"@, broker.id),
        ("name"@, broker.name),
        ("api_key"@, digest),
        ("allowed_ips"@, broker.allowed_ips),
        ("open_account_url"@, broker.open_account_url),
        ("logo"@, broker.logo),
    ]
}

/// The fields that are stored for a new broker with the key `api_key`.
pub open spec fn new_fields(
    broker: NewBrokerView,
    api_key: Seq<char>,
) -> Seq<(Seq<char>, Seq<char>)> {
    fields_of(broker, secret::digest_text(api_key))
}

/// The fields that are stored for a new broker whose key has the given digest.
pub fn broker_fields(broker: &NewBroker, digest: String) -> (fields: Vec<(String, String)>)
    ensures
        pair_views(fields@) == fields_of(broker@, digest@),
{
    let fields = vec![
        ("id".to_owned(), broker.id.clone()),
        ("name".to_owned(), broker.name.clone()),
        ("api_key".to_owned(), digest),
        ("allowed_ips".to_owned(), broker.allowed_ips.clone()),
        ("open_account_url".to_owned(), broker.open_account_url.clone()),
        ("logo".to_owned(), broker.logo.clone()),
    ];
    assert(pair_views(fields@) =~= fields_of(broker@, digest@));
    fields
}

/// Whether `id` may be the id of a broker.
fn id_is_clean(id: &str) -> (clean: bool)
    ensures
        clean == is_clean(id@),
{
    let chars = text::chars_of(id);
    let mut i: usize = 0;
    while i < chars.len()
        invariant
            i <= chars.len(),
            chars@ == id@,
            forall|j: int| 0 <= j < i ==> !text::is_white_space(#[trigger] chars@[j]) && chars@[j] != ':',
        decreases chars.len() - i,
    {
        if text::is_space(chars[i]) || chars[i] == ':' {
            return false;
        }
        i += 1;
    }
    true
}

/// Checks a request to create a broker, before the store is asked whether there is one.
pub fn check_new_broker(body: &CreateBroker) -> (r: Result<NewBroker, ApiError>)
    ensures
        match r {
            Ok(broker) => requested_broker(*body) == Ok::<NewBrokerView, ApiErrorView>(broker@),
            Err(e) => requested_broker(*body) == Err::<NewBrokerView, ApiErrorView>(e@),
        },
{
    let id = text::trim(body.id.as_str());
    let name = text::trim(body.name.as_str());
    if id.is_empty() || name.is_empty() {
        return Err(ApiError::BadRequest("id and name are required".to_owned()));
    }
    if !id_is_clean(id) {
        return Err(ApiError::BadRequest("id must not contain spaces or ':'".to_owned()));
    }
    let allowed_ips = match whitelist::normalize_ip_list(body.allowed_ips.as_slice()) {
        Ok(list) => list,
        Err(e) => return Err(e),
    };
    Ok(
        NewBroker {
            id: id.to_owned(),
            name: name.to_owned(),
            allowed_ips,
            open_account_url: text::trim(body.open_account_url.as_str()).to_owned(),
            logo: text::trim(body.logo.as_str()).to_owned(),
        },
    )
}

/// Creates a broker with the key `api_key`, where `stored` is what its hash holds so far.
pub fn create_broker_with_key(
    broker: NewBroker,
    stored: &StringMap<String>,
    api_key: String,
) -> (r: Result<(HashWrite, u16, IssuedKey), ApiError>)
    ensures
        match r {
            Ok((write, status, issued)) => {
                &&& !is_stored(stored.texts())
                &&& status == CREATED
                &&& write.sets(key_of(broker@.id), new_fields(broker@, api_key@))
                &&& issued.id@ == broker@.id
                &&& issued.name@ == broker@.name
                &&& issued.api_key@ == api_key@
                &&& secret::digest_text(api_key@).len() == 128
            },
            Err(e) => is_stored(stored.texts()) && e@ == already_exists(broker@.id),
        },
{
    if !stored.is_absent() {
        return Err(
            ApiError::Conflict(text::enclose("broker '", broker.id.as_str(), "' already exists")),
        );
    }
    let fields = broker_fields(&broker, secret::sha512_hex(api_key.as_str()));
    let key = broker_key(broker.id.as_str());
    Ok((HashWrite { key, fields }, CREATED, IssuedKey { id: broker.id, name: broker.name, api_key }))
}

/// Creates a broker with a fresh key, where `stored` is what its hash holds so far. The write
/// holds the digest of the key that is issued, whichever that is.
pub fn create_broker(
    broker: NewBroker,
    stored: &StringMap<String>,
) -> (r: Result<(HashWrite, u16, IssuedKey), ApiError>)
    ensures
        match r {
            Ok((write, status, issued)) => {
                &&& !is_stored(stored.texts())
                &&& status == CREATED
                &&& secret::is_api_key(issued.api_key@)
                &&& write.sets(key_of(broker@.id), new_fields(broker@, issued.api_key@))
                &&& issued.id@ == broker@.id
                &&& issued.name@ == broker@.name
                &&& secret::digest_text(issued.api_key@).len() == 128
            },
            Err(e) => is_stored(stored.texts()) && e@ == already_exists(broker@.id),
        },
{
    create_broker_with_key(broker, stored, secret::new_api_key())
}

/// The error for a broker that is not stored.
fn missing(id: &str) -> (e: ApiError)
    ensures
        e@ == not_found(id@),
{
    ApiError::NotFound(text::enclose("broker '", id, "' not found"))
}

/// The write that sets one field of a broker's hash.
fn set_field(id: &str, name: &str, value: String) -> (write: HashWrite)
    ensures
        write.sets(key_of(id@), seq![(name@, value@)]),
{
    let fields = vec![(name.to_owned(), value)];
    assert(pair_views(fields@) =~= seq![(name@, value@)]);
    HashWrite { key: broker_key(id), fields }
}

/// Replaces the key of a stored broker by `api_key`, which invalidates the previous one.
pub fn regenerate_key_with(
    id: String,
    stored: &StringMap<String>,
    api_key: String,
) -> (r: Result<(HashWrite, IssuedKey), ApiError>)
    ensures
        match r {
            Ok((write, issued)) => {
                &&& is_stored(stored.texts())
                &&& write.sets(key_of(id@), seq![("api_key"@, secret::digest_text(api_key@))])
                &&& issued.id@ == id@
                &&& issued.name@ == string_map::field(stored.texts(), "name"@)
                &&& issued.api_key@ == api_key@
                &&& secret::digest_text(api_key@).len() == 128
            },
            Err(e) => !is_stored(stored.texts()) && e@ == not_found(id@),
        },
{
    if stored.is_absent() {
        return Err(missing(id.as_str()));
    }
    let write = set_field(id.as_str(), "api_key", secret::sha512_hex(api_key.as_str()));
    Ok((write, IssuedKey { id, name: stored.text("name"), api_key }))
}

/// Issues a fresh key for a stored broker, which invalidates the previous one. The write holds
/// the digest of the key that is issued, whichever that is.
pub fn regenerate_key(
    id: String,
    stored: &StringMap<String>,
) -> (r: Result<(HashWrite, IssuedKey), ApiError>)
    ensures
        match r {
            Ok((write, issued)) => {
                &&& is_stored(stored.texts())
                &&& secret::is_api_key(issued.api_key@)
                &&& write.sets(key_of(id@), seq![("api_key"@, secret::digest_text(issued.api_key@))])
                &&& issued.id@ == id@
                &&& issued.name@ == string_map::field(stored.texts(), "name"@)
                &&& secret::digest_text(issued.api_key@).len() == 128
            },
            Err(e) => !is_stored(stored.texts()) && e@ == not_found(id@),
        },
{
    regenerate_key_with(id, stored, secret::new_api_key())
}

/// Replaces the logo of a stored broker.
pub fn update_logo(
    id: &str,
    stored: &StringMap<String>,
    logo: &str,
) -> (r: Result<(HashWrite, u16), ApiError>)
    ensures
        match r {
            Ok((write, status)) => {
                &&& is_stored(stored.texts())
                &&& status == NO_CONTENT
                &&& write.sets(key_of(id@), seq![("logo"@, text::trimmed(logo@))])
            },
            Err(e) => !is_stored(stored.texts()) && e@ == not_found(id@),
        },
{
    if stored.is_absent() {
        return Err(missing(id));
    }
    Ok((set_field(id, "logo", text::trim(logo).to_owned()), NO_CONTENT))
}

/// Replaces the address at which an account with a stored broker is opened.
pub fn update_open_account_url(
    id: &str,
    stored: &StringMap<String>,
    open_account_url: &str,
) -> (r: Result<(HashWrite, u16), ApiError>)
    ensures
        match r {
            Ok((write, status)) => {
                &&& is_stored(stored.texts())
                &&& status == NO_CONTENT
                &&& write.sets(
                    key_of(id@),
                    seq![("open_account_url"@, text::trimmed(open_account_url@))],
                )
            },
            Err(e) => !is_stored(stored.texts()) && e@ == not_found(id@),
        },
{
    if stored.is_absent() {
        return Err(missing(id));
    }
    Ok((set_field(id, "open_account_url", text::trim(open_account_url).to_owned()), NO_CONTENT))
}

/// Replaces the whitelist of a stored broker. An empty list removes all restrictions.
pub fn update_allowed_ips(
    id: String,
    stored: &StringMap<String>,
    allowed_ips: &[String],
) -> (r: Result<(HashWrite, BrokerSummary), ApiError>)
    ensures
        ({
            let list = whitelist::normalized(text::texts(allowed_ips@));
            match r {
                Ok((write, broker)) => {
                    &&& is_stored(stored.texts())
                    &&& list is Ok
                    &&& write.sets(key_of(id@), seq![("allowed_ips"@, list->Ok_0)])
                    &&& broker@ == listing::summary(
                        id@,
                        stored.texts().insert("allowed_ips"@, list->Ok_0),
                    )
                },
                Err(e) => if is_stored(stored.texts()) {
                    list is Err && e@ == ApiErrorView::BadRequest(list->Err_0)
                } else {
                    e@ == not_found(id@)
                },
            }
        }),
{
    if stored.is_absent() {
        return Err(missing(id.as_str()));
    }
    let list = match whitelist::normalize_ip_list(allowed_ips) {
        Ok(list) => list,
        Err(e) => return Err(e),
    };
    let write = set_field(id.as_str(), "allowed_ips", list.clone());
    let mut broker = listing::summarize(id, stored);
    broker.allowed_ips = whitelist::parse_ip_list(Some(list.as_str()));
    proof {
        admin_laws::lemma_field_names_differ();
    }
    Ok((write, broker))
}

/// The key of the stream of a broker's live messages.
pub open spec fn live_key(id: Seq<char>) -> Seq<char> {
    text::around("tradingbutler:"@, id, ":live"@)
}

/// The key of the hash of a broker's latest messages.
pub open spec fn snapshot_key(id: Seq<char>) -> Seq<char> {
    text::around("tradingbutler:"@, id, ":snapshot"@)
}

/// The keys that are deleted with the broker `id`: of its hash, its stream and its snapshot, and,
/// in the namespace that the collector works in, of the stream and the snapshot that it fills.
pub open spec fn deleted_keys(namespace: Seq<char>, id: Seq<char>) -> Seq<Seq<char>> {
    seq![
        key_of(id),
        live_key(id),
        snapshot_key(id),
        namespace::key_in(namespace, broker_keys::live_key_of(id)),
        namespace::key_in(namespace, broker_keys::snapshot_key_of(id)),
    ]
}

/// Deletes a stored broker with its live stream and its snapshot: gives the keys to delete, where
/// `namespace` is the one that the collector works in.
pub fn delete_broker(
    id: &str,
    stored: &StringMap<String>,
    namespace: &str,
) -> (r: Result<(Vec<String>, u16), ApiError>)
    ensures
        match r {
            Ok((keys, status)) => {
                &&& is_stored(stored.texts())
                &&& status == NO_CONTENT
                &&& text::texts(keys@) == deleted_keys(namespace@, id@)
            },
            Err(e) => !is_stored(stored.texts()) && e@ == not_found(id@),
        },
{
    if stored.is_absent() {
        return Err(missing(id));
    }
    let keys = vec![
        broker_key(id),
        text::enclose("tradingbutler:", id, ":live"),
        text::enclose("tradingbutler:", id, ":snapshot"),
        namespace::namespaced(namespace, broker_keys::live_key(id).as_str()),
        namespace::namespaced(namespace, broker_keys::snapshot_key(id).as_str()),
    ];
    assert(text::texts(keys@) =~= deleted_keys(namespace@, id@));
    Ok((keys, NO_CONTENT))
}

}
