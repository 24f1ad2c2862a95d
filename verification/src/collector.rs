//! The collector: terminals connect, introduce a broker, and send its live messages, which are
//! published to the broker's stream and kept as the latest of their symbol.
use crate::admin;
use crate::admin_laws;
use crate::broker::Broker;
use crate::broker_keys;
use crate::ip;
use crate::ip::IpAddress;
use crate::json;
use crate::secret;
use crate::string_map;
use crate::string_map::StringMap;
use crate::text;
use crate::whitelist;
use vstd::prelude::*;
use vstd::string::*;

verus! {

/// How many messages a broker's stream keeps, approximately.
pub const STREAM_LENGTH: usize = 1000;

/// The value that a message carries.
pub enum GatewayValue {
    Json(serde_json::Value),
    /// A value of another kind, as it is shown in an error.
    Other(String),
}

/// A message from a terminal.
pub struct GatewayMessage {
    pub category: Option<String>,
    pub key: String,
    pub value: GatewayValue,
}

/// What handling a message comes to for its connection.
#[derive(Debug)]
pub enum CollectedValue {
    Nothing,
    /// The broker that the connection speaks for from now on.
    Broker(Broker),
    CloseConnection,
}

/// What a live message is published as: an entry of a stream, and the latest message of its
/// symbol in a snapshot.
#[derive(Debug)]
pub struct Publication {
    pub stream_key: String,
    pub max_len: usize,
    pub entry: Vec<(String, String)>,
    pub snapshot_key: String,
    pub symbol: String,
    pub data: String,
}

/// The contents of a [`Publication`].
#[verifier::ext_equal]
pub struct PublicationView {
    pub stream_key: Seq<char>,
    pub max_len: usize,
    pub entry: Seq<(Seq<char>, Seq<char>)>,
    pub snapshot_key: Seq<char>,
    pub symbol: Seq<char>,
    pub data: Seq<char>,
}

impl View for Publication {
    type V = PublicationView;

    open spec fn view(&self) -> PublicationView {
        PublicationView {
            stream_key: self.stream_key@,
            max_len: self.max_len,
            entry: admin::pair_views(self.entry@),
            snapshot_key: self.snapshot_key@,
            symbol: self.symbol@,
            data: self.data@,
        }
    }
}

/// How the handling of a message goes on.
pub enum Step {
    /// There is nothing more to do.
    Finish(CollectedValue),
    /// The value is to be read as a broker, which is then to be authenticated.
    Register(serde_json::Value),
    /// The message is to be published, and then there is nothing more to do.
    Publish(Publication),
}

/// How the handling of a message goes on, or why it fails.
pub enum StepView {
    Fail(Seq<char>),
    Ignore,
    Close,
    Adopt(Broker),
    Register(serde_json::Value),
    Publish(PublicationView),
}

/// What a message is about.
#[derive(Clone, Copy, Debug, PartialEq, Eq, Structural)]
pub enum Category {
    Broker,
    Live,
    Unsupported,
}

/// The category with the given lower-case name.
pub open spec fn category_named(name: Seq<char>) -> Category {
    if name == "broker"@ {
        Category::Broker
    } else if name == "live"@ {
        Category::Live
    } else {
        Category::Unsupported
    }
}

/// The category of a message, whose name may be written in any case.
pub open spec fn category_of(name: Option<String>) -> Category {
    match name {
        Some(name) => category_named(text::lower_case(name@)),
        None => Category::Unsupported,
    }
}

/// The symbol under which a message is published: the canonical one where the table has one.
pub open spec fn symbol_of(table: Map<Seq<char>, Seq<char>>, raw: Seq<char>) -> Seq<char> {
    if table.contains_key(raw) {
        table[raw]
    } else {
        raw
    }
}

/// What a message with the key `raw` and the JSON text `data`, received on the connection
/// `conn_id` from `broker`, is published as.
pub open spec fn publication_of(
    conn_id: Seq<char>,
    broker: Broker,
    raw: Seq<char>,
    data: Seq<char>,
) -> PublicationView {
    let symbol = symbol_of(broker.symbol_map.texts(), raw);
    PublicationView {
        stream_key: broker_keys::live_key_of(broker.id@),
        max_len: STREAM_LENGTH,
        entry: seq![("conn_id"@, conn_id), ("key"@, symbol), ("data"@, data)],
        snapshot_key: broker_keys::snapshot_key_of(broker.id@),
        symbol,
        data,
    }
}

/// How the handling of a message goes on, on a connection that speaks for `broker`.
pub open spec fn step_of(
    conn_id: Seq<char>,
    broker: Option<Broker>,
    message: GatewayMessage,
) -> StepView {
    match message.value {
        GatewayValue::Other(shown) => StepView::Fail("received non-json message: "@ + shown@),
        GatewayValue::Json(value) => match category_of(message.category) {
            Category::Broker => StepView::Register(value),
            Category::Live => match broker {
                Some(b) => StepView::Publish(
                    publication_of(conn_id, b, message.key@, json::json_text(value)),
                ),
                None => StepView::Close,
            },
            Category::Unsupported => StepView::Ignore,
        },
    }
}

/// How a step reads.
pub open spec fn step_view(step: Result<Step, String>) -> StepView {
    match step {
        Ok(Step::Finish(CollectedValue::Nothing)) => StepView::Ignore,
        Ok(Step::Finish(CollectedValue::CloseConnection)) => StepView::Close,
        Ok(Step::Finish(CollectedValue::Broker(broker))) => StepView::Adopt(broker),
        Ok(Step::Register(value)) => StepView::Register(value),
        Ok(Step::Publish(publication)) => StepView::Publish(publication@),
        Err(message) => StepView::Fail(message@),
    }
}

/// Whether a frame is a ping, which is not answered.
pub fn is_ping(raw: &[u8]) -> (r: bool)
    ensures
        r == (raw@ == seq![0x70u8, 0x69u8, 0x6eu8, 0x67u8]),
{
    let r = raw.len() == 4 && raw[0] == 0x70 && raw[1] == 0x69 && raw[2] == 0x6e && raw[3] == 0x67;
    proof {
        if r {
            assert(raw@ =~= seq![0x70u8, 0x69u8, 0x6eu8, 0x67u8]);
        }
    }
    r
}

/// The category with the given lower-case name.
pub fn named_category(name: &str) -> (r: Category)
    ensures
        r == category_named(name@),
{
    if text::same_text(name, "broker") {
        Category::Broker
    } else if text::same_text(name, "live") {
        Category::Live
    } else {
        Category::Unsupported
    }
}

/// What a message with the key `raw` and the JSON text `data` is published as. A symbol for which
/// the broker has no mapping is published as it is.
pub fn publication(conn_id: &str, broker: &Broker, raw: &str, data: String) -> (r: Publication)
    ensures
        r@ == publication_of(conn_id@, *broker, raw@, data@),
{
    let symbol = match broker.canonical_symbol(raw) {
        Some(symbol) => symbol.to_owned(),
        None => raw.to_owned(),
    };
    let entry = vec![
        ("conn_id".to_owned(), conn_id.to_owned()),
        ("key".to_owned(), symbol.clone()),
        ("data".to_owned(), data.clone()),
    ];
    assert(admin::pair_views(entry@) =~= seq![
        ("conn_id"@, conn_id@),
        ("key"@, symbol@),
        ("data"@, data@),
    ]);
    Publication {
        stream_key: broker_keys::live_key(broker.id.as_str()),
        max_len: STREAM_LENGTH,
        entry,
        snapshot_key: broker_keys::snapshot_key(broker.id.as_str()),
        symbol,
        data,
    }
}

/// How the handling of a message goes on, on a connection that speaks for `broker`. A live
/// message before there is a broker closes the connection.
pub fn handle_message(
    conn_id: &str,
    broker: &Option<Broker>,
    message: GatewayMessage,
) -> (r: Result<Step, String>)
    ensures
        step_view(r) == step_of(conn_id@, *broker, message),
{
    let value = match message.value {
        GatewayValue::Json(value) => value,
        GatewayValue::Other(shown) => {
            return Err("received non-json message: ".to_owned().concat(shown.as_str()));
        },
    };
    let category = match message.category {
        Some(name) => named_category(name.to_lowercase().as_str()),
        None => Category::Unsupported,
    };
    match category {
        Category::Broker => Ok(Step::Register(value)),
        Category::Live => match broker {
            Some(b) => Ok(
                Step::Publish(publication(conn_id, b, message.key.as_str(), json::write_json(&value))),
            ),
            None => Ok(Step::Finish(CollectedValue::CloseConnection)),
        },
        Category::Unsupported => Ok(Step::Finish(CollectedValue::Nothing)),
    }
}

/// The start of what is said of a connection.
pub open spec fn said_of(conn_id: Seq<char>) -> Seq<char> {
    "["@ + conn_id + "] "@
}

/// Why a broker whose hash is not stored is refused.
pub open spec fn not_registered(conn_id: Seq<char>, id: Seq<char>) -> Seq<char> {
    said_of(conn_id) + "broker '"@ + id
        + "' not registered — register it in the admin dashboard first"@
}

/// Why a broker with a wrong key is refused.
pub open spec fn invalid_key(conn_id: Seq<char>, id: Seq<char>) -> Seq<char> {
    said_of(conn_id) + "invalid api_key for broker '"@ + id + "'"@
}

/// Why a broker is refused at an address that its whitelist does not admit.
pub open spec fn not_whitelisted(conn_id: Seq<char>, id: Seq<char>, ip: IpAddress) -> Seq<char> {
    said_of(conn_id) + "broker '"@ + id + "': client IP "@ + ip::shown_ip(ip) + " not in whitelist"@
}

/// Whether a broker's hash holds the key `api_key`. An empty key is a revoked one, which nothing
/// matches.
pub open spec fn key_matches(hash: Map<Seq<char>, Seq<char>>, api_key: Seq<char>) -> bool {
    string_map::field(hash, "api_key"@).len() > 0 && string_map::field(hash, "api_key"@) == api_key
}

/// Whether a broker's hash admits the address. An empty whitelist is no restriction.
pub open spec fn address_allowed(hash: Map<Seq<char>, Seq<char>>, ip: IpAddress) -> bool {
    let list = string_map::field(hash, "allowed_ips"@);
    list.len() == 0 || whitelist::whitelisted(list, ip)
}

/// Why a broker that introduces itself is refused, where it is.
pub open spec fn refusal(
    conn_id: Seq<char>,
    id: Seq<char>,
    api_key: Seq<char>,
    hash: Map<Seq<char>, Seq<char>>,
    ip: IpAddress,
) -> Option<Seq<char>> {
    if !admin::is_stored(hash) {
        Some(not_registered(conn_id, id))
    } else if !key_matches(hash, api_key) {
        Some(invalid_key(conn_id, id))
    } else if !address_allowed(hash, ip) {
        Some(not_whitelisted(conn_id, id, ip))
    } else {
        None
    }
}

/// Why a broker that introduces itself is refused, where it is.
pub fn refuse(
    conn_id: &str,
    broker: &Broker,
    hash: &StringMap<String>,
    ip: IpAddress,
) -> (r: Option<String>)
    ensures
        match r {
            Some(reason) => refusal(conn_id@, broker.id@, broker.api_key@, hash.texts(), ip) == Some(
                reason@,
            ),
            None => refusal(conn_id@, broker.id@, broker.api_key@, hash.texts(), ip) is None,
        },
{
    let start = "[".to_owned().concat(conn_id).concat("] ");
    let id = broker.id.as_str();
    if hash.is_absent() {
        return Some(
            start.concat("broker '").concat(id).concat(
                "' not registered — register it in the admin dashboard first",
            ),
        );
    }
    let stored_key = hash.text("api_key");
    if stored_key.as_str().is_empty() || !text::same_text(stored_key.as_str(), broker.api_key.as_str()) {
        return Some(start.concat("invalid api_key for broker '").concat(id).concat("'"));
    }
    let list = hash.text("allowed_ips");
    if !list.as_str().is_empty() && !whitelist::ip_allowed(ip, list.as_str()) {
        return Some(
            start.concat("broker '").concat(id).concat("': client IP ").concat(
                ip::show_ip(ip).as_str(),
            ).concat(" not in whitelist"),
        );
    }
    None
}

/// The symbol table of an authenticated broker: the one that its hash holds where it can be read,
/// else the one that it had.
pub open spec fn symbols_after(
    before: Map<Seq<char>, Seq<char>>,
    stored: Option<Map<Seq<char>, Seq<char>>>,
) -> Map<Seq<char>, Seq<char>> {
    match stored {
        Some(table) => table,
        None => before,
    }
}

/// The symbol table that a broker's hash holds, where it can be read.
pub open spec fn stored_symbols(hash: Map<Seq<char>, Seq<char>>) -> Option<
    Map<Seq<char>, Seq<char>>,
> {
    if hash.contains_key("symbol_map"@) {
        json::json_table(hash["symbol_map"@])
    } else {
        None
    }
}

/// The broker with the symbol table that its hash was read to hold, where it was.
pub fn with_symbols(broker: Broker, stored: Option<Vec<(String, String)>>) -> (r: Broker)
    ensures
        r.id@ == broker.id@,
        r.name@ == broker.name@,
        r.api_key@ == broker.api_key@,
        r.symbol_map.texts() == symbols_after(
            broker.symbol_map.texts(),
            match stored {
                Some(pairs) => Some(json::table_of(pairs@)),
                None => None,
            },
        ),
{
    match stored {
        Some(pairs) => Broker { symbol_map: StringMap::from_pairs(pairs), ..broker },
        None => broker,
    }
}

/// Authenticates a broker that introduces itself on the connection `conn_id` from the address
/// `ip`, where `hash` is what is stored for it. A symbol table that cannot be read is ignored.
pub fn authenticate(
    conn_id: &str,
    broker: Broker,
    hash: &StringMap<String>,
    ip: IpAddress,
) -> (r: Result<CollectedValue, String>)
    ensures
        match refusal(conn_id@, broker.id@, broker.api_key@, hash.texts(), ip) {
            Some(reason) => r matches Err(e) && e@ == reason,
            None => r matches Ok(CollectedValue::Broker(b)) && {
                &&& b.id@ == broker.id@
                &&& b.name@ == broker.name@
                &&& b.api_key@ == broker.api_key@
                &&& b.symbol_map.texts() == symbols_after(
                    broker.symbol_map.texts(),
                    stored_symbols(hash.texts()),
                )
            },
        },
{
    if let Some(reason) = refuse(conn_id, &broker, hash, ip) {
        return Err(reason);
    }
    let stored = match hash.get("symbol_map") {
        Some(raw) => json::parse_table(raw.as_str()),
        None => None,
    };
    Ok(CollectedValue::Broker(with_symbols(broker, stored)))
}

/// A frame that a connection receives, or that there are no more.
#[derive(Clone, Copy, Debug, PartialEq, Eq, Structural)]
pub enum Frame {
    Binary,
    Close,
    Other,
    Ended,
}

/// Whether a frame is handled as a message; every other frame ends the connection.
pub fn is_message(frame: Frame) -> (r: bool)
    ensures
        r == (frame is Binary),
{
    match frame {
        Frame::Binary => true,
        _ => false,
    }
}

/// The broker that a connection speaks for after a message was handled. A failure changes
/// nothing.
pub open spec fn broker_after(
    broker: Option<Broker>,
    outcome: Result<CollectedValue, String>,
) -> Option<Broker> {
    match outcome {
        Ok(CollectedValue::Broker(b)) => Some(b),
        _ => broker,
    }
}

/// Takes note of what handling a message came to: adopts the broker that was authenticated, and
/// tells whether the connection stays open. A failure leaves it open.
pub fn settle(broker: &mut Option<Broker>, outcome: Result<CollectedValue, String>) -> (open: bool)
    ensures
        *final(broker) == broker_after(*old(broker), outcome),
        open == !(outcome matches Ok(CollectedValue::CloseConnection)),
{
    match outcome {
        Ok(CollectedValue::Broker(b)) => {
            *broker = Some(b);
            true
        },
        Ok(CollectedValue::Nothing) => true,
        Ok(CollectedValue::CloseConnection) => false,
        Err(_) => true,
    }
}

/// Whether a failure says no more than that a connection broke.
pub fn is_transient(message: &str) -> (r: bool)
    ensures
        r == (text::has_part(message@, "broken pipe"@) || text::has_part(
            message@,
            "connection reset"@,
        )),
{
    text::has_text(message, "broken pipe") || text::has_text(message, "connection reset")
}

/// The broker that a connection speaks for after its messages were handled.
pub open spec fn broker_after_all(outcomes: Seq<Result<CollectedValue, String>>) -> Option<Broker>
    decreases outcomes.len(),
{
    if outcomes.len() == 0 {
        None
    } else {
        broker_after(broker_after_all(outcomes.drop_last()), outcomes.last())
    }
}

/// On a connection on which no broker was authenticated nothing is published: a live message
/// closes it.
pub proof fn law_only_authenticated_connections_publish(
    conn_id: Seq<char>,
    outcomes: Seq<Result<CollectedValue, String>>,
    message: GatewayMessage,
)
    requires
        forall|i: int|
            0 <= i < outcomes.len() ==> !(#[trigger] outcomes[i] matches Ok(CollectedValue::Broker(_))),
    ensures
        !(step_of(conn_id, broker_after_all(outcomes), message) is Publish),
        message.value is Json && category_of(message.category) == Category::Live ==> step_of(
            conn_id,
            broker_after_all(outcomes),
            message,
        ) is Close,
{
    lemma_no_broker(outcomes);
}

proof fn lemma_no_broker(outcomes: Seq<Result<CollectedValue, String>>)
    requires
        forall|i: int|
            0 <= i < outcomes.len() ==> !(#[trigger] outcomes[i] matches Ok(CollectedValue::Broker(_))),
    ensures
        broker_after_all(outcomes) is None,
    decreases outcomes.len(),
{
    if outcomes.len() > 0 {
        let front = outcomes.drop_last();
        assert forall|i: int| 0 <= i < front.len() implies !(#[trigger] front[i] matches Ok(
            CollectedValue::Broker(_),
        )) by {
            assert(front[i] == outcomes[i]);
        }
        lemma_no_broker(front);
        assert(outcomes.last() == outcomes[outcomes.len() - 1]);
    }
}

/// What a connection publishes goes to the stream and the snapshot of the broker that was last
/// authenticated on it, whatever else was handled since.
pub proof fn law_publications_go_to_the_last_broker(
    conn_id: Seq<char>,
    before: Seq<Result<CollectedValue, String>>,
    broker: Broker,
    since: Seq<Result<CollectedValue, String>>,
    message: GatewayMessage,
)
    requires
        forall|i: int|
            0 <= i < since.len() ==> !(#[trigger] since[i] matches Ok(CollectedValue::Broker(_))),
    ensures
        ({
            let outcomes = before.push(Ok(CollectedValue::Broker(broker))) + since;
            step_of(conn_id, broker_after_all(outcomes), message) matches StepView::Publish(p) ==> {
                &&& p.stream_key == broker_keys::live_key_of(broker.id@)
                &&& p.snapshot_key == broker_keys::snapshot_key_of(broker.id@)
            }
        }),
    decreases since.len(),
{
    let start = before.push(Ok(CollectedValue::Broker(broker)));
    let outcomes = start + since;
    if since.len() == 0 {
        assert(outcomes.drop_last() =~= before);
    } else {
        let front = since.drop_last();
        assert forall|i: int| 0 <= i < front.len() implies !(#[trigger] front[i] matches Ok(
            CollectedValue::Broker(_),
        )) by {
            assert(front[i] == since[i]);
        }
        law_publications_go_to_the_last_broker(conn_id, before, broker, front, message);
        assert(outcomes.drop_last() =~= start + front);
        assert(outcomes.last() == since[since.len() - 1]);
    }
}

/// Where the hash that the collector reads for a broker is the one with which it was just created,
/// the broker is authenticated with the digest of the key that was issued, at every address that
/// its whitelist admits and at no other; without a whitelist, at every address.
pub proof fn law_issued_key_authenticates(
    conn_id: Seq<char>,
    broker: admin::NewBrokerView,
    api_key: Seq<char>,
    ip: IpAddress,
)
    ensures
        ({
            let digest = secret::digest_text(api_key);
            let hash = admin_laws::created_hash(broker, api_key);
            digest.len() > 0 ==> (refusal(conn_id, broker.id, digest, hash, ip) is None <==> (
            broker.allowed_ips.len() == 0 || whitelist::whitelisted(broker.allowed_ips, ip)))
        }),
{
    admin_laws::law_created_hash_holds_its_fields(broker, api_key);
    admin_laws::lemma_field_names_differ();
}

/// Issuing a new key invalidates every other one: a terminal is refused with any digest that
/// differs from that of the new key, and with that one it is refused only for its address.
pub proof fn law_new_key_invalidates_others(
    conn_id: Seq<char>,
    id: Seq<char>,
    hash: Map<Seq<char>, Seq<char>>,
    new_key: Seq<char>,
    digest: Seq<char>,
    ip: IpAddress,
)
    ensures
        ({
            let stored = secret::digest_text(new_key);
            let after = admin::with_fields(hash, seq![("api_key"@, stored)]);
            &&& digest != stored ==> refusal(conn_id, id, digest, after, ip) == Some(
                invalid_key(conn_id, id),
            )
            &&& stored.len() > 0 ==> (refusal(conn_id, id, stored, after, ip) is None
                <==> address_allowed(hash, ip))
        }),
{
    let stored = secret::digest_text(new_key);
    admin_laws::law_setting_a_field_keeps_the_others(hash, "api_key"@, stored);
    admin_laws::lemma_field_names_differ();
    assert(hash.insert("api_key"@, stored).contains_key("api_key"@));
}

/// A revoked key, which is an empty one, authenticates nobody, whatever is sent.
pub proof fn law_revoked_key_refuses_all(
    conn_id: Seq<char>,
    id: Seq<char>,
    hash: Map<Seq<char>, Seq<char>>,
    api_key: Seq<char>,
    ip: IpAddress,
)
    requires
        string_map::field(hash, "api_key"@).len() == 0,
    ensures
        refusal(conn_id, id, api_key, hash, ip) is Some,
{
}

/// Replacing the whitelist by an empty list removes all restrictions on addresses.
pub proof fn law_empty_list_removes_restrictions(
    hash: Map<Seq<char>, Seq<char>>,
    lists: Seq<Seq<char>>,
    ip: IpAddress,
)
    requires
        whitelist::all_entries(lists).len() == 0,
    ensures
        whitelist::normalized(lists) matches Ok(list) && address_allowed(
            admin::with_fields(hash, seq![("allowed_ips"@, list)]),
            ip,
        ),
{
    let list = whitelist::normalized(lists)->Ok_0;
    admin_laws::law_setting_a_field_keeps_the_others(hash, "allowed_ips"@, list);
}

}
