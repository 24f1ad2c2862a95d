//! What clients are told of brokers, and the list of them all.
use crate::admin::BROKER_KEY_PREFIX;
use crate::sequence;
use crate::string_map;
use crate::string_map::StringMap;
use crate::text;
use crate::whitelist;
use vstd::prelude::*;
use vstd::string::*;

verus! {

/// What a client is told of a broker. It never holds the API key or its digest.
#[derive(Debug)]
pub struct BrokerSummary {
    pub id: String,
    pub name: String,
    pub has_key: bool,
    pub allowed_ips: Vec<String>,
    pub open_account_url: String,
    /// A data URL, or `None` where no logo is set.
    pub logo: Option<String>,
}

/// The contents of a [`BrokerSummary`].
#[verifier::ext_equal]
pub struct SummaryView {
    pub id: Seq<char>,
    pub name: Seq<char>,
    pub has_key: bool,
    pub allowed_ips: Seq<Seq<char>>,
    pub open_account_url: Seq<char>,
    pub logo: Option<Seq<char>>,
}

impl View for BrokerSummary {
    type V = SummaryView;

    open spec fn view(&self) -> SummaryView {
        SummaryView {
            id: self.id@,
            name: self.name@,
            has_key: self.has_key,
            allowed_ips: text::texts(self.allowed_ips@),
            open_account_url: self.open_account_url@,
            logo: match self.logo {
                Some(logo) => Some(logo@),
                None => None,
            },
        }
    }
}

/// What a client is told of the broker `id` whose hash holds `fields`.
pub open spec fn summary(id: Seq<char>, fields: Map<Seq<char>, Seq<char>>) -> SummaryView {
    SummaryView {
        id,
        name: string_map::field(fields, "name"@),
        has_key: string_map::field(fields, "api_key"@).len() > 0,
        allowed_ips: if fields.contains_key("allowed_ips"@) {
            whitelist::list_entries(fields["allowed_ips"@])
        } else {
            Seq::empty()
        },
        open_account_url: string_map::field(fields, "open_account_url"@),
        logo: if string_map::field(fields, "logo"@).len() > 0 {
            Some(fields["logo"@])
        } else {
            None
        },
    }
}

/// The id of the broker whose hash is stored at `key`: its `id` field, else what follows the
/// prefix of the key.
pub open spec fn stored_id(key: Seq<char>, fields: Map<Seq<char>, Seq<char>>) -> Seq<char> {
    if fields.contains_key("id"@) {
        fields["id"@]
    } else {
        match text::stripped(key, BROKER_KEY_PREFIX@) {
            Some(id) => id,
            None => Seq::empty(),
        }
    }
}

pub(crate) fn summarize(id: String, fields: &StringMap<String>) -> (r: BrokerSummary)
    ensures
        r@ == summary(id@, fields.texts()),
{
    let logo = fields.text("logo");
    let allowed_ips = match fields.get("allowed_ips") {
        Some(list) => whitelist::parse_ip_list(Some(list.as_str())),
        None => whitelist::parse_ip_list(None),
    };
    BrokerSummary {
        id,
        name: fields.text("name"),
        has_key: !fields.text("api_key").as_str().is_empty(),
        allowed_ips,
        open_account_url: fields.text("open_account_url"),
        logo: if logo.as_str().is_empty() { None } else { Some(logo) },
    }
}

/// What a client is told of the broker whose hash, stored at `key`, holds `fields`.
pub fn broker_summary(key: &str, fields: &StringMap<String>) -> (r: BrokerSummary)
    ensures
        r@ == summary(stored_id(key@, fields.texts()), fields.texts()),
{
    let id = match fields.get("id") {
        Some(id) => id.clone(),
        None => match text::strip_prefix(key, BROKER_KEY_PREFIX) {
            Some(id) => id.to_owned(),
            None => String::new(),
        },
    };
    summarize(id, fields)
}

/// The contents of a list of summaries.
pub open spec fn summary_views(list: Seq<BrokerSummary>) -> Seq<SummaryView> {
    list.map_values(|b: BrokerSummary| b@)
}

/// What a client is told of the brokers whose hashes are stored, in the order of `hashes`.
pub open spec fn stored_summaries(
    hashes: Seq<(String, StringMap<String>)>,
) -> Seq<SummaryView> {
    hashes.map_values(
        |h: (String, StringMap<String>)| summary(stored_id(h.0@, h.1.texts()), h.1.texts()),
    )
}

/// Whether the list is in the order of the ids.
pub open spec fn in_id_order(list: Seq<SummaryView>) -> bool {
    forall|i: int, j: int|
        0 <= i < j < list.len() ==> text::no_later((#[trigger] list[i]).id, (#[trigger] list[j]).id)
}

/// The elements of the list with the given id, in their order.
pub open spec fn with_id(list: Seq<SummaryView>, id: Seq<char>) -> Seq<SummaryView> {
    list.filter(|b: SummaryView| b.id == id)
}

/// What the list endpoint gives of the brokers whose hashes, with their keys, are stored: all of
/// them, in the order of their ids; those with the same id stay in the order of `hashes`.
pub fn list_brokers(hashes: &Vec<(String, StringMap<String>)>) -> (brokers: Vec<BrokerSummary>)
    ensures
        in_id_order(summary_views(brokers@)),
        forall|id: Seq<char>| #[trigger]
            with_id(summary_views(brokers@), id) == with_id(stored_summaries(hashes@), id),
{
    let mut brokers: Vec<BrokerSummary> = Vec::new();
    let ghost all = stored_summaries(hashes@);
    let mut i: usize = 0;
    proof {
        assert(summary_views(brokers@) =~= all.take(0));
    }
    while i < hashes.len()
        invariant
            i <= hashes.len(),
            all == stored_summaries(hashes@),
            in_id_order(summary_views(brokers@)),
            forall|id: Seq<char>| #[trigger]
                with_id(summary_views(brokers@), id) == with_id(all.take(i as int), id),
        decreases hashes.len() - i,
    {
        let broker = broker_summary(hashes[i].0.as_str(), &hashes[i].1);
        assert(broker@ == all[i as int]);
        let ghost before = summary_views(brokers@);
        let ghost added = broker@;
        let at = place_of(&brokers, &broker);
        brokers.insert(at, broker);
        proof {
            assert(summary_views(brokers@) =~= before.insert(at as int, added));
            assert(all.take(i + 1) =~= all.take(i as int).push(added));
            assert forall|id: Seq<char>| #[trigger]
                with_id(summary_views(brokers@), id) == with_id(all.take(i + 1), id) by {
                lemma_insert_in_order(before, at as int, added, id);
                sequence::lemma_filter_push(all.take(i as int), |b: SummaryView| b.id == id, added);
                assert(with_id(before, id) == with_id(all.take(i as int), id));
            }
            lemma_insert_in_order(before, at as int, added, added.id);
        }
        i += 1;
    }
    assert(all.take(i as int) =~= all);
    brokers
}

/// Where a broker goes in an ordered list: behind those that come no later.
fn place_of(brokers: &Vec<BrokerSummary>, broker: &BrokerSummary) -> (at: usize)
    requires
        in_id_order(summary_views(brokers@)),
    ensures
        at <= brokers@.len(),
        forall|j: int| 0 <= j < at ==> text::no_later(#[trigger] summary_views(brokers@)[j].id, broker@.id),
        forall|j: int|
            at <= j < brokers@.len() ==> !text::no_later(#[trigger] summary_views(brokers@)[j].id, broker@.id),
{
    let ghost list = summary_views(brokers@);
    let mut at: usize = 0;
    while at < brokers.len() && text::text_no_later(brokers[at].id.as_str(), broker.id.as_str())
        invariant
            at <= brokers@.len(),
            list == summary_views(brokers@),
            forall|j: int| 0 <= j < at ==> text::no_later(#[trigger] list[j].id, broker@.id),
        decreases brokers@.len() - at,
    {
        assert(list[at as int].id == brokers@[at as int].id@);
        at += 1;
    }
    proof {
        if at < brokers@.len() {
            assert(list[at as int].id == brokers@[at as int].id@);
            assert forall|j: int| at <= j < list.len() implies !text::no_later(#[trigger] list[j].id, broker@.id) by {
                if j > at && text::no_later(list[j].id, broker@.id) {
                    assert(text::no_later(list[at as int].id, list[j].id));
                    text::lemma_order_transitive(list[at as int].id, list[j].id, broker@.id);
                }
            }
        }
    }
    at
}

/// An element put behind those that come no later keeps the order, and comes last of its id.
proof fn lemma_insert_in_order(list: Seq<SummaryView>, at: int, b: SummaryView, id: Seq<char>)
    requires
        in_id_order(list),
        0 <= at <= list.len(),
        forall|j: int| 0 <= j < at ==> text::no_later(#[trigger] list[j].id, b.id),
        forall|j: int| at <= j < list.len() ==> !text::no_later(#[trigger] list[j].id, b.id),
    ensures
        in_id_order(list.insert(at, b)),
        with_id(list.insert(at, b), id) == if b.id == id { with_id(list, id).push(b) } else { with_id(list, id) },
{
    let pred = |x: SummaryView| x.id == id;
    let front = list.take(at);
    let back = list.skip(at);
    let new = list.insert(at, b);
    assert(list =~= front + back);
    assert(new =~= front.push(b) + back);
    sequence::lemma_filter_add(front, back, pred);
    sequence::lemma_filter_add(front.push(b), back, pred);
    sequence::lemma_filter_push(front, pred, b);
    if b.id == id {
        assert forall|i: int| 0 <= i < back.len() implies !pred(#[trigger] back[i]) by {
            assert(back[i] == list[at + i]);
            text::lemma_order_total(b.id, b.id);
        }
        sequence::lemma_filter_none(back, pred);
        assert(new.filter(pred) =~= list.filter(pred).push(b));
    }
    assert forall|i: int, j: int| 0 <= i < j < new.len() implies text::no_later((#[trigger] new[i]).id, (#[trigger] new[j]).id) by {
        if j < at {
            assert(new[i] == list[i] && new[j] == list[j]);
        } else if j == at {
            assert(new[i] == list[i]);
        } else {
            assert(new[j] == list[j - 1]);
            if i < at {
                assert(new[i] == list[i]);
            } else if i == at {
                text::lemma_order_total(list[j - 1].id, b.id);
            } else {
                assert(new[i] == list[i - 1]);
            }
        }
    }
}

/// The elements with one id, read from the end of the list.
proof fn lemma_with_id_last(list: Seq<SummaryView>, id: Seq<char>)
    requires
        list.len() > 0,
    ensures
        with_id(list, id) == if list.last().id == id {
            with_id(list.drop_last(), id).push(list.last())
        } else {
            with_id(list.drop_last(), id)
        },
{
    assert(list =~= list.drop_last().push(list.last()));
    sequence::lemma_filter_push(list.drop_last(), |b: SummaryView| b.id == id, list.last());
}

/// An id that has elements is the id of an element.
proof fn lemma_with_id_index(list: Seq<SummaryView>, id: Seq<char>) -> (i: int)
    requires
        with_id(list, id).len() > 0,
    ensures
        0 <= i < list.len(),
        list[i].id == id,
{
    sequence::lemma_filter_elements(list, |b: SummaryView| b.id == id);
    let b = with_id(list, id)[0];
    assert(list.contains(b));
    choose|i: int| 0 <= i < list.len() && list[i] == b
}

/// A list in the order of its ids is determined by what it holds of each id.
pub proof fn law_listing_is_determined(a: Seq<SummaryView>, b: Seq<SummaryView>)
    requires
        in_id_order(a),
        in_id_order(b),
        forall|id: Seq<char>| #[trigger] with_id(a, id) == with_id(b, id),
    ensures
        a == b,
    decreases a.len(),
{
    if a.len() == 0 {
        if b.len() > 0 {
            lemma_with_id_last(b, b.last().id);
            sequence::lemma_filter_none(a, |x: SummaryView| x.id == b.last().id);
            assert(with_id(a, b.last().id) == with_id(b, b.last().id));
        }
        assert(a =~= b);
    } else {
        lemma_with_id_last(a, a.last().id);
        assert(with_id(a, a.last().id) == with_id(b, a.last().id));
        let i = lemma_with_id_index(b, a.last().id);
        lemma_with_id_last(b, b.last().id);
        assert(with_id(a, b.last().id) == with_id(b, b.last().id));
        let j = lemma_with_id_index(a, b.last().id);
        if i < b.len() - 1 {
            assert(text::no_later(b[i].id, b[b.len() - 1].id));
        }
        if j < a.len() - 1 {
            assert(text::no_later(a[j].id, a[a.len() - 1].id));
        }
        text::lemma_order_total(a.last().id, b.last().id);
        assert(a.last().id == b.last().id);
        assert(with_id(a, a.last().id).last() == a.last());
        assert(with_id(b, a.last().id).last() == b.last());
        let x = a.drop_last();
        let y = b.drop_last();
        assert forall|id: Seq<char>| #[trigger] with_id(x, id) == with_id(y, id) by {
            lemma_with_id_last(a, id);
            lemma_with_id_last(b, id);
            assert(with_id(a, id) == with_id(b, id));
            if id == a.last().id {
                assert(with_id(x, id) =~= with_id(a, id).drop_last());
                assert(with_id(y, id) =~= with_id(b, id).drop_last());
            }
        }
        assert(in_id_order(x)) by {
            assert forall|p: int, q: int| 0 <= p < q < x.len() implies text::no_later((#[trigger] x[p]).id, (#[trigger] x[q]).id) by {
                assert(x[p] == a[p] && x[q] == a[q]);
            }
        }
        assert(in_id_order(y)) by {
            assert forall|p: int, q: int| 0 <= p < q < y.len() implies text::no_later((#[trigger] y[p]).id, (#[trigger] y[q]).id) by {
                assert(y[p] == b[p] && y[q] == b[q]);
            }
        }
        law_listing_is_determined(x, y);
        assert(a =~= x.push(a.last()));
        assert(b =~= y.push(b.last()));
    }
}

/// Whether no two elements have the same id.
pub open spec fn distinct_ids(list: Seq<SummaryView>) -> bool {
    forall|i: int, j: int|
        0 <= i < j < list.len() ==> (#[trigger] list[i]).id != (#[trigger] list[j]).id
}

/// Where no id occurs twice, an element is all that the list holds of its id.
proof fn lemma_with_id_single(list: Seq<SummaryView>, i: int)
    requires
        distinct_ids(list),
        0 <= i < list.len(),
    ensures
        with_id(list, list[i].id) == seq![list[i]],
    decreases list.len(),
{
    let id = list[i].id;
    lemma_with_id_last(list, id);
    let front = list.drop_last();
    assert forall|p: int, q: int| 0 <= p < q < front.len() implies (#[trigger] front[p]).id != (#[trigger] front[q]).id by {
        assert(front[p] == list[p] && front[q] == list[q]);
    }
    if i == list.len() - 1 {
        assert forall|p: int| 0 <= p < front.len() implies (#[trigger] front[p]).id != id by {
            assert(front[p] == list[p]);
        }
        sequence::lemma_filter_none(front, |b: SummaryView| b.id == id);
    } else {
        assert(list[i].id != list[list.len() - 1].id);
        lemma_with_id_single(front, i);
    }
    assert(with_id(list, id) =~= seq![list[i]]);
}

/// The listing does not depend on the order in which the store hands out the brokers, as long
/// as no two have the same id.
pub proof fn law_listing_ignores_store_order(
    a: Seq<SummaryView>,
    b: Seq<SummaryView>,
    listed_a: Seq<SummaryView>,
    listed_b: Seq<SummaryView>,
)
    requires
        distinct_ids(a),
        distinct_ids(b),
        forall|x: SummaryView| a.contains(x) <==> b.contains(x),
        in_id_order(listed_a),
        in_id_order(listed_b),
        forall|id: Seq<char>| #[trigger] with_id(listed_a, id) == with_id(a, id),
        forall|id: Seq<char>| #[trigger] with_id(listed_b, id) == with_id(b, id),
    ensures
        listed_a == listed_b,
{
    assert forall|id: Seq<char>| #[trigger] with_id(listed_a, id) == with_id(listed_b, id) by {
        assert(with_id(listed_a, id) == with_id(a, id));
        assert(with_id(listed_b, id) == with_id(b, id));
        if with_id(a, id).len() > 0 {
            let i = lemma_with_id_index(a, id);
            assert(a.contains(a[i]));
            assert(b.contains(a[i]));
            let j = choose|j: int| 0 <= j < b.len() && b[j] == a[i];
            lemma_with_id_single(a, i);
            lemma_with_id_single(b, j);
        } else if with_id(b, id).len() > 0 {
            let j = lemma_with_id_index(b, id);
            assert(b.contains(b[j]));
            assert(a.contains(b[j]));
            let i = choose|i: int| 0 <= i < a.len() && a[i] == b[j];
            lemma_with_id_single(a, i);
        } else {
            assert(with_id(a, id) =~= with_id(b, id));
        }
    }
    law_listing_is_determined(listed_a, listed_b);
}

/// What clients are told of a broker is read from its hash field by field: a field that is there
/// is told as it is, and one that is not as empty. Of the key they are told whether there is one.
pub proof fn law_summary_by_fields(id: Seq<char>, fields: Map<Seq<char>, Seq<char>>)
    ensures
        ({
            let told = summary(id, fields);
            &&& told.id == id
            &&& fields.contains_key("name"@) ==> told.name == fields["name"@]
            &&& !fields.contains_key("name"@) ==> told.name.len() == 0
            &&& fields.contains_key("open_account_url"@) ==> told.open_account_url == fields["open_account_url"@]
            &&& !fields.contains_key("open_account_url"@) ==> told.open_account_url.len() == 0
            &&& told.has_key <==> fields.contains_key("api_key"@) && fields["api_key"@].len() > 0
            &&& fields.contains_key("allowed_ips"@) ==> told.allowed_ips == whitelist::list_entries(
                fields["allowed_ips"@],
            )
            &&& !fields.contains_key("allowed_ips"@) ==> told.allowed_ips.len() == 0
            &&& told.logo is Some <==> fields.contains_key("logo"@) && fields["logo"@].len() > 0
            &&& told.logo matches Some(logo) ==> logo == fields["logo"@]
        }),
{
}

/// A broker has the id that its hash holds, or else the one in its key; under another key it has
/// none.
pub proof fn law_id_of_a_stored_broker(
    key: Seq<char>,
    id: Seq<char>,
    fields: Map<Seq<char>, Seq<char>>,
)
    ensures
        fields.contains_key("id"@) ==> stored_id(key, fields) == fields["id"@],
        !fields.contains_key("id"@) ==> stored_id("tradingbutler:broker:"@ + id, fields) == id,
        !fields.contains_key("id"@) && !"tradingbutler:broker:"@.is_prefix_of(key) ==> stored_id(
            key,
            fields,
        ).len() == 0,
{
    let prefix = "tradingbutler:broker:"@;
    assert(prefix =~= (prefix + id).subrange(0, prefix.len() as int));
    assert((prefix + id).skip(prefix.len() as int) =~= id);
}

/// A filter drops nothing of what passes it.
proof fn lemma_filter_count(s: Seq<SummaryView>, x: SummaryView)
    ensures
        s.filter(|b: SummaryView| b.id == x.id).to_multiset().count(x) == s.to_multiset().count(x),
    decreases s.len(),
{
    broadcast use vstd::seq_lib::group_to_multiset_ensures;

    let pred = |b: SummaryView| b.id == x.id;
    if s.len() == 0 {
        reveal(Seq::filter);
        assert(s.filter(pred) =~= s);
    } else {
        let front = s.drop_last();
        lemma_filter_count(front, x);
        assert(s =~= front.push(s.last()));
        sequence::lemma_filter_push(front, pred, s.last());
    }
}

/// The listing holds every stored broker, as often as it is stored, and nothing else.
pub proof fn law_listing_holds_all(stored: Seq<SummaryView>, listed: Seq<SummaryView>)
    requires
        forall|id: Seq<char>| #[trigger] with_id(listed, id) == with_id(stored, id),
    ensures
        listed.to_multiset() == stored.to_multiset(),
{
    assert forall|x: SummaryView| listed.to_multiset().count(x) == stored.to_multiset().count(x) by {
        lemma_filter_count(listed, x);
        lemma_filter_count(stored, x);
        assert(with_id(listed, x.id) == with_id(stored, x.id));
    }
    assert(listed.to_multiset() =~= stored.to_multiset());
}

/// In an ordered listing, what is listed first has the id that comes no later.
pub proof fn law_order_of_the_listing(list: Seq<SummaryView>, i: int, j: int)
    requires
        in_id_order(list),
        0 <= i < j < list.len(),
    ensures
        text::no_later(list[i].id, list[j].id),
{
}

/// The contents of a list of summaries, and what is told of a list of hashes, are those of each, in
/// order.
pub proof fn law_contents_of_listings(
    list: Seq<BrokerSummary>,
    hashes: Seq<(String, StringMap<String>)>,
    i: int,
)
    ensures
        summary_views(list).len() == list.len(),
        stored_summaries(hashes).len() == hashes.len(),
        0 <= i < list.len() ==> ({
            let told = summary_views(list)[i];
            let b = list[i];
            &&& told.id == b.id@
            &&& told.name == b.name@
            &&& told.has_key == b.has_key
            &&& told.allowed_ips == text::texts(b.allowed_ips@)
            &&& told.open_account_url == b.open_account_url@
            &&& told.logo is Some == b.logo is Some
            &&& b.logo is Some ==> told.logo->0 == b.logo->0@
        }),
        0 <= i < hashes.len() ==> stored_summaries(hashes)[i] == summary(
            stored_id(hashes[i].0@, hashes[i].1.texts()),
            hashes[i].1.texts(),
        ),
{
}

}
