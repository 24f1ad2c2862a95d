//! The whitelists of addresses that brokers keep: comma-separated lists of IP addresses and CIDR
//! ranges, how they are checked and stored, and whom they admit.
use crate::api_error::{ApiError, ApiErrorView};
use crate::ip;
use crate::ip::IpAddress;
use crate::sequence;
use crate::text;
use vstd::prelude::*;

verus! {

/// The entries of a comma-separated list: its parts, trimmed, without the empty ones.
pub open spec fn list_entries(list: Seq<char>) -> Seq<Seq<char>> {
    text::split_on(list, ',').map_values(|p: Seq<char>| text::trimmed(p)).filter(
        |p: Seq<char>| p.len() > 0,
    )
}

/// Whether some entry of the comma-separated `whitelist` admits `ip`.
pub open spec fn whitelisted(whitelist: Seq<char>, ip: IpAddress) -> bool {
    exists|i: int|
        0 <= i < list_entries(whitelist).len() && {
            let entry = #[trigger] list_entries(whitelist)[i];
            ip::admits(ip::parsed_network(entry), ip::parsed_ip(entry), ip)
        }
}

/// Splits a stored comma-separated whitelist into its entries; no list is an empty one.
pub fn parse_ip_list(stored: Option<&str>) -> (entries: Vec<String>)
    ensures
        text::texts(entries@) == match stored {
            Some(list) => list_entries(list@),
            None => Seq::empty(),
        },
{
    let mut entries: Vec<String> = Vec::new();
    let list = match stored {
        Some(list) => list,
        None => return entries,
    };
    let parts = text::split(list, ',');
    let ghost all = text::split_on(list@, ',').map_values(|p: Seq<char>| text::trimmed(p));
    let ghost keep = |p: Seq<char>| p.len() > 0;
    let mut i: usize = 0;
    proof {
        reveal(Seq::filter);
        assert(text::texts(entries@) =~= all.take(0).filter(keep));
    }
    while i < parts.len()
        invariant
            i <= parts.len(),
            parts@.map_values(|p: &str| p@) == text::split_on(list@, ','),
            all == text::split_on(list@, ',').map_values(|p: Seq<char>| text::trimmed(p)),
            keep == (|p: Seq<char>| p.len() > 0),
            text::texts(entries@) == all.take(i as int).filter(keep),
        decreases parts.len() - i,
    {
        let entry = text::trim(parts[i]);
        let ghost before = entries@;
        proof {
            assert(text::split_on(list@, ',')[i as int] == parts@.map_values(|p: &str| p@)[i as int]);
            assert(all[i as int] == entry@);
            assert(all.take(i + 1) =~= all.take(i as int).push(entry@));
            sequence::lemma_filter_push(all.take(i as int), keep, entry@);
        }
        if !entry.is_empty() {
            entries.push(entry.to_owned());
            assert(text::texts(entries@) =~= text::texts(before).push(entry@));
        }
        i += 1;
    }
    assert(all.take(i as int) =~= all);
    entries
}

/// Whether `ip` matches any entry of the comma-separated `whitelist`. An entry is an address or
/// a CIDR range.
pub fn ip_allowed(ip: IpAddress, whitelist: &str) -> (r: bool)
    ensures
        r == whitelisted(whitelist@, ip),
{
    let entries = parse_ip_list(Some(whitelist));
    let mut i: usize = 0;
    while i < entries.len()
        invariant
            i <= entries.len(),
            text::texts(entries@) == list_entries(whitelist@),
            forall|j: int|
                0 <= j < i ==> {
                    let entry = #[trigger] list_entries(whitelist@)[j];
                    !ip::admits(ip::parsed_network(entry), ip::parsed_ip(entry), ip)
                },
        decreases entries.len() - i,
    {
        let entry = entries[i].as_str();
        assert(text::texts(entries@)[i as int] == entry@);
        if ip::entry_admits(ip::parse_network(entry), ip::parse_ip(entry), ip) {
            return true;
        }
        i += 1;
    }
    false
}

/// The part of a whitelist entry that writes the address.
pub open spec fn address_part(entry: Seq<char>) -> Seq<char> {
    match text::split_first(entry, '/') {
        Some(parts) => parts.0,
        None => entry,
    }
}

/// What is wrong with a whitelist entry whose address part reads as `ip`, where something is.
pub open spec fn entry_problem(entry: Seq<char>, ip: Option<IpAddress>) -> Option<Seq<char>> {
    match (ip, text::split_first(entry, '/')) {
        (None, _) => Some(text::around("invalid IP address: '"@, entry, "'"@)),
        (Some(_), None) => None,
        (Some(address), Some(parts)) => match text::small_number(parts.1) {
            None => Some(text::around("invalid CIDR prefix: '"@, entry, "'"@)),
            Some(bits) => if bits > address.width() {
                Some(text::around("CIDR prefix out of range: '"@, entry, "'"@))
            } else {
                None
            },
        },
    }
}

/// What is wrong with a whitelist entry, where something is.
pub open spec fn problem_of(entry: Seq<char>) -> Option<Seq<char>> {
    entry_problem(entry, ip::parsed_ip(address_part(entry)))
}

/// Accepts or refuses a whitelist entry whose address part reads as `ip`.
pub fn check_ip_or_cidr(entry: &str, ip: Option<IpAddress>) -> (r: Result<(), ApiError>)
    ensures
        match r {
            Ok(_) => entry_problem(entry@, ip) is None,
            Err(e) => entry_problem(entry@, ip) is Some && e@ == ApiErrorView::BadRequest(
                entry_problem(entry@, ip)->0,
            ),
        },
{
    let address = match ip {
        Some(address) => address,
        None => {
            return Err(ApiError::BadRequest(text::enclose("invalid IP address: '", entry, "'")));
        },
    };
    if let Some(parts) = text::split_once(entry, '/') {
        let max: u8 = match address {
            IpAddress::V4(_) => 32,
            IpAddress::V6(_) => 128,
        };
        match text::parse_small_number(parts.1) {
            None => {
                return Err(
                    ApiError::BadRequest(text::enclose("invalid CIDR prefix: '", entry, "'")),
                );
            },
            Some(bits) => {
                if bits > max {
                    return Err(
                        ApiError::BadRequest(
                            text::enclose("CIDR prefix out of range: '", entry, "'"),
                        ),
                    );
                }
            },
        }
    }
    Ok(())
}

/// Accepts an address or a CIDR range whose prefix is no longer than its addresses.
pub fn validate_ip_or_cidr(entry: &str) -> (r: Result<(), ApiError>)
    ensures
        match r {
            Ok(_) => problem_of(entry@) is None,
            Err(e) => problem_of(entry@) is Some && e@ == ApiErrorView::BadRequest(
                problem_of(entry@)->0,
            ),
        },
{
    let ip = match text::split_once(entry, '/') {
        Some(parts) => ip::parse_ip(parts.0),
        None => ip::parse_ip(entry),
    };
    check_ip_or_cidr(entry, ip)
}

/// The entries of several comma-separated lists, one list after the other.
pub open spec fn all_entries(lists: Seq<Seq<char>>) -> Seq<Seq<char>>
    decreases lists.len(),
{
    if lists.len() == 0 {
        Seq::empty()
    } else {
        all_entries(lists.drop_last()) + list_entries(lists.last())
    }
}

/// What is wrong with the first faulty entry, where one is.
pub open spec fn first_problem(entries: Seq<Seq<char>>) -> Option<Seq<char>>
    decreases entries.len(),
{
    if entries.len() == 0 {
        None
    } else {
        match first_problem(entries.drop_last()) {
            Some(problem) => Some(problem),
            None => problem_of(entries.last()),
        }
    }
}

/// The entries, each where it first occurs.
pub open spec fn once_each(entries: Seq<Seq<char>>) -> Seq<Seq<char>>
    decreases entries.len(),
{
    if entries.len() == 0 {
        Seq::empty()
    } else {
        let before = once_each(entries.drop_last());
        if before.contains(entries.last()) {
            before
        } else {
            before.push(entries.last())
        }
    }
}

/// The whitelist that is stored for `lists`, or what is wrong with the first faulty entry.
pub open spec fn normalized(lists: Seq<Seq<char>>) -> Result<Seq<char>, Seq<char>> {
    match first_problem(all_entries(lists)) {
        Some(problem) => Err(problem),
        None => Ok(text::joined(once_each(all_entries(lists)), ',')),
    }
}

/// A problem among the first entries stays the first problem.
proof fn lemma_first_problem_stays(entries: Seq<Seq<char>>, n: int)
    requires
        0 <= n <= entries.len(),
        first_problem(entries.take(n)) is Some,
    ensures
        first_problem(entries) == first_problem(entries.take(n)),
    decreases entries.len(),
{
    if n == entries.len() {
        assert(entries.take(n) =~= entries);
    } else {
        assert(entries.drop_last().take(n) =~= entries.take(n));
        lemma_first_problem_stays(entries.drop_last(), n);
    }
}

/// The entries of the first lists come first.
proof fn lemma_all_entries_prefix(lists: Seq<Seq<char>>, n: int)
    requires
        0 <= n <= lists.len(),
    ensures
        all_entries(lists.take(n)).is_prefix_of(all_entries(lists)),
    decreases lists.len(),
{
    if n == lists.len() {
        assert(lists.take(n) =~= lists);
    } else {
        assert(lists.drop_last().take(n) =~= lists.take(n));
        lemma_all_entries_prefix(lists.drop_last(), n);
        let a = all_entries(lists.take(n));
        let b = all_entries(lists.drop_last());
        assert(a =~= all_entries(lists).subrange(0, a.len() as int));
    }
}

/// Validates, trims and de-duplicates whitelist entries and gives the comma-separated form to
/// store. Each entry may itself be a comma-separated list.
pub fn normalize_ip_list(entries: &[String]) -> (r: Result<String, ApiError>)
    ensures
        match r {
            Ok(list) => normalized(text::texts(entries@)) == Ok::<Seq<char>, Seq<char>>(list@),
            Err(e) => normalized(text::texts(entries@)) matches Err(problem) && e@
                == ApiErrorView::BadRequest(problem),
        },
{
    let mut out: Vec<String> = Vec::new();
    let ghost lists = text::texts(entries@);
    let mut i: usize = 0;
    assert(lists.take(0) =~= Seq::empty());
    assert(text::texts(out@) =~= Seq::empty());
    while i < entries.len()
        invariant
            i <= entries.len(),
            lists == text::texts(entries@),
            first_problem(all_entries(lists.take(i as int))) is None,
            text::texts(out@) == once_each(all_entries(lists.take(i as int))),
        decreases entries.len() - i,
    {
        let parts = parse_ip_list(Some(entries[i].as_str()));
        let ghost before = all_entries(lists.take(i as int));
        let ghost now = all_entries(lists.take(i + 1));
        proof {
            assert(lists.take(i + 1).drop_last() =~= lists.take(i as int));
            assert(lists.take(i + 1).last() == entries@[i as int]@);
            assert(now == before + text::texts(parts@));
            lemma_all_entries_prefix(lists, i + 1);
        }
        let mut j: usize = 0;
        assert(now.take(before.len() as int) =~= before);
        while j < parts.len()
            invariant
                i < entries.len(),
                j <= parts.len(),
                lists == text::texts(entries@),
                now == all_entries(lists.take(i + 1)),
                now == before + text::texts(parts@),
                now.is_prefix_of(all_entries(lists)),
                first_problem(now.take(before.len() + j)) is None,
                text::texts(out@) == once_each(now.take(before.len() + j)),
            decreases parts.len() - j,
        {
            let entry = parts[j].as_str();
            let ghost done = now.take(before.len() + j);
            let ghost next = now.take(before.len() + j + 1);
            proof {
                assert(next.last() == entry@);
                assert(next.drop_last() =~= done);
                assert(all_entries(lists).take(before.len() + j + 1) =~= next);
            }
            if let Err(e) = validate_ip_or_cidr(entry) {
                proof {
                    lemma_first_problem_stays(all_entries(lists), before.len() + j + 1);
                }
                return Err(e);
            }
            let ghost held = out@;
            if !text::holds(&out, entry) {
                out.push(entry.to_owned());
                assert(text::texts(out@) =~= text::texts(held).push(entry@));
            }
            j += 1;
        }
        assert(now.take(before.len() + j) =~= now);
        i += 1;
    }
    assert(lists.take(i as int) =~= lists);
    Ok(text::join_commas(&out))
}

/// An entry as lists hold it: not empty, without commas, and trimmed.
spec fn is_bare(entry: Seq<char>) -> bool {
    entry.len() > 0 && !entry.contains(',') && text::trimmed(entry) == entry
}

proof fn lemma_list_entries_bare(list: Seq<char>)
    ensures
        forall|i: int| 0 <= i < list_entries(list).len() ==> is_bare(#[trigger] list_entries(list)[i]),
{
    let parts = text::split_on(list, ',');
    let all = parts.map_values(|p: Seq<char>| text::trimmed(p));
    let keep = |p: Seq<char>| p.len() > 0;
    sequence::lemma_filter_elements(all, keep);
    text::lemma_split_parts(list, ',');
    assert forall|i: int| 0 <= i < list_entries(list).len() implies is_bare(#[trigger] list_entries(list)[i]) by {
        let entry = all.filter(keep)[i];
        assert(keep(entry) && all.contains(entry));
        let k = choose|k: int| 0 <= k < all.len() && all[k] == entry;
        assert(entry == text::trimmed(parts[k]));
        text::lemma_trimmed(parts[k]);
    }
}

proof fn lemma_all_entries_bare(lists: Seq<Seq<char>>)
    ensures
        forall|i: int| 0 <= i < all_entries(lists).len() ==> is_bare(#[trigger] all_entries(lists)[i]),
    decreases lists.len(),
{
    if lists.len() > 0 {
        lemma_all_entries_bare(lists.drop_last());
        lemma_list_entries_bare(lists.last());
        let a = all_entries(lists.drop_last());
        assert forall|i: int| 0 <= i < all_entries(lists).len() implies is_bare(#[trigger] all_entries(lists)[i]) by {
            if i < a.len() {
                assert(all_entries(lists)[i] == a[i]);
            } else {
                assert(all_entries(lists)[i] == list_entries(lists.last())[i - a.len()]);
            }
        }
    }
}

/// De-duplicating drops no entry, adds none, and leaves none twice.
pub proof fn lemma_once_each(entries: Seq<Seq<char>>)
    ensures
        once_each(entries).no_duplicates(),
        forall|e: Seq<char>| once_each(entries).contains(e) <==> #[trigger] entries.contains(e),
    decreases entries.len(),
{
    if entries.len() > 0 {
        let front = entries.drop_last();
        lemma_once_each(front);
        assert(entries =~= front.push(entries.last()));
        let kept = once_each(entries);
        assert forall|e: Seq<char>| kept.contains(e) <==> #[trigger] entries.contains(e) by {
            assert(front.contains(e) <==> once_each(front).contains(e));
            if entries.contains(e) {
                let k = choose|k: int| 0 <= k < entries.len() && entries[k] == e;
                if k < front.len() {
                    assert(front[k] == e);
                    let j = choose|j: int| 0 <= j < once_each(front).len() && once_each(front)[j] == e;
                    assert(kept[j] == e);
                } else if !once_each(front).contains(e) {
                    assert(kept[kept.len() - 1] == e);
                }
            }
            if kept.contains(e) {
                let j = choose|j: int| 0 <= j < kept.len() && kept[j] == e;
                if j < once_each(front).len() {
                    assert(once_each(front)[j] == e);
                    let k = choose|k: int| 0 <= k < front.len() && front[k] == e;
                    assert(entries[k] == e);
                } else {
                    assert(entries[entries.len() - 1] == e);
                }
            }
        }
    }
}

/// Where nothing occurs twice, de-duplicating changes nothing.
proof fn lemma_once_each_keeps(entries: Seq<Seq<char>>)
    requires
        entries.no_duplicates(),
    ensures
        once_each(entries) == entries,
    decreases entries.len(),
{
    if entries.len() > 0 {
        let front = entries.drop_last();
        lemma_once_each_keeps(front);
        assert(!front.contains(entries.last()));
        assert(entries =~= front.push(entries.last()));
    }
}

/// There is no first problem exactly where no entry has one.
pub proof fn lemma_no_problem(entries: Seq<Seq<char>>)
    ensures
        first_problem(entries) is None <==> forall|e: Seq<char>| #[trigger] entries.contains(e) ==> problem_of(e) is None,
    decreases entries.len(),
{
    if entries.len() > 0 {
        let front = entries.drop_last();
        lemma_no_problem(front);
        assert(entries =~= front.push(entries.last()));
        assert forall|e: Seq<char>| #[trigger] entries.contains(e) <==> front.contains(e) || e == entries.last() by {
            if front.contains(e) {
                let k = choose|k: int| 0 <= k < front.len() && front[k] == e;
                assert(entries[k] == e);
            }
            if e == entries.last() {
                assert(entries[entries.len() - 1] == e);
            }
        }
        assert(entries.contains(entries.last()));
        if first_problem(entries) is None {
            assert forall|e: Seq<char>| #[trigger] entries.contains(e) implies problem_of(e) is None by {
                if e != entries.last() {
                    assert(front.contains(e));
                }
            }
        } else if first_problem(front) is Some {
            let e = choose|e: Seq<char>| #[trigger] front.contains(e) && problem_of(e) is Some;
            assert(entries.contains(e));
        }
    }
}

/// An empty list has no entries.
proof fn lemma_empty_list(list: Seq<char>)
    requires
        list.len() == 0,
    ensures
        list_entries(list) == Seq::<Seq<char>>::empty(),
{
    let keep = |p: Seq<char>| p.len() > 0;
    text::lemma_find(list, ',', 0);
    let all = text::split_on(list, ',').map_values(|p: Seq<char>| text::trimmed(p));
    assert(text::split_on(list, ',') =~= seq![list]);
    assert(text::trimmed(list) =~= list);
    assert(all =~= seq![list]);
    sequence::lemma_filter_none(all, keep);
}

/// Two lists with a comma between them have the entries of the one and then those of the other.
proof fn lemma_list_entries_concat(a: Seq<char>, b: Seq<char>)
    ensures
        list_entries(a.push(',') + b) == list_entries(a) + list_entries(b),
{
    let trim = |p: Seq<char>| text::trimmed(p);
    text::lemma_split_concat(a, b, ',');
    let x = text::split_on(a, ',').map_values(trim);
    let y = text::split_on(b, ',').map_values(trim);
    assert(text::split_on(a.push(',') + b, ',').map_values(trim) =~= x + y);
    sequence::lemma_filter_add(x, y, |p: Seq<char>| p.len() > 0);
}

/// A list that is made of two with a comma between them admits an address exactly where one of the
/// two admits it.
pub proof fn law_joined_lists_admit_what_either_admits(a: Seq<char>, b: Seq<char>, ip: IpAddress)
    ensures
        whitelisted(a + ","@ + b, ip) <==> whitelisted(a, ip) || whitelisted(b, ip),
{
    reveal_strlit(",");
    assert(a + ","@ + b =~= a.push(',') + b);
    lemma_list_entries_concat(a, b);
    let x = list_entries(a);
    let y = list_entries(b);
    let both = list_entries(a + ","@ + b);
    assert(both == x + y);
    let admitted = |entry: Seq<char>| ip::admits(ip::parsed_network(entry), ip::parsed_ip(entry), ip);
    if whitelisted(a + ","@ + b, ip) {
        let i = choose|i: int| 0 <= i < both.len() && admitted(#[trigger] both[i]);
        if i < x.len() {
            assert(admitted(x[i]));
        } else {
            assert(admitted(y[i - x.len()]));
        }
    }
    if whitelisted(a, ip) {
        let i = choose|i: int| 0 <= i < x.len() && admitted(#[trigger] x[i]);
        assert(both[i] == x[i]);
    }
    if whitelisted(b, ip) {
        let i = choose|i: int| 0 <= i < y.len() && admitted(#[trigger] y[i]);
        assert(both[x.len() + i] == y[i]);
    }
}

/// Lists that are joined by commas have the entries of the one list after those of the other.
proof fn lemma_entries_of_joined(lists: Seq<Seq<char>>)
    ensures
        list_entries(text::joined(lists, ',')) == all_entries(lists),
    decreases lists.len(),
{
    let list = text::joined(lists, ',');
    if lists.len() == 0 {
        lemma_empty_list(list);
    } else {
        let front = lists.drop_last();
        if lists.len() == 1 {
            assert(front.len() == 0);
            assert(all_entries(front) == Seq::<Seq<char>>::empty());
            assert(all_entries(lists) =~= list_entries(list));
        } else {
            lemma_entries_of_joined(front);
            lemma_list_entries_concat(text::joined(front, ','), lists.last());
        }
    }
}

/// It makes no difference whether entries are given as one comma-separated text or as many: both
/// are stored, or refused, alike.
pub proof fn law_one_string_or_many(lists: Seq<Seq<char>>)
    ensures
        normalized(seq![text::joined(lists, ',')]) == normalized(lists),
{
    let one = seq![text::joined(lists, ',')];
    lemma_entries_of_joined(lists);
    assert(one.drop_last().len() == 0);
    assert(all_entries(one.drop_last()) == Seq::<Seq<char>>::empty());
    assert(all_entries(one) =~= all_entries(lists));
}

/// A stored whitelist reads back as the entries that were given, each where it first occurred.
pub proof fn law_stored_list_reads_back(lists: Seq<Seq<char>>)
    requires
        normalized(lists) is Ok,
    ensures
        list_entries(normalized(lists)->Ok_0) == once_each(all_entries(lists)),
{
    let kept = once_each(all_entries(lists));
    let list = text::joined(kept, ',');
    lemma_all_entries_bare(lists);
    lemma_once_each(all_entries(lists));
    assert forall|i: int| 0 <= i < kept.len() implies is_bare(#[trigger] kept[i]) by {
        assert(kept.contains(kept[i]));
        assert(all_entries(lists).contains(kept[i]));
    }
    let keep = |p: Seq<char>| p.len() > 0;
    if kept.len() == 0 {
        lemma_empty_list(list);
        assert(list_entries(list) =~= kept);
    } else {
        text::lemma_split_joined(kept, ',');
        assert(kept.map_values(|p: Seq<char>| text::trimmed(p)) =~= kept);
        sequence::lemma_filter_all(kept, keep);
    }
}

/// Storing a stored whitelist again changes nothing.
pub proof fn law_normalizing_is_idempotent(lists: Seq<Seq<char>>)
    requires
        normalized(lists) is Ok,
    ensures
        normalized(seq![normalized(lists)->Ok_0]) == normalized(lists),
{
    let list = normalized(lists)->Ok_0;
    let entries = all_entries(lists);
    law_stored_list_reads_back(lists);
    lemma_once_each(entries);
    assert(seq![list].drop_last() =~= Seq::empty());
    assert(all_entries(seq![list].drop_last()) =~= Seq::empty());
    assert(all_entries(seq![list]) =~= once_each(entries));
    lemma_once_each_keeps(once_each(entries));
    lemma_no_problem(entries);
    lemma_no_problem(once_each(entries));
    assert forall|e: Seq<char>| #[trigger] once_each(entries).contains(e) implies problem_of(e) is None by {
        assert(entries.contains(e));
    }
}

/// A stored whitelist admits an address exactly where some entry that was given admits it.
pub proof fn law_stored_list_admits(lists: Seq<Seq<char>>, ip: IpAddress)
    requires
        normalized(lists) is Ok,
    ensures
        whitelisted(normalized(lists)->Ok_0, ip) <==> exists|entry: Seq<char>|
            all_entries(lists).contains(entry) && ip::admits(
                #[trigger] ip::parsed_network(entry),
                ip::parsed_ip(entry),
                ip,
            ),
{
    let list = normalized(lists)->Ok_0;
    let entries = all_entries(lists);
    law_stored_list_reads_back(lists);
    lemma_once_each(entries);
    if whitelisted(list, ip) {
        let i = choose|i: int|
            0 <= i < list_entries(list).len() && {
                let entry = #[trigger] list_entries(list)[i];
                ip::admits(ip::parsed_network(entry), ip::parsed_ip(entry), ip)
            };
        let entry = list_entries(list)[i];
        assert(once_each(entries).contains(entry));
        assert(entries.contains(entry));
    }
    if exists|entry: Seq<char>|
        entries.contains(entry) && ip::admits(
            #[trigger] ip::parsed_network(entry),
            ip::parsed_ip(entry),
            ip,
        ) {
        let entry = choose|entry: Seq<char>|
            entries.contains(entry) && ip::admits(
                #[trigger] ip::parsed_network(entry),
                ip::parsed_ip(entry),
                ip,
            );
        assert(once_each(entries).contains(entry));
        let i = choose|i: int| 0 <= i < once_each(entries).len() && once_each(entries)[i] == entry;
        assert(list_entries(list)[i] == entry);
    }
}

/// A list without a comma has one entry, itself without the white space around it, or none where
/// that leaves nothing; a list that is made of two has the entries of the one and then of the
/// other.
pub proof fn law_entries_are_between_commas(s: Seq<char>, a: Seq<char>, b: Seq<char>)
    ensures
        !s.contains(',') ==> list_entries(s) == if text::trimmed(s).len() > 0 {
            seq![text::trimmed(s)]
        } else {
            Seq::empty()
        },
        list_entries(a + seq![','] + b) == list_entries(a) + list_entries(b),
{
    assert(a + seq![','] + b =~= a.push(',') + b);
    lemma_list_entries_concat(a, b);
    if !s.contains(',') {
        let keep = |p: Seq<char>| p.len() > 0;
        text::lemma_find_first(s, ',');
        let all = text::split_on(s, ',').map_values(|p: Seq<char>| text::trimmed(p));
        assert(text::split_on(s, ',') =~= seq![s]);
        assert(all =~= seq![text::trimmed(s)]);
        if text::trimmed(s).len() > 0 {
            sequence::lemma_filter_all(all, keep);
        } else {
            sequence::lemma_filter_none(all, keep);
        }
    }
}

/// A whitelist of one entry admits an address exactly where the entry is not empty and, without
/// the white space around it, is a network that holds the address, or is no network and is the
/// address.
pub proof fn law_single_entries_admit(s: Seq<char>, ip: IpAddress)
    requires
        !s.contains(','),
    ensures
        ({
            let entry = text::trimmed(s);
            whitelisted(s, ip) <==> entry.len() > 0 && match ip::parsed_network(entry) {
                Some(network) => network.includes(ip),
                None => ip::parsed_ip(entry) == Some(ip),
            }
        }),
{
    law_entries_are_between_commas(s, s, s);
    let entries = list_entries(s);
    if text::trimmed(s).len() > 0 {
        assert(entries[0] == text::trimmed(s));
    }
}

/// The entries of several lists are those of the first lists and then those of the others.
pub proof fn law_entries_of_several_lists(x: Seq<Seq<char>>, y: Seq<Seq<char>>, list: Seq<char>)
    ensures
        all_entries(x + y) == all_entries(x) + all_entries(y),
        all_entries(seq![list]) == list_entries(list),
        all_entries(Seq::empty()) == Seq::<Seq<char>>::empty(),
    decreases y.len(),
{
    assert(seq![list].drop_last() =~= Seq::empty());
    assert(all_entries(seq![list].drop_last()) == Seq::<Seq<char>>::empty());
    assert(all_entries(seq![list]) =~= list_entries(list));
    if y.len() == 0 {
        assert(x + y =~= x);
        assert(all_entries(x) + all_entries(y) =~= all_entries(x));
    } else {
        law_entries_of_several_lists(x, y.drop_last(), list);
        assert((x + y).drop_last() =~= x + y.drop_last());
        assert(all_entries(x + y) =~= all_entries(x) + all_entries(y));
    }
}

/// An address is accepted alone, where it reads as one, and with a prefix, where that is a number
/// of at most as many bits as such an address has: 32, or 128. Nothing else is accepted, and what
/// is refused is told by the entry.
pub proof fn law_accepted_entries(address: Seq<char>, prefix: Seq<char>)
    requires
        !address.contains('/'),
    ensures
        ({
            let ip = ip::parsed_ip(address);
            let range = address + seq!['/'] + prefix;
            let most: nat = match ip {
                Some(IpAddress::V4(_)) => 32,
                _ => 128,
            };
            let number = text::small_number(prefix);
            &&& problem_of(address) is None <==> ip is Some
            &&& problem_of(range) is None <==> ip is Some && number is Some && number->0 <= most
            &&& ip is None ==> {
                &&& problem_of(address) == Some("invalid IP address: '"@ + address + "'"@)
                &&& problem_of(range) == Some("invalid IP address: '"@ + range + "'"@)
            }
            &&& ip is Some && number is None ==> problem_of(range) == Some(
                "invalid CIDR prefix: '"@ + range + "'"@,
            )
            &&& ip is Some && number is Some && number->0 > most ==> problem_of(range) == Some(
                "CIDR prefix out of range: '"@ + range + "'"@,
            )
        }),
{
    let range = address + seq!['/'] + prefix;
    text::lemma_find_first(address, '/');
    assert(text::split_first(address, '/') is None);
    let n = address.len() as int;
    assert(range[n] == '/');
    assert forall|j: int| 0 <= j < n implies range[j] != '/' by {
        assert(range[j] == address[j]);
    }
    text::lemma_find(range, '/', n);
    assert(range.take(n) =~= address);
    assert(range.skip(n + 1) =~= prefix);
}

/// Lists are refused for the first entry that has a problem, and with that problem; where none
/// has one, they are accepted.
pub proof fn law_first_problem_decides(lists: Seq<Seq<char>>, i: int)
    ensures
        ({
            let entries = all_entries(lists);
            0 <= i < entries.len() && problem_of(entries[i]) is Some && (forall|j: int|
                0 <= j < i ==> problem_of(#[trigger] entries[j]) is None) ==> normalized(lists)
                == Err::<Seq<char>, Seq<char>>(problem_of(entries[i])->0)
        }),
        (forall|j: int|
            0 <= j < all_entries(lists).len() ==> problem_of(#[trigger] all_entries(lists)[j]) is None)
            ==> normalized(lists) is Ok,
{
    let entries = all_entries(lists);
    if 0 <= i < entries.len() && problem_of(entries[i]) is Some && (forall|j: int|
        0 <= j < i ==> problem_of(#[trigger] entries[j]) is None) {
        let front = entries.take(i);
        lemma_no_problem(front);
        assert forall|e: Seq<char>| #[trigger] front.contains(e) implies problem_of(e) is None by {
            let j = choose|j: int| 0 <= j < front.len() && front[j] == e;
            assert(entries[j] == e);
        }
        let head = entries.take(i + 1);
        assert(head.drop_last() =~= front);
        assert(head.last() == entries[i]);
        lemma_first_problem_stays(entries, i + 1);
    }
    lemma_no_problem(entries);
    if forall|j: int| 0 <= j < entries.len() ==> problem_of(#[trigger] entries[j]) is None {
        assert forall|e: Seq<char>| #[trigger] entries.contains(e) implies problem_of(e) is None by {
            let j = choose|j: int| 0 <= j < entries.len() && entries[j] == e;
            assert(problem_of(entries[j]) is None);
        }
    }
}

/// A stored list has nothing but commas between its entries: split at the commas, without any
/// trimming, it is the entries that were given, each once, in the order in which they first came.
/// Without entries it is empty.
pub proof fn law_stored_list_is_bare(lists: Seq<Seq<char>>)
    requires
        normalized(lists) is Ok,
    ensures
        ({
            let list = normalized(lists)->Ok_0;
            let entries = all_entries(lists);
            let kept = text::split_on(list, ',');
            &&& entries.len() == 0 ==> list.len() == 0
            &&& entries.len() > 0 ==> {
                &&& kept.no_duplicates()
                &&& forall|e: Seq<char>| kept.contains(e) <==> #[trigger] entries.contains(e)
                &&& forall|i: int, j: int|
                    0 <= i < j < kept.len() ==> comes_first(entries, #[trigger] kept[i], #[trigger] kept[j])
            }
        }),
{
    let list = normalized(lists)->Ok_0;
    let entries = all_entries(lists);
    let kept = once_each(entries);
    lemma_once_each(entries);
    if entries.len() == 0 {
        assert(kept.len() == 0);
    } else {
        assert(entries.contains(entries[0]));
        assert(kept.len() > 0);
        lemma_all_entries_bare(lists);
        assert forall|i: int| 0 <= i < kept.len() implies !(#[trigger] kept[i]).contains(',') by {
            assert(kept.contains(kept[i]));
            assert(entries.contains(kept[i]));
            let k = choose|k: int| 0 <= k < entries.len() && entries[k] == kept[i];
            assert(is_bare(entries[k]));
        }
        text::lemma_split_joined(kept, ',');
        lemma_once_each_order(entries);
    }
}

/// Whether `a` occurs in the sequence before `b` does for the first time.
pub open spec fn comes_first(s: Seq<Seq<char>>, a: Seq<char>, b: Seq<char>) -> bool {
    exists|k: int|
        0 <= k < s.len() && #[trigger] s[k] == a && forall|m: int| 0 <= m <= k ==> #[trigger] s[m] != b
}

proof fn lemma_once_each_order(entries: Seq<Seq<char>>)
    ensures
        forall|i: int, j: int|
            0 <= i < j < once_each(entries).len() ==> comes_first(
                entries,
                #[trigger] once_each(entries)[i],
                #[trigger] once_each(entries)[j],
            ),
    decreases entries.len(),
{
    if entries.len() > 0 {
        let front = entries.drop_last();
        let before = once_each(front);
        let kept = once_each(entries);
        lemma_once_each_order(front);
        lemma_once_each(front);
        assert forall|i: int, j: int| 0 <= i < j < kept.len() implies comes_first(
            entries,
            #[trigger] kept[i],
            #[trigger] kept[j],
        ) by {
            assert(kept[i] == before[i]);
            if j < before.len() {
                assert(comes_first(front, before[i], before[j]));
                let k = choose|k: int|
                    0 <= k < front.len() && #[trigger] front[k] == before[i] && forall|m: int|
                        0 <= m <= k ==> #[trigger] front[m] != before[j];
                assert(entries[k] == kept[i]);
                assert forall|m: int| 0 <= m <= k implies #[trigger] entries[m] != kept[j] by {
                    assert(front[m] == entries[m]);
                }
            } else {
                assert(before.contains(before[i]));
                assert(front.contains(before[i]));
                let k = choose|k: int| 0 <= k < front.len() && front[k] == before[i];
                assert(entries[k] == kept[i]);
                assert(!before.contains(entries.last()));
                assert(!front.contains(entries.last()));
                assert forall|m: int| 0 <= m <= k implies #[trigger] entries[m] != kept[j] by {
                    assert(front[m] == entries[m]);
                    assert(front.contains(front[m]));
                }
            }
        }
    }
}

/// An entry whose address part reads as some address is accepted exactly where it has no prefix or
/// one that is a number of at most as many bits as that address has; without an address it never
/// is.
pub proof fn law_checking_with_an_address(address: Seq<char>, prefix: Seq<char>, ip: IpAddress)
    requires
        !address.contains('/'),
    ensures
        ({
            let range = address + seq!['/'] + prefix;
            let most: nat = if ip is V4 { 32 } else { 128 };
            &&& entry_problem(address, Some(ip)) is None
            &&& entry_problem(range, Some(ip)) is None <==> text::small_number(prefix) is Some
                && text::small_number(prefix)->0 <= most
            &&& entry_problem(address, None) is Some && entry_problem(range, None) is Some
        }),
{
    let range = address + seq!['/'] + prefix;
    let n = address.len() as int;
    text::lemma_find_first(address, '/');
    assert(range[n] == '/');
    assert forall|j: int| 0 <= j < n implies range[j] != '/' by {
        assert(range[j] == address[j]);
    }
    text::lemma_find(range, '/', n);
    assert(range.skip(n + 1) =~= prefix);
}

}
