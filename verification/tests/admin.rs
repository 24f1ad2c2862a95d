use tradingbutler::admin::{
    broker_fields, broker_key, broker_key_pattern, check_new_broker, create_broker, create_broker_with_key,
    delete_broker, regenerate_key, regenerate_key_with, update_allowed_ips, update_logo,
    update_open_account_url, CreateBroker, HashWrite,
};
use tradingbutler::api_error::ApiError;
use tradingbutler::listing::{broker_summary, list_brokers};
use tradingbutler::namespace::{bare_key, namespaced};
use tradingbutler::secret::{key_from, new_api_key, new_connection_id, sha512_hex};
use tradingbutler::string_map::StringMap;

fn hash(fields: &[(&str, &str)]) -> StringMap<String> {
    StringMap::from_pairs(fields.iter().map(|f| (f.0.to_string(), f.1.to_string())).collect())
}

fn stored(write: HashWrite) -> StringMap<String> {
    StringMap::from_pairs(write.fields)
}

fn request(id: &str, name: &str, allowed_ips: &[&str]) -> CreateBroker {
    CreateBroker {
        id: id.to_string(),
        name: name.to_string(),
        allowed_ips: allowed_ips.iter().map(|s| s.to_string()).collect(),
        open_account_url: " https://open.example ".to_string(),
        logo: "\tdata:image/png;base64,AAAA\n".to_string(),
    }
}

fn bad_request(result: Result<tradingbutler::admin::NewBroker, ApiError>) -> String {
    match result {
        Err(ApiError::BadRequest(message)) => message,
        other => panic!("unexpected {:?}", other),
    }
}

fn not_found<T>(result: Result<T, ApiError>) -> String {
    match result {
        Err(ApiError::NotFound(message)) => message,
        _ => panic!("expected not found"),
    }
}

#[test]
fn sha512_hex_matches_known_digest() {
    // Same digest openssl/sha2 produce for "abc".
    assert_eq!(
        sha512_hex("abc"),
        "ddaf35a193617abacc417349ae20413112e6fa4e89a97ea20a9eeee64b55d39a\
         2192992a274fc1a836ba3c23a3feebbd454d4423643ce80e2a9ac94fa54ca49f"
    );
}

#[test]
fn digest_is_of_the_utf8_bytes() {
    assert_eq!(
        sha512_hex(""),
        "cf83e1357eefb8bdf1542850d66d8007d620e4050b5715dc83f4a921d36ce9ce\
         47d0d13c5d85f2b0ff8318d2877eec2f63b931bd47417a81a538327af927da3e"
    );
    assert_ne!(sha512_hex("\u{e9}"), sha512_hex("e"));
}

#[test]
fn fresh_keys_are_64_hex_digits_and_differ() {
    let a = new_api_key();
    let b = new_api_key();
    assert_eq!(a.len(), 64);
    assert!(a.chars().all(|c| matches!(c, '0'..='9' | 'a'..='f')));
    for start in [0, 32] {
        let digits: Vec<char> = a[start..start + 32].chars().collect();
        assert_eq!(digits[12], '4');
        assert!(matches!(digits[16], '8' | '9' | 'a' | 'b'));
    }
    assert_ne!(a, b);
}

#[test]
fn a_key_is_made_of_two_texts_in_order() {
    assert_eq!(key_from("ab", "12"), "ab12");
    assert_eq!(key_from("", "x"), "x");
}

#[test]
fn keys_are_put_into_namespaces_and_taken_out() {
    assert_eq!(namespaced("ns", "brokers:b1"), "ns:brokers:b1");
    assert_eq!(bare_key("ns", "ns:brokers:b1"), "brokers:b1");
    assert_eq!(bare_key("ns", "nsbrokers:b1"), "nsbrokers:b1");
    assert_eq!(bare_key("ns", "ns"), "ns");
    assert_eq!(bare_key("", ":x"), "x");
    // The writer finds brokers where they are stored.
    assert_eq!(namespaced("tradingbutler", "broker:b1"), broker_key("b1"));
}

#[test]
fn connection_ids_have_the_form_of_uuids() {
    let id = new_connection_id();
    assert_eq!(id.len(), 36);
    for (i, c) in id.chars().enumerate() {
        if matches!(i, 8 | 13 | 18 | 23) {
            assert_eq!(c, '-');
        } else {
            assert!(matches!(c, '0'..='9' | 'a'..='f'));
        }
    }
    let digits: Vec<char> = id.chars().collect();
    assert_eq!(digits[14], '4');
    assert!(matches!(digits[19], '8' | '9' | 'a' | 'b'));
    assert_ne!(id, new_connection_id());
}

#[test]
fn keys_hold_the_id_behind_the_prefix() {
    assert_eq!(broker_key("b1"), "tradingbutler:broker:b1");
    assert_eq!(broker_key_pattern(), "tradingbutler:broker:*");
}

#[test]
fn id_and_name_are_required() {
    assert_eq!(bad_request(check_new_broker(&request("  ", "n", &[]))), "id and name are required");
    assert_eq!(bad_request(check_new_broker(&request("b", " \t", &[]))), "id and name are required");
}

#[test]
fn ids_hold_no_white_space_and_no_colon() {
    let message = "id must not contain spaces or ':'";
    assert_eq!(bad_request(check_new_broker(&request("a b", "n", &[]))), message);
    assert_eq!(bad_request(check_new_broker(&request("a:b", "n", &[]))), message);
    assert_eq!(bad_request(check_new_broker(&request("a\u{2003}b", "n", &[]))), message);
}

#[test]
fn a_faulty_whitelist_is_refused_after_the_id_was_checked() {
    assert_eq!(
        bad_request(check_new_broker(&request("b", "n", &["1.2.3.4", "x"]))),
        "invalid IP address: 'x'"
    );
    assert_eq!(
        bad_request(check_new_broker(&request("", "n", &["x"]))),
        "id and name are required"
    );
}

#[test]
fn a_created_broker_is_stored_with_a_digest() {
    let broker = check_new_broker(&request(" b1 ", " First ", &["10.0.0.0/8, 1.2.3.4", "1.2.3.4"])).unwrap();
    let (write, status, issued) =
        create_broker_with_key(broker, &StringMap::new(), "abc".to_string()).unwrap();
    assert_eq!(status, 201);
    assert_eq!(write.key, "tradingbutler:broker:b1");
    let expected: Vec<(String, String)> = vec![
        ("id".to_string(), "b1".to_string()),
        ("name".to_string(), "First".to_string()),
        ("api_key".to_string(), sha512_hex("abc")),
        ("allowed_ips".to_string(), "10.0.0.0/8,1.2.3.4".to_string()),
        ("open_account_url".to_string(), "https://open.example".to_string()),
        ("logo".to_string(), "data:image/png;base64,AAAA".to_string()),
    ];
    assert_eq!(write.fields, expected);
    assert_eq!(issued.id, "b1");
    assert_eq!(issued.name, "First");
    assert_eq!(issued.api_key, "abc");
}

#[test]
fn the_digest_is_stored_as_the_key() {
    let broker = check_new_broker(&request("b1", "First", &[])).unwrap();
    let fields = broker_fields(&broker, "digest".to_string());
    assert_eq!(fields[2], ("api_key".to_string(), "digest".to_string()));
    assert_eq!(fields.len(), 6);
}

#[test]
fn a_created_broker_reads_back() {
    let broker = check_new_broker(&request("b1", "First", &["::1"])).unwrap();
    let (write, _, issued) = create_broker(broker, &StringMap::new()).unwrap();
    assert_eq!(issued.api_key.len(), 64);
    let key = write.key.clone();
    let fields = stored(write);
    assert_eq!(fields.text("api_key"), sha512_hex(&issued.api_key));
    assert_ne!(fields.text("api_key"), issued.api_key);
    let summary = broker_summary(&key, &fields);
    assert_eq!(summary.id, "b1");
    assert_eq!(summary.name, "First");
    assert!(summary.has_key);
    assert_eq!(summary.allowed_ips, vec!["::1".to_string()]);
    assert_eq!(summary.open_account_url, "https://open.example");
    assert_eq!(summary.logo.as_deref(), Some("data:image/png;base64,AAAA"));
}

#[test]
fn an_existing_broker_is_not_created_again() {
    let broker = check_new_broker(&request("b1", "First", &[])).unwrap();
    match create_broker(broker, &hash(&[("id", "b1")])) {
        Err(ApiError::Conflict(message)) => assert_eq!(message, "broker 'b1' already exists"),
        _ => panic!("expected a conflict"),
    }
}

#[test]
fn a_new_key_replaces_the_digest_alone() {
    let fields = hash(&[("name", "First"), ("api_key", "old"), ("logo", "l")]);
    let (write, issued) = regenerate_key_with("b1".to_string(), &fields, "abc".to_string()).unwrap();
    assert_eq!(write.key, "tradingbutler:broker:b1");
    assert_eq!(write.fields, vec![("api_key".to_string(), sha512_hex("abc"))]);
    assert_eq!(issued.name, "First");
    assert_eq!(issued.api_key, "abc");

    let (write, issued) = regenerate_key("b1".to_string(), &fields).unwrap();
    assert_eq!(write.fields, vec![("api_key".to_string(), sha512_hex(&issued.api_key))]);
}

#[test]
fn brokers_that_are_not_stored_are_not_found() {
    let none = StringMap::new();
    let message = "broker 'b1' not found";
    assert_eq!(not_found(regenerate_key("b1".to_string(), &none)), message);
    assert_eq!(not_found(update_logo("b1", &none, "x")), message);
    assert_eq!(not_found(update_open_account_url("b1", &none, "x")), message);
    assert_eq!(not_found(update_allowed_ips("b1".to_string(), &none, &["x".to_string()])), message);
    assert_eq!(not_found(delete_broker("b1", &none, "ns")), message);
}

#[test]
fn updates_set_one_trimmed_field() {
    let fields = hash(&[("name", "First")]);
    let (write, status) = update_logo("b1", &fields, " data: ").unwrap();
    assert_eq!(status, 204);
    assert_eq!(write.key, "tradingbutler:broker:b1");
    assert_eq!(write.fields, vec![("logo".to_string(), "data:".to_string())]);

    let (write, status) = update_open_account_url("b1", &fields, "\nhttps://x\t").unwrap();
    assert_eq!(status, 204);
    assert_eq!(write.fields, vec![("open_account_url".to_string(), "https://x".to_string())]);
}

#[test]
fn a_new_whitelist_is_answered_with_the_broker() {
    let fields = hash(&[("id", "other"), ("name", "First"), ("api_key", "d"), ("allowed_ips", "9.9.9.9")]);
    let lists = vec![" 1.2.3.4 , ::1".to_string(), "1.2.3.4".to_string()];
    let (write, summary) = update_allowed_ips("b1".to_string(), &fields, &lists).unwrap();
    assert_eq!(write.fields, vec![("allowed_ips".to_string(), "1.2.3.4,::1".to_string())]);
    assert_eq!(summary.id, "b1");
    assert_eq!(summary.name, "First");
    assert!(summary.has_key);
    assert_eq!(summary.allowed_ips, vec!["1.2.3.4".to_string(), "::1".to_string()]);
    assert_eq!(summary.logo, None);

    match update_allowed_ips("b1".to_string(), &fields, &["1.2.3.4/33".to_string()]) {
        Err(ApiError::BadRequest(message)) => {
            assert_eq!(message, "CIDR prefix out of range: '1.2.3.4/33'")
        }
        _ => panic!("expected a bad request"),
    }
}

#[test]
fn deleting_names_the_hash_the_stream_and_the_snapshot() {
    let (keys, status) = delete_broker("b1", &hash(&[("id", "b1")]), "ns").unwrap();
    assert_eq!(status, 204);
    assert_eq!(
        keys,
        vec![
            "tradingbutler:broker:b1".to_string(),
            "tradingbutler:b1:live".to_string(),
            "tradingbutler:b1:snapshot".to_string(),
            "ns:brokers:b1:live".to_string(),
            "ns:brokers:b1:snapshot".to_string(),
        ]
    );
    // Nothing of another broker is among them.
    assert!(!keys.contains(&broker_key("b2")));
    let (others, _) = delete_broker("b2", &hash(&[("id", "b2")]), "ns").unwrap();
    assert!(!keys.iter().any(|key| others.contains(key)));
}

#[test]
fn errors_are_answered_with_a_status_and_a_json_object() {
    let cases = vec![
        (ApiError::BadRequest("a \"b\"".to_string()), 400, "{\"error\":\"a \\\"b\\\"\"}"),
        (ApiError::NotFound("x".to_string()), 404, "{\"error\":\"x\"}"),
        (ApiError::Conflict("y".to_string()), 409, "{\"error\":\"y\"}"),
        (ApiError::Internal(String::new()), 500, "{\"error\":\"\"}"),
    ];
    for (error, status, body) in cases {
        assert_eq!(error.into_response(), (status, body.to_string()));
    }
}

#[test]
fn the_listing_is_in_the_order_of_the_ids() {
    let hashes = vec![
        ("tradingbutler:broker:b".to_string(), hash(&[("name", "B"), ("logo", "")])),
        ("tradingbutler:broker:z".to_string(), hash(&[("id", "a"), ("api_key", ""), ("logo", "l")])),
        ("elsewhere".to_string(), hash(&[("name", "none")])),
        ("tradingbutler:broker:B".to_string(), hash(&[("api_key", "d"), ("allowed_ips", " 1.1.1.1 ,, ::1 ")])),
    ];
    let list = list_brokers(&hashes);
    let ids: Vec<&str> = list.iter().map(|b| b.id.as_str()).collect();
    assert_eq!(ids, vec!["", "B", "a", "b"]);
    assert_eq!(list[1].allowed_ips, vec!["1.1.1.1".to_string(), "::1".to_string()]);
    assert!(list[1].has_key);
    assert!(!list[2].has_key);
    assert_eq!(list[2].logo.as_deref(), Some("l"));
    assert_eq!(list[3].logo, None);
    assert_eq!(list[3].name, "B");
    assert_eq!(list[3].open_account_url, "");
}

#[test]
fn the_listing_does_not_depend_on_the_order_of_the_keys() {
    let hashes = |order: &[usize]| -> Vec<(String, StringMap<String>)> {
        order.iter().map(|i| (format!("tradingbutler:broker:b{i}"), hash(&[("name", &format!("n{i}"))]))).collect()
    };
    let names = |order: &[usize]| -> Vec<String> {
        list_brokers(&hashes(order)).into_iter().map(|b| b.name).collect()
    };
    assert_eq!(names(&[1, 2, 3]), names(&[3, 1, 2]));
    assert_eq!(names(&[2, 1]), vec!["n1".to_string(), "n2".to_string()]);
}

#[test]
fn a_summary_tells_only_whether_there_is_a_key() {
    let summary = |key: &str| format!("{:?}", broker_summary("k", &hash(&[("id", "b"), ("api_key", key)])));
    assert_eq!(summary("one"), summary("other"));
    assert_ne!(summary("one"), summary(""));
}

#[test]
fn an_update_changes_one_thing_that_clients_are_told() {
    let mut fields = hash(&[("id", "b"), ("name", "n"), ("api_key", "d"), ("open_account_url", "u"), ("logo", "l")]);
    let before = broker_summary("k", &fields);
    for (name, value) in update_logo("b", &fields, " new ").unwrap().0.fields {
        fields.insert(name, value);
    }
    let after = broker_summary("k", &fields);
    assert_eq!(after.logo.as_deref(), Some("new"));
    assert_eq!(after.name, before.name);
    assert_eq!(after.has_key, before.has_key);
    assert_eq!(after.open_account_url, before.open_account_url);
    for (name, value) in update_open_account_url("b", &fields, "v").unwrap().0.fields {
        fields.insert(name, value);
    }
    let last = broker_summary("k", &fields);
    assert_eq!(last.open_account_url, "v");
    assert_eq!(last.logo, after.logo);
    assert_eq!(last.id, before.id);
}

#[test]
fn brokers_with_one_id_keep_their_order_in_the_listing() {
    let hashes = vec![
        ("k1".to_string(), hash(&[("id", "x"), ("name", "first")])),
        ("k2".to_string(), hash(&[("id", "a"), ("name", "other")])),
        ("k3".to_string(), hash(&[("id", "x"), ("name", "second")])),
    ];
    let names: Vec<String> = list_brokers(&hashes).into_iter().map(|b| b.name).collect();
    assert_eq!(names, vec!["other".to_string(), "first".to_string(), "second".to_string()]);
}
