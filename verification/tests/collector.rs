use tradingbutler::admin::{check_new_broker, create_broker, regenerate_key, update_allowed_ips, CreateBroker};
use tradingbutler::broker::Broker;
use tradingbutler::collector::{
    authenticate, handle_message, is_message, is_ping, is_transient, named_category, publication,
    refuse, settle, with_symbols, Category, CollectedValue, Frame, GatewayMessage, GatewayValue,
    Step,
};
use tradingbutler::ip::IpAddress;
use tradingbutler::secret::sha512_hex;
use tradingbutler::string_map::StringMap;

const LOCAL: IpAddress = IpAddress::V4(0x7f000001);

fn hash(fields: &[(&str, &str)]) -> StringMap<String> {
    StringMap::from_pairs(fields.iter().map(|f| (f.0.to_string(), f.1.to_string())).collect())
}

fn broker(id: &str, api_key: &str) -> Broker {
    Broker { id: id.to_string(), api_key: api_key.to_string(), ..Broker::default() }
}

fn json(category: Option<&str>, key: &str, text: &str) -> GatewayMessage {
    GatewayMessage {
        category: category.map(|c| c.to_string()),
        key: key.to_string(),
        value: GatewayValue::Json(serde_json::from_str(text).unwrap()),
    }
}

fn accepted(result: Result<CollectedValue, String>) -> Broker {
    match result {
        Ok(CollectedValue::Broker(b)) => b,
        other => panic!("unexpected {:?}", other),
    }
}

#[test]
fn maps_known_alias_to_canonical_symbol() {
    let mut symbol_map = StringMap::new();
    symbol_map.insert("BITCOIN".to_string(), "BTCUSD".to_string());
    let broker = Broker {
        symbol_map,
        ..Broker::default()
    };
    assert_eq!(broker.canonical_symbol("BITCOIN"), Some("BTCUSD"));
}

#[test]
fn a_copy_of_a_broker_has_its_symbols() {
    let b = Broker { symbol_map: hash(&[("A", "B"), ("C", "D")]), ..broker("b1", "k") };
    let copy = b.clone();
    assert_eq!(copy.id, "b1");
    assert_eq!(copy.api_key, "k");
    assert_eq!(copy.canonical_symbol("A"), Some("B"));
    assert_eq!(copy.symbol_map.entries(), b.symbol_map.entries());
}

#[test]
fn returns_none_for_unmapped_symbol() {
    let broker = Broker::default();
    assert_eq!(broker.canonical_symbol("BITCOIN"), None);
}

#[test]
fn pings_are_recognized() {
    assert!(is_ping(b"ping"));
    assert!(!is_ping(b"pong"));
    assert!(!is_ping(b"ping "));
    assert!(!is_ping(b""));
}

#[test]
fn categories_are_named_in_any_case() {
    assert_eq!(named_category("broker"), Category::Broker);
    assert_eq!(named_category("live"), Category::Live);
    assert_eq!(named_category("LIVE"), Category::Unsupported);
    match handle_message("c", &None, json(Some("BroKer"), "k", "{\"id\":\"b\"}")) {
        Ok(Step::Register(value)) => assert_eq!(value["id"], "b"),
        _ => panic!("expected a registration"),
    }
}

#[test]
fn other_messages_are_ignored() {
    for category in [None, Some("history"), Some("")] {
        let step = handle_message("c", &None, json(category, "k", "1"));
        assert!(matches!(step, Ok(Step::Finish(CollectedValue::Nothing))));
    }
}

#[test]
fn values_that_are_no_json_fail() {
    let message = GatewayMessage {
        category: Some("live".to_string()),
        key: "k".to_string(),
        value: GatewayValue::Other("Text(\"x\")".to_string()),
    };
    match handle_message("c", &None, message) {
        Err(e) => assert_eq!(e, "received non-json message: Text(\"x\")"),
        Ok(_) => panic!("expected a failure"),
    }
}

#[test]
fn a_live_message_before_the_broker_closes_the_connection() {
    let step = handle_message("c", &None, json(Some("live"), "k", "1"));
    assert!(matches!(step, Ok(Step::Finish(CollectedValue::CloseConnection))));
}

#[test]
fn live_messages_are_published_under_the_canonical_symbol() {
    let b = Broker {
        symbol_map: hash(&[("BITCOIN", "BTCUSD")]),
        ..broker("b1", "")
    };
    match handle_message("c1", &Some(b), json(Some("Live"), "BITCOIN", "{ \"bid\": 1.5, \"ask\": [2] }")) {
        Ok(Step::Publish(p)) => {
            assert_eq!(p.stream_key, "brokers:b1:live");
            assert_eq!(p.snapshot_key, "brokers:b1:snapshot");
            assert_eq!(p.max_len, 1000);
            assert_eq!(p.symbol, "BTCUSD");
            let data = "{\"ask\":[2],\"bid\":1.5}".to_string();
            assert_eq!(p.data, data);
            let entry = vec![
                ("conn_id".to_string(), "c1".to_string()),
                ("key".to_string(), "BTCUSD".to_string()),
                ("data".to_string(), data),
            ];
            assert_eq!(p.entry, entry);
        }
        _ => panic!("expected a publication"),
    }
}

#[test]
fn symbols_without_a_mapping_are_published_as_they_are() {
    let b = Broker { symbol_map: hash(&[("BITCOIN", "BTCUSD")]), ..broker("b1", "") };
    assert_eq!(publication("c", &b, "GOLD", "1".to_string()).symbol, "GOLD");
    assert_eq!(publication("c", &b, "bitcoin", "1".to_string()).entry[1].1, "bitcoin");
}

#[test]
fn brokers_that_are_not_registered_are_refused() {
    let result = authenticate("c1", broker("b1", "k"), &StringMap::new(), LOCAL);
    assert_eq!(
        result.unwrap_err(),
        "[c1] broker 'b1' not registered \u{2014} register it in the admin dashboard first"
    );
}

#[test]
fn wrong_and_revoked_keys_are_refused() {
    let message = "[c1] invalid api_key for broker 'b1'";
    let stored = hash(&[("id", "b1"), ("api_key", "k")]);
    assert_eq!(authenticate("c1", broker("b1", "K"), &stored, LOCAL).unwrap_err(), message);
    assert_eq!(authenticate("c1", broker("b1", ""), &stored, LOCAL).unwrap_err(), message);
    let revoked = hash(&[("id", "b1"), ("api_key", "")]);
    assert_eq!(authenticate("c1", broker("b1", ""), &revoked, LOCAL).unwrap_err(), message);
    let without = hash(&[("id", "b1")]);
    assert_eq!(authenticate("c1", broker("b1", ""), &without, LOCAL).unwrap_err(), message);
}

#[test]
fn addresses_that_are_not_on_the_whitelist_are_refused() {
    let stored = hash(&[("api_key", "k"), ("allowed_ips", "10.0.0.0/8")]);
    assert_eq!(
        authenticate("c1", broker("b1", "k"), &stored, LOCAL).unwrap_err(),
        "[c1] broker 'b1': client IP 127.0.0.1 not in whitelist"
    );
    let v6 = IpAddress::V6(0x2001_0db8_0000_0000_0000_0000_0000_0001);
    assert_eq!(
        authenticate("c1", broker("b1", "k"), &stored, v6).unwrap_err(),
        "[c1] broker 'b1': client IP 2001:db8::1 not in whitelist"
    );
    // A list without entries is a list, and admits nobody.
    let commas = hash(&[("api_key", "k"), ("allowed_ips", ",")]);
    assert!(refuse("c1", &broker("b1", "k"), &commas, LOCAL).is_some());
}

#[test]
fn accepted_brokers_get_the_stored_symbols() {
    let stored = hash(&[("api_key", "k"), ("allowed_ips", "127.0.0.1"), ("symbol_map", "{\"GOLD\":\"XAUUSD\"}")]);
    let b = accepted(authenticate("c1", broker("b1", "k"), &stored, LOCAL));
    assert_eq!(b.id, "b1");
    assert_eq!(b.api_key, "k");
    assert_eq!(b.canonical_symbol("GOLD"), Some("XAUUSD"));
    assert_eq!(b.canonical_symbol("XAUUSD"), None);
}

#[test]
fn symbols_that_cannot_be_read_are_ignored() {
    for text in ["", "[]", "{\"GOLD\":1}", "{\"GOLD\""] {
        let stored = hash(&[("api_key", "k"), ("symbol_map", text)]);
        let b = accepted(authenticate("c1", broker("b1", "k"), &stored, LOCAL));
        assert_eq!(b.canonical_symbol("GOLD"), None);
    }
    let had = Broker { symbol_map: hash(&[("A", "B")]), ..broker("b1", "k") };
    assert_eq!(with_symbols(had, None).canonical_symbol("A"), Some("B"));
    let had = Broker { symbol_map: hash(&[("A", "B")]), ..broker("b1", "k") };
    let now = with_symbols(had, Some(vec![("C".to_string(), "D".to_string())]));
    assert_eq!(now.canonical_symbol("A"), None);
    assert_eq!(now.canonical_symbol("C"), Some("D"));
}

#[test]
fn an_issued_key_authenticates_until_a_new_one_is_issued() {
    let request = CreateBroker {
        id: "b1".to_string(),
        name: "First".to_string(),
        allowed_ips: vec![],
        open_account_url: String::new(),
        logo: String::new(),
    };
    let (write, _, issued) = create_broker(check_new_broker(&request).unwrap(), &StringMap::new()).unwrap();
    let mut stored = StringMap::from_pairs(write.fields);
    let digest = sha512_hex(&issued.api_key);
    accepted(authenticate("c", broker("b1", &digest), &stored, LOCAL));
    assert!(authenticate("c", broker("b1", &issued.api_key), &stored, LOCAL).is_err());

    let (write, renewed) = regenerate_key("b1".to_string(), &stored).unwrap();
    for (name, value) in write.fields {
        stored.insert(name, value);
    }
    assert!(authenticate("c", broker("b1", &digest), &stored, LOCAL).is_err());
    let renewed = sha512_hex(&renewed.api_key);
    accepted(authenticate("c", broker("b1", &renewed), &stored, LOCAL));

    let (write, _) = update_allowed_ips("b1".to_string(), &stored, &["::1".to_string()]).unwrap();
    for (name, value) in write.fields {
        stored.insert(name, value);
    }
    assert!(authenticate("c", broker("b1", &renewed), &stored, LOCAL).is_err());
    accepted(authenticate("c", broker("b1", &renewed), &stored, IpAddress::V6(1)));

    let (write, _) = update_allowed_ips("b1".to_string(), &stored, &[]).unwrap();
    for (name, value) in write.fields {
        stored.insert(name, value);
    }
    accepted(authenticate("c", broker("b1", &renewed), &stored, LOCAL));
}

#[test]
fn a_connection_keeps_the_last_authenticated_broker() {
    let mut held: Option<Broker> = None;
    assert!(settle(&mut held, Ok(CollectedValue::Nothing)));
    assert!(settle(&mut held, Err("x".to_string())));
    assert!(held.is_none());
    assert!(settle(&mut held, Ok(CollectedValue::Broker(broker("b1", "")))));
    assert!(settle(&mut held, Ok(CollectedValue::Broker(broker("b2", "")))));
    assert!(settle(&mut held, Err("x".to_string())));
    assert_eq!(held.as_ref().unwrap().id, "b2");
    assert!(!settle(&mut held, Ok(CollectedValue::CloseConnection)));
    assert_eq!(held.as_ref().unwrap().id, "b2");
}

#[test]
fn only_binary_frames_are_messages() {
    assert!(is_message(Frame::Binary));
    assert!(!is_message(Frame::Close));
    assert!(!is_message(Frame::Other));
    assert!(!is_message(Frame::Ended));
}

#[test]
fn broken_connections_are_transient() {
    assert!(is_transient("os error: broken pipe (32)"));
    assert!(is_transient("connection reset by peer"));
    assert!(!is_transient("Broken pipe"));
    assert!(!is_transient(""));
}
