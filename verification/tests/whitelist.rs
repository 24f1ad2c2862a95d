use tradingbutler::api_error::ApiError;
use tradingbutler::ip::{entry_admits, IpAddress, IpNetwork};
use tradingbutler::text;
use tradingbutler::whitelist::{
    check_ip_or_cidr, ip_allowed, normalize_ip_list, parse_ip_list, validate_ip_or_cidr,
};

fn v4(a: u32, b: u32, c: u32, d: u32) -> IpAddress {
    IpAddress::V4(a * 16777216 + b * 65536 + c * 256 + d)
}

fn problem(result: Result<(), ApiError>) -> String {
    match result {
        Err(ApiError::BadRequest(message)) => message,
        _ => panic!("expected a bad request"),
    }
}

#[test]
fn normalize_ip_list_trims_dedupes_and_validates() {
    let out = normalize_ip_list(&[
        " 1.2.3.4 ".into(),
        "10.0.0.0/8,1.2.3.4".into(),
        "::1".into(),
    ])
    .unwrap();
    assert_eq!(out, "1.2.3.4,10.0.0.0/8,::1");

    assert!(normalize_ip_list(&[String::new()]).unwrap().is_empty());
    assert!(normalize_ip_list(&["not-an-ip".into()]).is_err());
    assert!(normalize_ip_list(&["1.2.3.4/40".into()]).is_err());
}

#[test]
fn a_stored_list_reads_back_and_stays_the_same() {
    let out = normalize_ip_list(&[" ::1 ,1.2.3.4".into(), "::1".into()]).unwrap();
    assert_eq!(parse_ip_list(Some(&out)), vec!["::1".to_string(), "1.2.3.4".to_string()]);
    assert_eq!(normalize_ip_list(&[out.clone()]).unwrap(), out);
}

#[test]
fn one_text_or_many_makes_no_difference() {
    let many = ["1.2.3.4".to_string(), " ::1,1.2.3.4".to_string(), String::new(), "10.0.0.0/8".to_string()];
    let one = [many.join(",")];
    assert_eq!(normalize_ip_list(&one).unwrap(), normalize_ip_list(&many).unwrap());
    assert_eq!(normalize_ip_list(&one).unwrap(), "1.2.3.4,::1,10.0.0.0/8");
    assert_eq!(normalize_ip_list(&[]).unwrap(), "");
}

#[test]
fn a_list_of_two_admits_what_either_admits() {
    let (a, b) = ("1.2.3.4, x", "10.0.0.0/8,");
    let both = format!("{a},{b}");
    for ip in [v4(1, 2, 3, 4), v4(10, 9, 8, 7), v4(9, 9, 9, 9), IpAddress::V6(1)] {
        assert_eq!(ip_allowed(ip, &both), ip_allowed(ip, a) || ip_allowed(ip, b));
    }
}

#[test]
fn white_space_is_what_unicode_lists() {
    for code in 0..=0x10ffff_u32 {
        let Some(c) = char::from_u32(code) else {
            continue;
        };
        let listed = matches!(
            code,
            0x9..=0xd | 0x20 | 0x85 | 0xa0 | 0x1680 | 0x2000..=0x200a | 0x2028 | 0x2029 | 0x202f | 0x205f | 0x3000
        );
        assert_eq!(text::is_space(c), listed);
        assert_eq!(text::is_space(c), c.is_whitespace());
    }
}

#[test]
fn lists_are_split_trimmed_and_filtered() {
    assert_eq!(parse_ip_list(None), Vec::<String>::new());
    assert_eq!(parse_ip_list(Some(" , ,")), Vec::<String>::new());
    assert_eq!(parse_ip_list(Some("a, b ,,c")), vec!["a".to_string(), "b".to_string(), "c".to_string()]);
}

#[test]
fn entries_are_addresses_or_ranges() {
    assert!(validate_ip_or_cidr("1.2.3.4").is_ok());
    assert!(validate_ip_or_cidr("1.2.3.4/32").is_ok());
    assert!(validate_ip_or_cidr("1.2.3.4/+08").is_ok());
    assert!(validate_ip_or_cidr("::/128").is_ok());
    assert_eq!(problem(validate_ip_or_cidr("1.2.3")), "invalid IP address: '1.2.3'");
    assert_eq!(problem(validate_ip_or_cidr("x/8")), "invalid IP address: 'x/8'");
    assert_eq!(problem(validate_ip_or_cidr("1.2.3.4/")), "invalid CIDR prefix: '1.2.3.4/'");
    assert_eq!(problem(validate_ip_or_cidr("1.2.3.4/8/8")), "invalid CIDR prefix: '1.2.3.4/8/8'");
    assert_eq!(problem(validate_ip_or_cidr("::1/256")), "invalid CIDR prefix: '::1/256'");
    assert_eq!(problem(validate_ip_or_cidr("1.2.3.4/33")), "CIDR prefix out of range: '1.2.3.4/33'");
    assert_eq!(problem(validate_ip_or_cidr("::1/129")), "CIDR prefix out of range: '::1/129'");
}

#[test]
fn the_address_decides_how_long_a_prefix_may_be() {
    assert!(check_ip_or_cidr("e/64", Some(IpAddress::V6(0))).is_ok());
    assert_eq!(problem(check_ip_or_cidr("e/64", Some(IpAddress::V4(0)))), "CIDR prefix out of range: 'e/64'");
    assert_eq!(problem(check_ip_or_cidr("e/64", None)), "invalid IP address: 'e/64'");
    assert!(check_ip_or_cidr("e", Some(IpAddress::V4(0))).is_ok());
}

#[test]
fn a_whitelist_admits_its_addresses_and_ranges() {
    let list = "1.2.3.4, 10.0.0.0/8 ,2001:db8::/32";
    assert!(ip_allowed(v4(1, 2, 3, 4), list));
    assert!(!ip_allowed(v4(1, 2, 3, 5), list));
    assert!(ip_allowed(v4(10, 200, 0, 1), list));
    assert!(!ip_allowed(v4(11, 0, 0, 0), list));
    assert!(ip_allowed(IpAddress::V6(0x2001_0db8_ffff_0000_0000_0000_0000_0001), list));
    assert!(!ip_allowed(IpAddress::V6(0x2001_0db9_0000_0000_0000_0000_0000_0000), list));
    assert!(!ip_allowed(v4(1, 2, 3, 4), ""));
    assert!(!ip_allowed(v4(1, 2, 3, 4), "nonsense,1.2.3"));
}

#[test]
fn prefixes_of_zero_admit_one_family() {
    assert!(ip_allowed(v4(255, 255, 255, 255), "0.0.0.0/0"));
    assert!(!ip_allowed(IpAddress::V6(0), "0.0.0.0/0"));
    assert!(ip_allowed(IpAddress::V6(u128::MAX), "::/0"));
    assert!(!ip_allowed(v4(0, 0, 0, 0), "::/0"));
}

#[test]
fn host_bits_of_a_range_do_not_count() {
    assert!(ip_allowed(v4(192, 168, 1, 7), "192.168.1.99/24"));
    assert!(!ip_allowed(v4(192, 168, 2, 7), "192.168.1.99/24"));
}

#[test]
fn an_entry_that_is_a_network_is_not_tried_as_an_address() {
    let network = IpNetwork { address: IpAddress::V4(8), prefix: 32 };
    assert!(!entry_admits(Some(network), Some(IpAddress::V4(9)), IpAddress::V4(9)));
    assert!(entry_admits(None, Some(IpAddress::V4(9)), IpAddress::V4(9)));
    assert!(!entry_admits(None, None, IpAddress::V4(9)));
    assert!(entry_admits(Some(IpNetwork { address: IpAddress::V6(8), prefix: 125 }), None, IpAddress::V6(15)));
}

#[test]
fn texts_are_trimmed_split_and_searched() {
    assert_eq!(text::trim("\u{a0} a b\t\n"), "a b");
    assert_eq!(text::trim(" \u{3000}"), "");
    assert_eq!(text::split("a,,b", ','), vec!["a", "", "b"]);
    assert_eq!(text::split("", ','), vec![""]);
    assert_eq!(text::split_once("a/b/c", '/'), Some(("a", "b/c")));
    assert_eq!(text::split_once("abc", '/'), None);
    assert_eq!(text::strip_prefix("brokers:x", "brokers:"), Some("x"));
    assert_eq!(text::strip_prefix("broker", "brokers:"), None);
    assert!(text::has_text("the \u{e9}t\u{e9} ends", "t\u{e9}"));
    assert!(text::has_text("x", ""));
    assert!(!text::has_text("ab", "abc"));
    assert!(text::has_char("a:b", ':'));
    assert!(!text::has_char("ab", ':'));
}

#[test]
fn texts_are_ordered_as_strings() {
    let words = ["", "A", "a", "aa", "ab", "b", "\u{e9}", "\u{1f600}"];
    for a in words {
        for b in words {
            assert_eq!(text::text_no_later(a, b), a <= b);
        }
    }
}

#[test]
fn small_numbers_are_read_as_bytes_are() {
    for s in ["0", "7", "+7", "007", "255", "256", "1000", "", "+", "-1", "1a", " 1", "++1", "\u{661}"] {
        assert_eq!(text::parse_small_number(s), s.parse::<u8>().ok());
    }
}

#[test]
fn bytes_are_written_in_hexadecimal_digits() {
    assert_eq!(text::to_hex(&[0, 9, 10, 255, 160]), "00090affa0");
    assert_eq!(text::join_commas(&vec!["a".to_string(), "b".to_string()]), "a,b");
}
