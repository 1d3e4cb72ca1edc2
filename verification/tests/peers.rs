//! Peers, device information and the input of users.
use miracast::device::{
    can_decode_hex, decode_hex, hex_digit, is_mac_address, parse_wfd_rtsp_port,
    validate_peer_address, validate_wfd_device_info,
};
use miracast::error::ErrorCase;
use miracast::fields::FieldMap;
use miracast::peer::{can_read_details, first_field, parse_peer_details, sort_peers, MiracastPeer};

fn peer(address: &str, name: &str) -> MiracastPeer {
    parse_peer_details(address, &format!("device_name={name}"))
}

#[test]
fn hexadecimal_digits_are_those_of_ascii() {
    for c in '\0'..'\u{300}' {
        assert_eq!(hex_digit(c), c.to_digit(16).map(|d| d as u8), "{c:?}");
    }
}

#[test]
fn hexadecimal_bytes_are_decoded() {
    assert_eq!(decode_hex(""), Some(vec![]));
    assert_eq!(decode_hex("00ffAb"), Some(vec![0x00, 0xff, 0xab]));
    assert_eq!(decode_hex("+a10"), Some(vec![0x0a, 0x10]));
    assert_eq!(decode_hex("a+"), None);
    assert_eq!(decode_hex("0"), None);
    assert_eq!(decode_hex("zz"), None);
    assert_eq!(decode_hex("éa"), None);
}

#[test]
fn characters_across_two_bytes_are_told_apart() {
    // An odd number of bytes and a pair that is one character can be decoded.
    assert!(can_decode_hex("é0"));
    assert!(can_decode_hex("00é"));
    assert!(can_decode_hex("zz0é0"));
    // A character that starts within a pair cannot.
    assert!(!can_decode_hex("0é0"));
    assert!(!can_decode_hex("\u{20ac}0"));
    assert!(!can_decode_hex("\u{1f600}"));
    assert!(can_read_details("wfd_subelems=0000"));
    assert!(!can_read_details("wfd_subelems=0é0"));
    assert!(can_read_details("wfd_subelems=0é0\nwfd_rtsp_port=7236"));
}

#[test]
fn other_subelements_are_passed_over() {
    assert_eq!(parse_wfd_rtsp_port("010002aabb00000600111c440032"), Some(7236));
    assert_eq!(parse_wfd_rtsp_port("01000000000600111c440032ffff"), Some(7236));
}

#[test]
fn short_device_information_has_no_port() {
    assert_eq!(parse_wfd_rtsp_port(""), None);
    assert_eq!(parse_wfd_rtsp_port("00111c"), None);
    assert_eq!(parse_wfd_rtsp_port("00111c44"), Some(7236));
    assert_eq!(parse_wfd_rtsp_port("0011zz44"), None);
}

#[test]
fn device_information_can_be_mistaken() {
    // Read as a length, the bitmap covers the rest: the port is then taken from
    // behind it.
    assert_eq!(parse_wfd_rtsp_port("00041c440032"), Some(0x0032));
}

#[test]
fn addresses_are_checked() {
    assert!(is_mac_address("AA:bb:00:12:34:56"));
    for s in ["", "aa:bb:cc:dd:ee", "aa-bb-cc-dd-ee-ff", "aa:bb:cc:dd:ee:fg", "aa:bb:cc:dd:ee:ff "] {
        assert!(!is_mac_address(s));
        let e = validate_peer_address(s).unwrap_err();
        assert_eq!(e.case, ErrorCase::PeerAddress);
        assert_eq!(
            e.message,
            format!("peer must be a P2P device MAC address, got `{s}`")
        );
    }
    assert!(validate_peer_address("aa:bb:cc:dd:ee:ff").is_ok());
}

#[test]
fn device_information_is_checked() {
    assert!(validate_wfd_device_info("").is_ok());
    assert!(validate_wfd_device_info("000600111C440032").is_ok());
    let e = validate_wfd_device_info("000").unwrap_err();
    assert_eq!(e.case, ErrorCase::DeviceInfoLength);
    assert_eq!(e.message, "WFD device info must have an even number of hex digits");
    for s in ["zz", "+a", "é"] {
        let e = validate_wfd_device_info(s).unwrap_err();
        assert_eq!(e.case, ErrorCase::DeviceInfoDigits);
        assert_eq!(e.message, "WFD device info must contain only hex digits");
    }
}

#[test]
fn first_fields_come_in_the_order_of_the_keys() {
    let mut fields = FieldMap::new();
    fields.insert(String::from("name"), String::from("b"));
    assert_eq!(first_field(&fields, &["device_name", "name"]), Some("b"));
    fields.insert(String::from("device_name"), String::from("a"));
    assert_eq!(first_field(&fields, &["device_name", "name"]), Some("a"));
    assert_eq!(first_field(&fields, &["other"]), None);
    assert_eq!(first_field(&fields, &[]), None);
}

#[test]
fn peers_without_wifi_display_are_told_apart() {
    let p = parse_peer_details("aa:bb:cc:dd:ee:ff", "name=Phone\r\ndevice_type=10-0050F204-5\n");
    assert_eq!(p.address, "aa:bb:cc:dd:ee:ff");
    assert_eq!(p.name.as_deref(), Some("Phone"));
    assert_eq!(p.device_type.as_deref(), Some("10-0050F204-5"));
    assert!(!p.is_miracast);
    assert_eq!(p.rtsp_port, None);
    assert_eq!(p.config_methods, None);
    assert_eq!(p.fields.keys(), ["device_type", "name"]);
}

#[test]
fn ports_that_are_stated_come_first() {
    let p = parse_peer_details("", "wfd_rtsp_port=1\nwfd_subelems=00000600111c440032");
    assert_eq!(p.rtsp_port, Some(1));
    let p = parse_peer_details("", "wfd_rtsp_port=none\nwfd_subelems=00000600111c440032");
    assert_eq!(p.rtsp_port, Some(7236));
    let p = parse_peer_details("", "wfd_rtsp_ctrlport=x\nwfd_rtsp_port=7");
    assert_eq!(p.rtsp_port, None);
    assert!(p.is_miracast);
}

#[test]
fn fields_of_a_peer_are_trimmed_and_the_last_one_stays() {
    let p = parse_peer_details("", " a = 1 = 2 \nb\n a =3\n=4\n");
    assert_eq!(p.fields.get("a").map(String::as_str), Some("3"));
    assert_eq!(p.fields.get("").map(String::as_str), Some("4"));
    assert_eq!(p.fields.keys(), ["", "a"]);
}

#[test]
fn peers_are_listed_by_name_and_address() {
    let mut nameless = peer("05", "x");
    nameless.name = None;
    let list = vec![
        peer("03", "TV"),
        peer("02", "Beamer"),
        peer("01", "TV"),
        nameless,
        peer("04", ""),
    ];
    let addresses: Vec<String> = sort_peers(list).into_iter().map(|p| p.address).collect();
    assert_eq!(addresses, ["04", "05", "02", "01", "03"]);
}
