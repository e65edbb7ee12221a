use s7_event_monitor::comms::{
    edit_entry, generate_server_id, ipv4_string, no_peer, parse_port, server_id_from_nanos,
    slot_of_ipv4, EditError, PeerAddress, PeerIp, ServerEntry, ServerStatus, ServerStatusInfo,
};
use s7_event_monitor::utils::{fixed_array_to_string, same_id, string_to_fixed_array};
use s7_event_monitor::xmlhandling::{
    deserialize_bytes_from_base64, id_from_decoded, serialize_bytes_as_base64, IdError,
};

#[test]
fn short_text_is_padded_with_zeros() {
    let array = string_to_fixed_array("plc-7");
    assert_eq!(&array[..5], b"plc-7");
    assert!(array[5..].iter().all(|&b| b == 0));
}

#[test]
fn empty_text_is_all_zeros() {
    assert_eq!(string_to_fixed_array(""), [0u8; 32]);
}

#[test]
fn long_text_is_cut_at_32_bytes() {
    let text = "0123456789abcdefghijklmnopqrstuvwxyz";
    let array = string_to_fixed_array(text);
    assert_eq!(&array[..], &text.as_bytes()[..32]);
    let exact = "0123456789abcdefghijklmnopqrstuv";
    assert_eq!(&string_to_fixed_array(exact)[..], exact.as_bytes());
}

#[test]
fn text_is_kept_as_utf8_bytes() {
    let array = string_to_fixed_array("é");
    assert_eq!(&array[..2], &[0xC3, 0xA9]);
    assert!(array[2..].iter().all(|&b| b == 0));
}

#[test]
fn text_is_read_back_up_to_the_first_zero() {
    assert_eq!(fixed_array_to_string(&string_to_fixed_array("plc-7")), "plc-7");
    assert_eq!(fixed_array_to_string(&[0u8; 32]), "");
    let mut array = string_to_fixed_array("abc");
    array[10] = b'x';
    assert_eq!(fixed_array_to_string(&array), "abc");
    let full = "0123456789abcdefghijklmnopqrstuv";
    assert_eq!(fixed_array_to_string(&string_to_fixed_array(full)), full);
}

#[test]
fn ill_formed_bytes_are_replaced() {
    let mut array = [0u8; 32];
    array[0] = b'a';
    array[1] = 0xFF;
    array[2] = b'b';
    assert_eq!(fixed_array_to_string(&array), "a\u{FFFD}b");
    let cut = string_to_fixed_array("0123456789abcdefghijklmnopqrstué");
    assert_eq!(fixed_array_to_string(&cut), "0123456789abcdefghijklmnopqrstu\u{FFFD}");
}

#[test]
fn identifiers_are_compared_byte_by_byte() {
    let a = string_to_fixed_array("a");
    let b = string_to_fixed_array("b");
    assert!(same_id(&a, &a));
    assert!(!same_id(&a, &b));
    let mut late = a;
    late[31] = 1;
    assert!(!same_id(&a, &late));
}

#[test]
fn status_identifier_is_set_and_matched() {
    let mut status = ServerStatusInfo::fresh(3, [0u8; 32], false);
    status.is_running = true;
    status.set_server_id("line-4");
    assert_eq!(*status.get_server_id(), string_to_fixed_array("line-4"));
    assert!(status.matches_server_id(&string_to_fixed_array("line-4")));
    assert!(!status.matches_server_id(&string_to_fixed_array("line-5")));
    assert_eq!(status.idx, 3);
    assert!(status.is_running);
}

#[test]
fn fresh_status_has_nothing_set() {
    let status = ServerStatusInfo::fresh(2, [7u8; 32], true);
    assert_eq!(
        status,
        ServerStatusInfo {
            idx: 2,
            server_id: [7u8; 32],
            new_data: true,
            is_running: false,
            is_connected: false,
            is_alive: false,
            last_packet_time: 0,
            peer_ip: [0u8; 16],
        }
    );
    assert_eq!(no_peer(), [0u8; 16]);
}

#[test]
fn identifier_from_nanoseconds_is_their_numeral() {
    assert_eq!(fixed_array_to_string(&server_id_from_nanos(0)), "0");
    assert_eq!(fixed_array_to_string(&server_id_from_nanos(1_700_000_000_123_456_789)), "1700000000123456789");
    assert_eq!(
        server_id_from_nanos(u128::MAX)[..],
        b"340282366920938463463374607431768211455"[..32]
    );
}

#[test]
fn generated_identifier_is_a_numeral_of_the_present() {
    let text = fixed_array_to_string(&generate_server_id());
    let nanos: u128 = text.parse().expect("decimal digits");
    assert!(nanos > 1_600_000_000_000_000_000);
    assert!(text.len() <= 32);
}

#[test]
fn new_status_list_has_one_idle_server() {
    let status = ServerStatus::new();
    assert_eq!(status.server.len(), 1);
    let only = status.server[0];
    assert_eq!(only, ServerStatusInfo::fresh(0, only.server_id, false));
    let text = fixed_array_to_string(&only.server_id);
    assert!(!text.is_empty());
    assert!(text.bytes().all(|b| b.is_ascii_digit()));
}

fn three_servers() -> ServerStatus {
    ServerStatus {
        server: vec![
            ServerStatusInfo::fresh(0, [1u8; 32], false),
            ServerStatusInfo::fresh(1, [2u8; 32], false),
            ServerStatusInfo::fresh(2, [3u8; 32], false),
        ],
    }
}

#[test]
fn ipv4_peer_fills_the_first_four_bytes() {
    let mut status = three_servers();
    status.set_ipv6(1, [9u8; 16]);
    status.set_ipv4(1, [192, 168, 1, 10]);
    assert_eq!(status.server[1].peer_ip, [192, 168, 1, 10, 0, 0, 0, 0, 0, 0, 0, 0, 0, 0, 0, 0]);
    assert_eq!(status.server[0], ServerStatusInfo::fresh(0, [1u8; 32], false));
    assert_eq!(status.server[2], ServerStatusInfo::fresh(2, [3u8; 32], false));
    assert_eq!(status.peer_ip(1), PeerIp::V4([192, 168, 1, 10]));
    assert_eq!(slot_of_ipv4(&[1, 2, 3, 4])[..5], [1, 2, 3, 4, 0]);
}

#[test]
fn ipv6_peer_fills_the_slot() {
    let mut status = three_servers();
    let mut address = [0u8; 16];
    address[0] = 0x20;
    address[1] = 0x01;
    address[15] = 1;
    status.set_ipv6(2, address);
    assert_eq!(status.server[2].peer_ip, address);
    assert_eq!(status.peer_ip(2), PeerIp::V6(address));
    status.set_ipv4(2, [10, 0, 0, 1]);
    assert_eq!(status.peer_ip(2), PeerIp::V4([10, 0, 0, 1]));
}

#[test]
fn servers_are_found_by_identifier() {
    let mut status = three_servers();
    assert_eq!(status.position_of(&[1u8; 32]), Some(0));
    assert_eq!(status.position_of(&[3u8; 32]), Some(2));
    assert_eq!(status.position_of(&[4u8; 32]), None);
    status.server.remove(0);
    assert_eq!(status.position_of(&[3u8; 32]), Some(1));
    assert_eq!(status.position_of(&[1u8; 32]), None);
    status.server[1].server_id = [2u8; 32];
    assert_eq!(status.position_of(&[2u8; 32]), Some(0));
    assert_eq!(ServerStatus { server: Vec::new() }.position_of(&[0u8; 32]), None);
}

#[test]
fn peer_is_unknown_without_server_or_address() {
    let mut status = three_servers();
    assert_eq!(status.peer_ip(0), PeerIp::Unknown);
    assert_eq!(status.peer_ip(3), PeerIp::Unknown);
    assert_eq!(status.peer_ip(usize::MAX), PeerIp::Unknown);
    status.set_ipv4(0, [0, 0, 0, 0]);
    assert_eq!(status.peer_ip(0), PeerIp::Unknown);
    status.set_ipv4(0, [0, 0, 0, 1]);
    assert_eq!(status.peer_ip(0), PeerIp::V4([0, 0, 0, 1]));
    let mut loopback = [0u8; 16];
    loopback[15] = 1;
    status.set_ipv6(0, loopback);
    assert_eq!(status.peer_ip(0), PeerIp::V6(loopback));
}

#[test]
fn peer_text_is_a_placeholder_or_a_dotted_address() {
    let mut status = three_servers();
    assert_eq!(status.get_ip_string(0), "x.x.x.x");
    assert_eq!(status.get_ip_string(3), "x.x.x.x");
    status.set_ipv4(0, [172, 16, 0, 254]);
    assert_eq!(status.get_ip_string(0), "172.16.0.254");
    status.set_ipv4(0, [0, 0, 0, 0]);
    assert_eq!(status.get_ip_string(0), "x.x.x.x");
    status.set_ipv6(1, [1u8; 16]);
    assert_eq!(status.get_ip_string(1), "101:101:101:101:101:101:101:101");
    let mut loopback = [0u8; 16];
    loopback[15] = 1;
    status.set_ipv6(2, loopback);
    assert_eq!(status.get_ip_string(2), "::1");
}

#[test]
fn ipv4_address_is_written_dotted() {
    assert_eq!(ipv4_string(&[192, 168, 1, 10]), "192.168.1.10");
    assert_eq!(ipv4_string(&[0, 0, 0, 0]), "0.0.0.0");
    assert_eq!(ipv4_string(&[255, 255, 255, 255]), "255.255.255.255");
    assert_eq!(ipv4_string(&[10, 0, 100, 9]), "10.0.100.9");
}

#[test]
fn entry_gives_its_listen_address() {
    let entry = ServerEntry {
        id: [0u8; 32],
        name: String::from("Default Server"),
        ip_address: String::from("0.0.0.0"),
        port: 2000,
        autostart: false,
    };
    assert_eq!(entry.listen_address(), "0.0.0.0:2000");
    let copy = entry.duplicate();
    assert_eq!(copy.id, entry.id);
    assert_eq!(copy.name, "Default Server");
    assert_eq!(copy.ip_address, "0.0.0.0");
    assert_eq!(copy.port, 2000);
    assert!(!copy.autostart);
    let high = ServerEntry { port: 65_535, ip_address: String::from("host"), ..copy };
    assert_eq!(high.listen_address(), "host:65535");
    let low = ServerEntry { port: 0, ..high };
    assert_eq!(low.listen_address(), "host:0");
}

#[test]
fn identifier_is_written_in_base64() {
    assert_eq!(
        serialize_bytes_as_base64(&[0u8; 32]),
        "AAAAAAAAAAAAAAAAAAAAAAAAAAAAAAAAAAAAAAAAAAA="
    );
    assert_eq!(
        serialize_bytes_as_base64(&[0xFFu8; 32]),
        "//////////////////////////////////////////8="
    );
    let id = string_to_fixed_array("1700000000123456789");
    assert_eq!(
        serialize_bytes_as_base64(&id),
        "MTcwMDAwMDAwMDEyMzQ1Njc4OQAAAAAAAAAAAAAAAAA="
    );
}

#[test]
fn identifier_is_read_back_from_base64() {
    let mut id = [0u8; 32];
    for (i, byte) in id.iter_mut().enumerate() {
        *byte = (i * 8 + 3) as u8;
    }
    let text = serialize_bytes_as_base64(&id);
    assert_eq!(text.len(), 44);
    assert_eq!(deserialize_bytes_from_base64(&text), Ok(id));
    assert_eq!(
        deserialize_bytes_from_base64("AAAAAAAAAAAAAAAAAAAAAAAAAAAAAAAAAAAAAAAAAAA="),
        Ok([0u8; 32])
    );
}

#[test]
fn text_that_is_not_base64_is_refused() {
    assert_eq!(deserialize_bytes_from_base64("not base64!"), Err(IdError::InvalidBase64));
    assert_eq!(
        deserialize_bytes_from_base64("AAAAAAAAAAAAAAAAAAAAAAAAAAAAAAAAAAAAAAAAAAA"),
        Err(IdError::InvalidBase64)
    );
    assert_eq!(IdError::InvalidBase64.message(), "Invalid base64");
}

#[test]
fn identifier_of_another_length_is_refused() {
    assert_eq!(deserialize_bytes_from_base64(""), Err(IdError::InvalidLength));
    assert_eq!(deserialize_bytes_from_base64("AAAA"), Err(IdError::InvalidLength));
    assert_eq!(
        deserialize_bytes_from_base64("AAAAAAAAAAAAAAAAAAAAAAAAAAAAAAAAAAAAAAAAAAAA"),
        Err(IdError::InvalidLength)
    );
    assert_eq!(IdError::InvalidLength.message(), "Invalid byte array length");
}

#[test]
fn identifier_from_decoded_bytes() {
    assert_eq!(id_from_decoded(None), Err(IdError::InvalidBase64));
    assert_eq!(id_from_decoded(Some(vec![1u8; 31])), Err(IdError::InvalidLength));
    assert_eq!(id_from_decoded(Some(vec![1u8; 33])), Err(IdError::InvalidLength));
    assert_eq!(id_from_decoded(Some(Vec::new())), Err(IdError::InvalidLength));
    let bytes: Vec<u8> = (0..32).collect();
    let id = id_from_decoded(Some(bytes.clone())).unwrap();
    assert_eq!(&id[..], &bytes[..]);
}

#[test]
fn port_is_a_decimal_number_up_to_65535() {
    assert_eq!(parse_port("0"), Some(0));
    assert_eq!(parse_port("102"), Some(102));
    assert_eq!(parse_port("2000"), Some(2000));
    assert_eq!(parse_port("65535"), Some(65535));
    assert_eq!(parse_port("0080"), Some(80));
    assert_eq!(parse_port("000000000000000000000065535"), Some(65535));
}

#[test]
fn anything_else_is_no_port() {
    assert_eq!(parse_port(""), None);
    assert_eq!(parse_port("65536"), None);
    assert_eq!(parse_port("70000"), None);
    assert_eq!(parse_port("4294967296"), None);
    assert_eq!(parse_port("99999999999999999999999999999"), None);
    assert_eq!(parse_port("-1"), None);
    assert_eq!(parse_port("+80"), None);
    assert_eq!(parse_port(" 80"), None);
    assert_eq!(parse_port("80 "), None);
    assert_eq!(parse_port("8o"), None);
    assert_eq!(parse_port("http"), None);
    assert_eq!(parse_port("8.0"), None);
}

fn configured() -> ServerEntry {
    ServerEntry {
        id: [7u8; 32],
        name: String::from("press"),
        ip_address: String::from("10.0.0.1"),
        port: 2000,
        autostart: false,
    }
}

#[test]
fn valid_edit_keeps_the_identifier_and_takes_the_rest() {
    let entry = configured();
    let edited = edit_entry(&entry, "lathe", "192.168.1.10", true, "102", true).unwrap();
    assert_eq!(edited.id, [7u8; 32]);
    assert_eq!(edited.name, "lathe");
    assert_eq!(edited.ip_address, "192.168.1.10");
    assert_eq!(edited.port, 102);
    assert!(edited.autostart);
    assert_eq!(entry.name, "press");
    assert_eq!(entry.ip_address, "10.0.0.1");
    assert_eq!(entry.port, 2000);
    assert!(!entry.autostart);
}

#[test]
fn edit_with_an_invalid_address_is_refused() {
    let entry = configured();
    let refused = edit_entry(&entry, "lathe", "300.1.1.1", false, "102", true);
    assert_eq!(refused.err(), Some(EditError::InvalidAddress));
    let both = edit_entry(&entry, "lathe", "nowhere", false, "port", true);
    assert_eq!(both.err(), Some(EditError::InvalidAddress));
    assert_eq!(entry.ip_address, "10.0.0.1");
    assert_eq!(entry.port, 2000);
    assert_eq!(EditError::InvalidAddress.message(), "Invalid IP address");
}

#[test]
fn edit_with_an_invalid_port_is_refused() {
    let entry = configured();
    for port in ["", "65536", "-1", "abc", "80 "] {
        let refused = edit_entry(&entry, "lathe", "192.168.1.10", true, port, true);
        assert_eq!(refused.err(), Some(EditError::InvalidPort), "{:?}", port);
    }
    assert_eq!(entry.name, "press");
    assert_eq!(entry.port, 2000);
    assert_eq!(EditError::InvalidPort.message(), "Invalid port");
}

#[test]
fn address_that_was_read_is_recorded() {
    let mut status = three_servers();
    assert_eq!(status.set_ip_from_string(1, Some(PeerAddress::V4([10, 0, 0, 9]))), Ok(()));
    assert_eq!(status.peer_ip(1), PeerIp::V4([10, 0, 0, 9]));
    assert_eq!(status.get_ip_string(1), "10.0.0.9");
    let mut address = [0u8; 16];
    address[0] = 0xfe;
    address[1] = 0x80;
    address[15] = 7;
    assert_eq!(status.set_ip_from_string(2, Some(PeerAddress::V6(address))), Ok(()));
    assert_eq!(status.get_ip_string(2), "fe80::7");
    assert_eq!(status.server[0], ServerStatusInfo::fresh(0, [1u8; 32], false));
}

#[test]
fn text_that_was_no_address_changes_nothing() {
    let mut status = three_servers();
    status.set_ipv4(1, [10, 0, 0, 9]);
    let before = status.server.clone();
    assert_eq!(status.set_ip_from_string(1, None), Err(EditError::InvalidAddress));
    assert_eq!(status.set_ip_from_string(99, None), Err(EditError::InvalidAddress));
    assert_eq!(status.server, before);
}
