use std::collections::hash_map::DefaultHasher;
use std::hash::{Hash, Hasher};

use multiplayer_fps::info::{
    hash_to_id, is_address_text, is_user_name_text, mutate_to_id, mutate_to_level,
    parse_server_address, validate_creature_name, AddressError, NameError, PortError,
    MAX_NAME_LEN,
};

#[test]
fn level_follows_last_port_digit() {
    assert_eq!(mutate_to_level("8000"), 1);
    assert_eq!(mutate_to_level("8002"), 2);
    assert_eq!(mutate_to_level("8003"), 3);
    assert_eq!(mutate_to_level("32"), 2);
    assert_eq!(mutate_to_level("23"), 3);
    assert_eq!(mutate_to_level("3a"), 1);
    assert_eq!(mutate_to_level(""), 1);
}

fn std_id(name: &str) -> u16 {
    let mut hasher = DefaultHasher::new();
    name.hash(&mut hasher);
    hasher.finish() as u16
}

#[test]
fn id_is_low_bits_of_default_hash() {
    for name in ["client", "Alice42", "", "x", "zzzzzzzzzzzzzzzzzzzz"] {
        assert_eq!(mutate_to_id(name), std_id(name));
    }
    assert_eq!(mutate_to_id("client"), mutate_to_id("client"));
    assert_ne!(mutate_to_id("client"), mutate_to_id("server"));
}

#[test]
fn hash_to_id_keeps_low_bits() {
    assert_eq!(hash_to_id(0x1234_5678_9abc_def0), 0xdef0);
    assert_eq!(hash_to_id(0x10000), 0);
    assert_eq!(hash_to_id(u64::MAX), 0xffff);
}

#[test]
fn readme_address_is_accepted() {
    assert_eq!(parse_server_address("127.0.0.1:8000"), Ok(([127, 0, 0, 1], 8000)));
    assert_eq!(parse_server_address("10.5.126.33:8000"), Ok(([10, 5, 126, 33], 8000)));
}

#[test]
fn address_errors() {
    assert_eq!(parse_server_address("localhost:80"), Err(AddressError::InvalidCharacters));
    assert_eq!(parse_server_address(" 1.2.3.4:80"), Err(AddressError::InvalidCharacters));
    assert_eq!(parse_server_address("127.0.0.1"), Err(AddressError::MissingPort));
    assert_eq!(parse_server_address("127.0.0.01:80"), Err(AddressError::InvalidIp));
    assert_eq!(parse_server_address("256.0.0.1:80"), Err(AddressError::InvalidIp));
    assert_eq!(parse_server_address("1.2.3:80"), Err(AddressError::InvalidIp));
    assert_eq!(parse_server_address("1.2.3.4.5:80"), Err(AddressError::InvalidIp));
    assert_eq!(parse_server_address(":80"), Err(AddressError::InvalidIp));
    assert_eq!(parse_server_address(""), Err(AddressError::InvalidIp));
    assert_eq!(parse_server_address("1.2.3.4:"), Err(AddressError::InvalidPort(PortError::Empty)));
    assert_eq!(
        parse_server_address("1.2.3.4:70000"),
        Err(AddressError::InvalidPort(PortError::TooLarge))
    );
    assert_eq!(
        parse_server_address("1.2.3.4:80:90"),
        Err(AddressError::InvalidPort(PortError::InvalidDigit))
    );
    assert_eq!(
        parse_server_address("1.2.3.4:99999:"),
        Err(AddressError::InvalidPort(PortError::TooLarge))
    );
    assert_eq!(
        parse_server_address("1.2.3.4:8.0"),
        Err(AddressError::InvalidPort(PortError::InvalidDigit))
    );
    assert_eq!(parse_server_address("0.0.0.0:0080"), Ok(([0, 0, 0, 0], 80)));
    assert_eq!(parse_server_address("255.255.255.255:65535"), Ok(([255, 255, 255, 255], 65535)));
}

#[test]
fn port_reading_agrees_with_std() {
    let samples = ["0", "80", "0080", "65535", "65536", "", ":", "123456789", "99999:", "8.0", "00000"];
    for p in samples {
        let expected = match p.parse::<u16>() {
            Ok(port) => Ok(([1, 2, 3, 4], port)),
            Err(e) => Err(AddressError::InvalidPort(match e.kind() {
                std::num::IntErrorKind::Empty => PortError::Empty,
                std::num::IntErrorKind::PosOverflow => PortError::TooLarge,
                _ => PortError::InvalidDigit,
            })),
        };
        assert_eq!(parse_server_address(&format!("1.2.3.4:{}", p)), expected, "{}", p);
    }
}

#[test]
fn ip_reading_edge_cases() {
    let refused = ["01.1.1.1:1", "1..1.1:1", "1.1.1.1.:1", ".1.1.1:1", "300.1.1.1:1", "1234.1.1.1:1", "00.0.0.0:0", "1:1"];
    for s in refused {
        assert_eq!(parse_server_address(s), Err(AddressError::InvalidIp), "{}", s);
    }
    assert_eq!(parse_server_address("9.99.199.255:00000"), Ok(([9, 99, 199, 255], 0)));
    assert_eq!(parse_server_address("0.10.100.200:1"), Ok(([0, 10, 100, 200], 1)));
}

#[test]
fn printed_address_reads_back() {
    for (ip, port) in [
        ([127u8, 0, 0, 1], 8000u16),
        ([0, 0, 0, 0], 0),
        ([255, 255, 255, 255], 65535),
        ([10, 5, 126, 33], 5000),
        ([1, 20, 3, 40], 9),
    ] {
        let text = format!("{}.{}.{}.{}:{}", ip[0], ip[1], ip[2], ip[3], port);
        assert_eq!(parse_server_address(&text), Ok((ip, port)));
    }
}

#[test]
fn address_text_characters() {
    assert!(is_address_text("127.0.0.1:8000"));
    assert!(is_address_text(""));
    assert!(!is_address_text("127.0.0.1 :8000"));
    assert!(!is_address_text("a"));
}

#[test]
fn names() {
    assert!(is_user_name_text("Alice42"));
    assert!(!is_user_name_text("Alice 42"));
    assert!(!is_user_name_text("Åsa"));
    assert_eq!(validate_creature_name("Alice42"), Ok(String::from("Alice42")));
    assert_eq!(validate_creature_name(""), Ok(String::new()));
    assert_eq!(validate_creature_name("bad-name"), Err(NameError::InvalidCharacters));
    let twenty = "a".repeat(MAX_NAME_LEN);
    assert_eq!(validate_creature_name(&twenty), Ok(twenty.clone()));
    let twenty_one = "a".repeat(MAX_NAME_LEN + 1);
    assert_eq!(validate_creature_name(&twenty_one), Err(NameError::TooLong));
}

#[test]
fn characters_of_text() {
    assert_eq!(multiplayer_fps::info::chars_of("aé1"), vec!['a', 'é', '1']);
    assert!(multiplayer_fps::info::chars_of("").is_empty());
}
