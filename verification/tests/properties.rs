//! Scenario tests for the library's stated properties: normalization across
//! delimiter styles, case-insensitive equality, round-trips between the
//! renderings and the bare form, error precedence, classification, the
//! EUI-64 bit flip, and the groupings.

use mac_addr::MacAddress;
use mac_addr::MacAddressError;

#[test]
fn equal_addresses_across_case() {
    let upper = MacAddress::parse("001122AABBCC").unwrap();
    let lower = MacAddress::parse("001122aabbcc").unwrap();
    assert_eq!(upper, lower);
}

#[test]
fn equal_addresses_across_delimiters() {
    let colon = MacAddress::parse("00:11:22:aa:bb:cc").unwrap();
    let bare = MacAddress::parse("001122aabbcc").unwrap();
    let mixed = MacAddress::parse(" 0:011-2.2aa bbcc ").unwrap();
    assert_eq!(colon, bare);
    assert_eq!(mixed, bare);
}

#[test]
fn distinct_addresses_unequal() {
    let a = MacAddress::parse("001122aabbcc").unwrap();
    let b = MacAddress::parse("001122aabbcd").unwrap();
    assert!(a != b);
}

#[test]
fn hex_round_trips_to_raw() {
    let mac = MacAddress::parse("00:11:22:AA:BB:CC").unwrap();
    assert_eq!(mac.hex().replace(':', ""), mac.raw());
}

#[test]
fn eui_round_trips_to_raw() {
    let mac = MacAddress::parse("00:11:22:AA:BB:CC").unwrap();
    assert_eq!(mac.eui().replace('-', ""), mac.raw());
}

#[test]
fn dot_round_trips_to_raw() {
    let mac = MacAddress::parse("00:11:22:AA:BB:CC").unwrap();
    assert_eq!(mac.dot().replace('.', ""), mac.raw());
}

#[test]
fn length_error_before_character_error() {
    // Non-hex characters, but the wrong count: the length diagnosis wins.
    let mac = MacAddress::parse("zz-yy").unwrap_err();
    assert_eq!(MacAddressError::InvalidLength("zz-yy".to_owned()), mac);
}

#[test]
fn empty_input_invalid_length() {
    let mac = MacAddress::parse("").unwrap_err();
    assert_eq!(MacAddressError::InvalidLength("".to_owned()), mac);
}

#[test]
fn whitespace_only_invalid_length() {
    let mac = MacAddress::parse(" \t ").unwrap_err();
    assert_eq!(MacAddressError::InvalidLength(" \t ".to_owned()), mac);
}

#[test]
fn thirteen_digits_invalid_length() {
    let mac = MacAddress::parse("001122aabbcc0").unwrap_err();
    assert_eq!(
        MacAddressError::InvalidLength("001122aabbcc0".to_owned()),
        mac
    );
}

#[test]
fn single_bad_character_invalid_mac() {
    let mac = MacAddress::parse("001122aabbcg").unwrap_err();
    assert_eq!(MacAddressError::InvalidMac("001122aabbcg".to_owned()), mac);
}

#[test]
fn tab_and_newline_trimmed() {
    let mac = MacAddress::parse("\t00:11:22:aa:bb:cc\n").unwrap();
    assert_eq!(mac.raw(), "001122aabbcc".to_owned());
}

#[test]
fn delimiter_inside_a_pair() {
    let mac = MacAddress::parse("00112-2aabbcc").unwrap();
    assert_eq!(mac.raw(), "001122aabbcc".to_owned());
}

#[test]
fn broadcast_is_not_multicast_nor_unicast() {
    let mac = MacAddress::parse("ffffffffffff").unwrap();
    assert!(mac.is_broadcast());
    assert!(!mac.is_multicast());
    assert!(!mac.is_unicast());
}

#[test]
fn multicast_is_not_broadcast_nor_unicast() {
    let mac = MacAddress::parse("01005eaabbcc").unwrap();
    assert!(mac.is_multicast());
    assert!(!mac.is_broadcast());
    assert!(!mac.is_unicast());
}

#[test]
fn universal_and_local_complementary() {
    for m in ["001122aabbcc", "021122aabbcc", "ffffffffffff", "0f0f0f0f0f0f"] {
        let mac = MacAddress::parse(m).unwrap();
        assert!(mac.is_universal() != mac.is_local());
    }
}

#[test]
fn eui64_flip_returns() {
    // Deriving from the address whose first octet already carries the
    // flipped bit recovers the original first octet.
    let forward = MacAddress::parse("001122aabbcc").unwrap();
    assert_eq!(&forward.eui64()[..2], "02");
    let back = MacAddress::parse("021122aabbcc").unwrap();
    assert_eq!(&back.eui64()[..2], "00");
}

#[test]
fn bits_join_is_binary() {
    let mac = MacAddress::parse("0f:25:7b:c8:9a:3d").unwrap();
    let bits = mac.bits();
    assert_eq!(bits.len(), 12);
    for b in &bits {
        assert_eq!(b.len(), 4);
        assert!(b.chars().all(|c| c == '0' || c == '1'));
    }
    assert_eq!(bits.join(""), mac.binary());
    assert_eq!(mac.binary().len(), 48);
}

#[test]
fn octets_join_is_raw() {
    let mac = MacAddress::parse("0f:25:7b:c8:9a:3d").unwrap();
    let octets = mac.octets();
    assert_eq!(octets.len(), 6);
    for o in &octets {
        assert_eq!(o.len(), 2);
    }
    assert_eq!(octets.join(""), mac.raw());
}

#[test]
fn raw_reparses_to_equal_address() {
    let mac = MacAddress::parse("0f:25:7b:c8:9a:3d").unwrap();
    let again = MacAddress::parse(&mac.raw()).unwrap();
    assert_eq!(mac, again);
    assert_eq!(again.raw(), "0f257bc89a3d".to_owned());
}

#[test]
fn oui_and_nic_split_raw() {
    let mac = MacAddress::parse("0f:25:7b:c8:9a:3d").unwrap();
    assert_eq!(mac.oui(), "0f257b".to_owned());
    assert_eq!(mac.nic(), "c89a3d".to_owned());
    assert_eq!(format!("{}{}", mac.oui(), mac.nic()), mac.raw());
}

#[test]
fn exact_binary_of_known_address() {
    let mac = MacAddress::parse("0f0a05f1e1b1").unwrap();
    assert_eq!(
        mac.binary(),
        "000011110000101000000101111100011110000110110001"
    );
}

#[test]
fn error_messages() {
    let short = MacAddress::parse("bgf").unwrap_err();
    assert_eq!(
        short.message(),
        "address: `bgf` is not 12 characters long".to_owned()
    );
    let bad = MacAddress::parse("xy-z1-23-bg-t7-89").unwrap_err();
    assert_eq!(
        bad.message(),
        "address: `xy-z1-23-bg-t7-89` is not a MAC adddress".to_owned()
    );
}

#[test]
fn display_shows_both_forms() {
    let mac = MacAddress::parse("001122aabbcc").unwrap();
    assert_eq!(
        mac.display(),
        "EUI-48: 00-11-22-aa-bb-cc\nEUI-64: 02-11-22-ff-fe-aa-bb-cc".to_owned()
    );
}
