use mac_addr::MacAddress;
use mac_addr::MacAddressError;

fn test_macs() -> Vec<&'static str> {
    vec![
        "00:11:22:aa:bb:cc",
        "00-11-22-aa-bb-cc",
        "0011.22aa.bbcc",
        "001122aabbcc",
        "001122AABBCC",
        " 0011.22aa.bbcc ",
        "00 11 22 AA BB CC",
        "001122-AABBCC",
    ]
}

#[test]
fn raw_mac_from_macs() {
    for m in test_macs() {
        let mac = MacAddress::parse(m).unwrap();
        assert_eq!(mac.raw(), "001122aabbcc".to_owned());
    }
}

#[test]
fn eui_mac_from_macs() {
    for m in test_macs() {
        let mac = MacAddress::parse(m).unwrap();
        assert_eq!(mac.eui(), "00-11-22-aa-bb-cc".to_owned());
    }
}

#[test]
fn hex_mac_from_macs() {
    for m in test_macs() {
        let mac = MacAddress::parse(m).unwrap();
        assert_eq!(mac.hex(), "00:11:22:aa:bb:cc".to_owned());
    }
}

#[test]
fn dot_mac_from_macs() {
    for m in test_macs() {
        let mac = MacAddress::parse(m).unwrap();
        assert_eq!(mac.dot(), "0011.22aa.bbcc".to_owned());
    }
}

#[test]
fn octets_mac_from_macs() {
    for m in test_macs() {
        let mac = MacAddress::parse(m).unwrap();
        assert_eq!(mac.octets(), vec!["00", "11", "22", "aa", "bb", "cc"]);
    }
}

#[test]
fn bits_mac_from_macs() {
    for m in test_macs() {
        let mac = MacAddress::parse(m).unwrap();
        assert_eq!(
            mac.bits(),
            vec![
                "0000", "0000", "0001", "0001", "0010", "0010", "1010", "1010", "1011", "1011",
                "1100", "1100"
            ]
        );
    }
}

#[test]
fn binary_mac_from_macs() {
    for m in test_macs() {
        let mac = MacAddress::parse(m).unwrap();
        assert_eq!(
            mac.binary(),
            "000000000001000100100010101010101011101111001100"
        );
    }
}

#[test]
fn oui_from_macs() {
    for m in test_macs() {
        let mac = MacAddress::parse(m).unwrap();
        assert_eq!(mac.oui(), "001122".to_owned());
    }
}

#[test]
fn nic_from_macs() {
    for m in test_macs() {
        let mac = MacAddress::parse(m).unwrap();
        assert_eq!(mac.nic(), "aabbcc".to_owned());
    }
}

#[test]
fn parse_invalid_length_mac() {
    let address = "bgf";
    let mac = MacAddress::parse(address).unwrap_err();
    assert_eq!(MacAddressError::InvalidLength(address.to_owned()), mac);
}

#[test]
fn parse_invalid_mac() {
    let address = "xy-z1-23-bg-t7-89";
    let mac = MacAddress::parse(address).unwrap_err();
    assert_eq!(MacAddressError::InvalidMac(address.to_owned()), mac);
}

#[test]
fn is_broadcast_mac() {
    let test_cases = vec![("ffffffffffff", true), ("001122aabbcc", false)];
    for tc in test_cases {
        let mac = MacAddress::parse(tc.0).unwrap();
        assert!(mac.is_broadcast() == tc.1)
    }
}

#[test]
fn is_multicast_mac() {
    let test_cases = vec![("01005eaabbcc", true), ("001122aabbcc", false)];
    for tc in test_cases {
        let mac = MacAddress::parse(tc.0).unwrap();
        assert!(mac.is_multicast() == tc.1)
    }
}

#[test]
fn is_unicast_mac() {
    let test_cases = vec![
        ("001122aabbcc", true),
        ("01005eaabbcc", false),
        ("ffffffffffff", false),
    ];
    for tc in test_cases {
        let mac = MacAddress::parse(tc.0).unwrap();
        assert!(mac.is_unicast() == tc.1)
    }
}

#[test]
fn is_universal_mac() {
    let test_cases = vec![
        ("001122aabbcc", true),
        ("01005eaabbcc", true),
        ("ffffffffffff", false),
        ("02005eaabbcc", false),
    ];
    for tc in test_cases {
        let mac = MacAddress::parse(tc.0).unwrap();
        assert!(mac.is_universal() == tc.1)
    }
}

#[test]
fn is_local_mac() {
    let test_cases = vec![
        ("001122aabbcc", false),
        ("01005eaabbcc", false),
        ("ffffffffffff", true),
        ("02005eaabbcc", true),
    ];
    for tc in test_cases {
        let mac = MacAddress::parse(tc.0).unwrap();
        assert!(mac.is_local() == tc.1)
    }
}

#[test]
fn eui64_0_to_1() {
    let mac = MacAddress::parse("001122aabbcc").unwrap();
    assert_eq!(mac.eui64(), "02-11-22-ff-fe-aa-bb-cc".to_owned());
}

#[test]
fn eui64_1_to_0() {
    let mac = MacAddress::parse("021122aabbcc").unwrap();
    assert_eq!(mac.eui64(), "00-11-22-ff-fe-aa-bb-cc".to_owned());
}

#[test]
fn ipv6_link_local_0_to_1() {
    let mac = MacAddress::parse("001122aabbcc").unwrap();
    assert_eq!(
        mac.ipv6_link_local(),
        "fe80::0211:22ff:feaa:bbcc".to_owned()
    );
}

#[test]
fn ipv6_link_local_1_to_0() {
    let mac = MacAddress::parse("021122aabbcc").unwrap();
    assert_eq!(
        mac.ipv6_link_local(),
        "fe80::0011:22ff:feaa:bbcc".to_owned()
    );
}
