use ipv4_subnet::error::ParseError;
use ipv4_subnet::membership::{is_in_subnet_easy_way, is_in_subnet_hard_way};

#[test]
fn address_inside_the_subnet() {
    assert_eq!(is_in_subnet_hard_way("192.168.1.121", "192.168.1.0/24"), Ok(true));
    assert_eq!(is_in_subnet_easy_way("192.168.1.121", "192.168.1.0/24"), Ok(true));
}

#[test]
fn address_outside_the_subnet() {
    assert_eq!(is_in_subnet_hard_way("192.168.1.121", "193.168.1.0/24"), Ok(false));
    assert_eq!(is_in_subnet_easy_way("192.168.1.121", "193.168.1.0/24"), Ok(false));
}

#[test]
fn first_and_last_address_of_a_subnet_are_inside() {
    assert_eq!(is_in_subnet_hard_way("192.168.1.0", "192.168.1.0/24"), Ok(true));
    assert_eq!(is_in_subnet_easy_way("192.168.1.0", "192.168.1.0/24"), Ok(true));
    assert_eq!(is_in_subnet_hard_way("192.168.1.255", "192.168.1.0/24"), Ok(true));
    assert_eq!(is_in_subnet_easy_way("192.168.1.255", "192.168.1.0/24"), Ok(true));
}

#[test]
fn neighbours_of_a_subnet_are_outside() {
    assert_eq!(is_in_subnet_hard_way("192.168.0.255", "192.168.1.0/24"), Ok(false));
    assert_eq!(is_in_subnet_easy_way("192.168.0.255", "192.168.1.0/24"), Ok(false));
    assert_eq!(is_in_subnet_hard_way("192.168.2.0", "192.168.1.0/24"), Ok(false));
    assert_eq!(is_in_subnet_easy_way("192.168.2.0", "192.168.1.0/24"), Ok(false));
}

#[test]
fn host_bits_in_the_subnet_text_do_not_matter() {
    assert_eq!(is_in_subnet_hard_way("192.168.1.3", "192.168.1.200/24"), Ok(true));
    assert_eq!(is_in_subnet_easy_way("192.168.1.3", "192.168.1.200/24"), Ok(true));
    assert_eq!(is_in_subnet_hard_way("192.168.2.3", "192.168.1.200/24"), Ok(false));
    assert_eq!(is_in_subnet_easy_way("192.168.2.3", "192.168.1.200/24"), Ok(false));
}

#[test]
fn shortest_and_longest_prefix() {
    assert_eq!(is_in_subnet_hard_way("127.255.255.255", "0.0.0.0/1"), Ok(true));
    assert_eq!(is_in_subnet_easy_way("127.255.255.255", "0.0.0.0/1"), Ok(true));
    assert_eq!(is_in_subnet_hard_way("128.0.0.0", "0.0.0.0/1"), Ok(false));
    assert_eq!(is_in_subnet_easy_way("128.0.0.0", "0.0.0.0/1"), Ok(false));
    assert_eq!(is_in_subnet_hard_way("10.0.0.3", "10.0.0.2/31"), Ok(true));
    assert_eq!(is_in_subnet_easy_way("10.0.0.3", "10.0.0.2/31"), Ok(true));
    assert_eq!(is_in_subnet_hard_way("10.0.0.4", "10.0.0.2/31"), Ok(false));
    assert_eq!(is_in_subnet_easy_way("10.0.0.4", "10.0.0.2/31"), Ok(false));
}

#[test]
fn both_ways_agree_on_every_prefix_length() {
    let addresses = [
        "0.0.0.0",
        "0.0.0.1",
        "10.0.0.1",
        "10.255.255.255",
        "127.255.255.255",
        "128.0.0.0",
        "172.16.5.4",
        "192.168.1.0",
        "192.168.1.121",
        "192.168.1.255",
        "192.168.2.0",
        "193.168.1.121",
        "255.255.255.254",
        "255.255.255.255",
    ];
    let bases = ["0.0.0.0", "10.0.0.0", "172.16.5.7", "192.168.1.0", "192.168.1.77", "255.255.255.255"];
    for address in addresses.iter() {
        for base in bases.iter() {
            for prefix in 1u32..=31 {
                let subnet = format!("{}/{}", base, prefix);
                let by_range = is_in_subnet_hard_way(address, &subnet);
                let by_mask = is_in_subnet_easy_way(address, &subnet);
                assert!(matches!(by_range, Ok(_)));
                assert_eq!(by_range, by_mask);
            }
        }
    }
}

#[test]
fn both_ways_agree_around_the_edges_of_every_subnet() {
    for prefix in 1u32..=31 {
        let mask = 0xFFFF_FFFFu32 << (32 - prefix);
        let base = 0xC0A8_0179u32 & mask;
        let last = base | !mask;
        let subnet = format!("192.168.1.121/{}", prefix);
        let probes = [
            (base, true),
            (last, true),
            (base.wrapping_sub(1), false),
            (last.wrapping_add(1), false),
        ];
        for &(address, inside) in probes.iter() {
            let text = format!(
                "{}.{}.{}.{}",
                address >> 24,
                (address >> 16) & 0xFF,
                (address >> 8) & 0xFF,
                address & 0xFF
            );
            assert_eq!(is_in_subnet_hard_way(&text, &subnet), Ok(inside));
            assert_eq!(is_in_subnet_easy_way(&text, &subnet), Ok(inside));
        }
    }
}

#[test]
fn both_ways_agree_on_texts_that_do_not_parse() {
    let addresses = ["192.168.1.121", "192.168.1.256", "", "1.2.3", "x"];
    let subnets = ["192.168.1.0/24", "192.168.1.0", "192.168.1.0/x", "192.168.1.0/33", "1.2.3/8", ""];
    for address in addresses.iter() {
        for subnet in subnets.iter() {
            assert_eq!(
                is_in_subnet_hard_way(address, subnet),
                is_in_subnet_easy_way(address, subnet)
            );
        }
    }
}

#[test]
fn malformed_address_is_reported() {
    assert_eq!(
        is_in_subnet_hard_way("192.168.1.256", "192.168.1.0/24"),
        Err(ParseError::MalformedAddress)
    );
    assert_eq!(
        is_in_subnet_easy_way("192.168.1.256", "192.168.1.0/24"),
        Err(ParseError::MalformedAddress)
    );
}

#[test]
fn invalid_mask_is_reported() {
    assert_eq!(
        is_in_subnet_hard_way("192.168.1.121", "192.168.1.0/33"),
        Err(ParseError::InvalidMask)
    );
    assert_eq!(
        is_in_subnet_easy_way("192.168.1.121", "192.168.1.0/33"),
        Err(ParseError::InvalidMask)
    );
}

#[test]
fn malformed_subnet_is_reported() {
    assert_eq!(
        is_in_subnet_hard_way("192.168.1.121", "192.168.1.0"),
        Err(ParseError::MalformedSubnet)
    );
    assert_eq!(
        is_in_subnet_easy_way("192.168.1.121", "192.168.1.0"),
        Err(ParseError::MalformedSubnet)
    );
}

#[test]
fn malformed_mask_is_reported() {
    assert_eq!(
        is_in_subnet_hard_way("192.168.1.121", "192.168.1.0/x"),
        Err(ParseError::MalformedMask)
    );
    assert_eq!(
        is_in_subnet_easy_way("192.168.1.121", "192.168.1.0/x"),
        Err(ParseError::MalformedMask)
    );
}

#[test]
fn address_is_validated_before_the_subnet() {
    assert_eq!(
        is_in_subnet_hard_way("192.168.1.256", "192.168.1.0"),
        Err(ParseError::MalformedAddress)
    );
    assert_eq!(
        is_in_subnet_easy_way("192.168.1.256", "192.168.1.0"),
        Err(ParseError::MalformedAddress)
    );
    assert_eq!(
        is_in_subnet_hard_way("x", "192.168.1.0/33"),
        Err(ParseError::MalformedAddress)
    );
    assert_eq!(
        is_in_subnet_easy_way("x", "192.168.1.0/x"),
        Err(ParseError::MalformedAddress)
    );
}

#[test]
fn functions_are_reachable_from_the_crate_root() {
    assert_eq!(ipv4_subnet::ip_to_binary("192.168.1.121"), Ok(0xC0A8_0179));
    assert_eq!(ipv4_subnet::mask_to_binary(24), Ok(0xFFFF_FF00));
    assert_eq!(ipv4_subnet::parse_subnet("192.168.1.0/24"), Ok((0xC0A8_0100, 0xFFFF_FF00)));
    assert_eq!(ipv4_subnet::is_in_subnet_hard_way("192.168.1.121", "192.168.1.0/24"), Ok(true));
    assert_eq!(ipv4_subnet::is_in_subnet_easy_way("192.168.1.121", "192.168.1.0/24"), Ok(true));
    assert_eq!(ipv4_subnet::ParseError::InvalidMask, ParseError::InvalidMask);
}
