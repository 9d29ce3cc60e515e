use gxr::targets::{parse_cidr, parse_ip_range, parse_targets, TargetParseError};

#[test]
fn test_parse_single_ip() {
    let result = parse_targets("192.168.1.1").unwrap();
    assert_eq!(result, vec!["192.168.1.1"]);
}

#[test]
fn test_parse_ip_range() {
    let result = parse_targets("192.168.1.1-3").unwrap();
    assert_eq!(result, vec!["192.168.1.1", "192.168.1.2", "192.168.1.3"]);
}

#[test]
fn test_parse_cidr() {
    let result = parse_targets("192.168.1.0/30").unwrap();
    assert_eq!(result, vec!["192.168.1.1", "192.168.1.2"]);
}

#[test]
fn range_of_five_in_order() {
    let result = parse_targets("10.0.0.1-5").unwrap();
    assert_eq!(result, vec!["10.0.0.1", "10.0.0.2", "10.0.0.3", "10.0.0.4", "10.0.0.5"]);
}

#[test]
fn range_of_one_address() {
    assert_eq!(parse_targets("10.0.0.7-7").unwrap(), vec!["10.0.0.7"]);
    assert_eq!(parse_ip_range("10.0.0.255-255").unwrap(), vec!["10.0.0.255"]);
}

#[test]
fn range_up_to_the_last_octet() {
    let result = parse_ip_range("255.255.255.250-255").unwrap();
    assert_eq!(result.len(), 6);
    assert_eq!(result[0], "255.255.255.250");
    assert_eq!(result[5], "255.255.255.255");
}

#[test]
fn range_end_below_start_is_refused() {
    assert_eq!(parse_targets("10.0.0.9-3"), Err(TargetParseError::InvalidRange));
    assert_eq!(parse_ip_range("10.0.0.9-8"), Err(TargetParseError::InvalidRange));
}

#[test]
fn range_end_that_is_no_octet_is_refused() {
    assert_eq!(parse_targets("10.0.0.1-256"), Err(TargetParseError::InvalidRange));
    assert_eq!(parse_targets("10.0.0.1-x"), Err(TargetParseError::InvalidRange));
    assert_eq!(parse_targets("10.0.0.1-"), Err(TargetParseError::InvalidRange));
    assert_eq!(parse_ip_range("10.0.0.1"), Err(TargetParseError::InvalidRange));
}

#[test]
fn range_is_cut_at_its_last_dash() {
    assert_eq!(parse_targets("10.0.0.1-2-3"), Err(TargetParseError::InvalidAddress));
    assert_eq!(parse_targets("-10.0.0.1-3"), Err(TargetParseError::InvalidAddress));
}

#[test]
fn range_sides_are_trimmed_and_a_plus_sign_is_read() {
    assert_eq!(parse_targets("10.0.0.1 - 3").unwrap(), vec!["10.0.0.1", "10.0.0.2", "10.0.0.3"]);
    assert_eq!(parse_targets("10.0.0.1-+2").unwrap(), vec!["10.0.0.1", "10.0.0.2"]);
    assert_eq!(parse_targets("10.0.0.1-003").unwrap().len(), 3);
}

#[test]
fn cidr_counts_are_two_less_than_the_block() {
    assert_eq!(parse_targets("10.1.2.3/24").unwrap().len(), 254);
    assert_eq!(parse_targets("10.1.2.3/29").unwrap().len(), 6);
    assert_eq!(parse_targets("10.1.2.3/30").unwrap().len(), 2);
    assert_eq!(parse_targets("172.16.0.0/20").unwrap().len(), 4094);
    assert_eq!(parse_cidr("172.16.0.0/16").unwrap().len(), 65534);
}

#[test]
fn cidr_leaves_out_network_and_broadcast() {
    let hosts = parse_cidr("192.168.7.77/24").unwrap();
    assert_eq!(hosts[0], "192.168.7.1");
    assert_eq!(hosts[253], "192.168.7.254");
    assert!(!hosts.contains(&"192.168.7.0".to_string()));
    assert!(!hosts.contains(&"192.168.7.255".to_string()));
    let crossing = parse_cidr("10.0.1.200/23").unwrap();
    assert_eq!(crossing.len(), 510);
    assert_eq!(crossing[0], "10.0.0.1");
    assert_eq!(crossing[254], "10.0.0.255");
    assert_eq!(crossing[255], "10.0.1.0");
    assert_eq!(crossing[509], "10.0.1.254");
}

#[test]
fn cidr_with_prefix_31_or_32_has_no_usable_hosts() {
    assert_eq!(parse_targets("192.168.1.0/31"), Err(TargetParseError::NoUsableHosts));
    assert_eq!(parse_targets("192.168.1.0/32"), Err(TargetParseError::NoUsableHosts));
    assert_eq!(parse_cidr("0.0.0.0/32"), Err(TargetParseError::NoUsableHosts));
    assert_eq!(parse_cidr("255.255.255.255/32"), Err(TargetParseError::NoUsableHosts));
    assert_eq!(parse_cidr("255.255.255.255/31"), Err(TargetParseError::NoUsableHosts));
}

#[test]
fn cidr_syntax_errors() {
    assert_eq!(parse_targets("192.168.1.0/33"), Err(TargetParseError::InvalidCidr));
    assert_eq!(parse_targets("192.168.1.0/256"), Err(TargetParseError::InvalidCidr));
    assert_eq!(parse_targets("192.168.1.0/"), Err(TargetParseError::InvalidCidr));
    assert_eq!(parse_targets("192.168.1.0/x"), Err(TargetParseError::InvalidCidr));
    assert_eq!(parse_targets("192.168.1.0/24/1"), Err(TargetParseError::InvalidCidr));
    assert_eq!(parse_targets("192.168.1.0/ 24"), Err(TargetParseError::InvalidCidr));
    assert_eq!(parse_cidr("192.168.1.0"), Err(TargetParseError::InvalidCidr));
    assert_eq!(parse_targets("192.168.1/24"), Err(TargetParseError::InvalidAddress));
    assert_eq!(parse_targets("192.168.1.0 /24"), Err(TargetParseError::InvalidAddress));
    assert_eq!(parse_targets("192.168.1.1-5/24"), Err(TargetParseError::InvalidAddress));
}

#[test]
fn cidr_prefix_with_sign_or_leading_zeros() {
    assert_eq!(parse_targets("192.168.1.0/+30").unwrap(), vec!["192.168.1.1", "192.168.1.2"]);
    assert_eq!(parse_targets("192.168.1.0/030").unwrap(), vec!["192.168.1.1", "192.168.1.2"]);
    assert_eq!(parse_targets("192.168.1.0/-1"), Err(TargetParseError::InvalidCidr));
}

#[test]
fn single_address_must_be_a_dotted_quad() {
    assert_eq!(parse_targets("192.168.1"), Err(TargetParseError::InvalidAddress));
    assert_eq!(parse_targets("192.168.1.256"), Err(TargetParseError::InvalidAddress));
    assert_eq!(parse_targets("192.168.01.1"), Err(TargetParseError::InvalidAddress));
    assert_eq!(parse_targets("192.168.1.1.1"), Err(TargetParseError::InvalidAddress));
    assert_eq!(parse_targets("192.168..1"), Err(TargetParseError::InvalidAddress));
    assert_eq!(parse_targets("example.org"), Err(TargetParseError::InvalidAddress));
    assert_eq!(parse_targets("1.2.3.4x"), Err(TargetParseError::InvalidAddress));
    assert_eq!(parse_targets("1.2. 3.4"), Err(TargetParseError::InvalidAddress));
    assert_eq!(parse_targets("0.0.0.0").unwrap(), vec!["0.0.0.0"]);
    assert_eq!(parse_targets("255.255.255.255").unwrap(), vec!["255.255.255.255"]);
}

#[test]
fn empty_specifications_are_refused() {
    assert_eq!(parse_targets(""), Err(TargetParseError::EmptyTargetSet));
    assert_eq!(parse_targets("   "), Err(TargetParseError::EmptyTargetSet));
    assert_eq!(parse_targets(",, ,"), Err(TargetParseError::EmptyTargetSet));
}

#[test]
fn mixed_list_keeps_segment_order() {
    let result = parse_targets("10.0.0.9, 192.168.1.0/30 ,10.0.0.1-3,,8.8.8.8").unwrap();
    assert_eq!(
        result,
        vec![
            "10.0.0.9",
            "192.168.1.1",
            "192.168.1.2",
            "10.0.0.1",
            "10.0.0.2",
            "10.0.0.3",
            "8.8.8.8"
        ]
    );
}

#[test]
fn joined_lists_concatenate() {
    let a = "10.0.0.1-2,10.0.0.9";
    let b = "192.168.1.0/30,10.0.0.1";
    let mut expected = parse_targets(a).unwrap();
    expected.extend(parse_targets(b).unwrap());
    assert_eq!(parse_targets(&format!("{},{}", a, b)).unwrap(), expected);
}

#[test]
fn duplicates_are_kept() {
    assert_eq!(
        parse_targets("10.0.0.1,10.0.0.1-2,10.0.0.1").unwrap(),
        vec!["10.0.0.1", "10.0.0.1", "10.0.0.2", "10.0.0.1"]
    );
}

#[test]
fn first_error_from_the_left_wins() {
    assert_eq!(parse_targets("10.0.0.1,10.0.0.9-3,bad"), Err(TargetParseError::InvalidRange));
    assert_eq!(parse_targets("bad,10.0.0.9-3"), Err(TargetParseError::InvalidAddress));
    assert_eq!(parse_targets("10.0.0.0/31,10.0.0.0/40"), Err(TargetParseError::NoUsableHosts));
}

#[test]
fn segments_are_trimmed_of_unicode_white_space() {
    assert_eq!(parse_targets("\t10.0.0.1\u{3000},\u{a0}10.0.0.2\n").unwrap(), vec!["10.0.0.1", "10.0.0.2"]);
}

#[test]
fn each_error_has_its_message() {
    assert_eq!(TargetParseError::InvalidAddress.message(), "invalid IP address");
    assert_eq!(TargetParseError::InvalidRange.message(), "invalid IP range");
    assert_eq!(TargetParseError::InvalidCidr.message(), "invalid CIDR block");
    assert_eq!(TargetParseError::NoUsableHosts.message(), "CIDR block has no usable host addresses");
    assert_eq!(
        TargetParseError::EmptyTargetSet.message(),
        "no valid IP address in the target specification"
    );
}
