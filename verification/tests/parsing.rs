use sint::netinfo::{
    bswap32, parse_arp_mac, parse_default_iface, parse_gateway_ip, parse_hex_u32, parse_mac,
    parse_port_range, parse_u16, split_lines, tokenize,
};

fn bytes(s: &str) -> Vec<u8> {
    s.as_bytes().to_vec()
}

const ROUTE_TEXT: &str = "Iface\tDestination\tGateway \tFlags\tRefCnt\tUse\tMetric\tMask\t\tMTU\tWindow\tIRTT\n\
eth0\t0000FEA9\t00000000\t0001\t0\t0\t1000\t0000FFFF\t0\t0\t0\n\
eth0\t00000000\t0101A8C0\t0003\t0\t0\t100\t00000000\t0\t0\t0\n";

const ARP_TEXT: &str = "IP address       HW type     Flags       HW address            Mask     Device\n\
192.168.1.1      0x1         0x2         aa:bb:cc:dd:ee:ff     *        eth0\n\
10.0.0.7         0x1         0x2         11:22:33:44:55:66     *        eth0\n";

#[test]
fn tokenize_splits_on_all_whitespace() {
    let toks = tokenize(&bytes(" a\tbb \n ccc\r\n"));
    let views: Vec<&[u8]> = toks.iter().map(|t| t.as_slice()).collect();
    assert_eq!(views, vec![b"a".as_slice(), b"bb".as_slice(), b"ccc".as_slice()]);
}

#[test]
fn split_lines_keeps_inner_empties() {
    let ls = split_lines(&bytes("one\n\ntwo\n"));
    let views: Vec<&[u8]> = ls.iter().map(|t| t.as_slice()).collect();
    assert_eq!(views, vec![b"one".as_slice(), b"".as_slice(), b"two".as_slice()]);
}

#[test]
fn port_range_reads_two_numbers() {
    assert_eq!(parse_port_range(&bytes("32768\t60999\n")), Some((32768, 60999)));
    assert_eq!(parse_port_range(&bytes("  1024   65535  ")), Some((1024, 65535)));
    assert_eq!(parse_port_range(&bytes("32768\n")), None);
    assert_eq!(parse_port_range(&bytes("32768 potato")), None);
    assert_eq!(parse_port_range(&bytes("70000 80000")), None);
}

#[test]
fn decimal_port_parsing() {
    assert_eq!(parse_u16(&bytes("0")), Some(0));
    assert_eq!(parse_u16(&bytes("65535")), Some(65535));
    assert_eq!(parse_u16(&bytes("65536")), None);
    assert_eq!(parse_u16(&bytes("00042")), Some(42));
    assert_eq!(parse_u16(&bytes("")), None);
    assert_eq!(parse_u16(&bytes("12a")), None);
}

#[test]
fn hex_word_parsing() {
    assert_eq!(parse_hex_u32(&bytes("0101A8C0")), Some(0x0101A8C0));
    assert_eq!(parse_hex_u32(&bytes("ff")), Some(0xFF));
    assert_eq!(parse_hex_u32(&bytes("100000000")), None);
    assert_eq!(parse_hex_u32(&bytes("xyz")), None);
    assert_eq!(parse_hex_u32(&bytes("")), None);
}

#[test]
fn byte_swap() {
    assert_eq!(bswap32(0x0101A8C0), 0xC0A80101);
    assert_eq!(bswap32(0x00000000), 0);
    assert_eq!(bswap32(0x12345678), 0x78563412);
}

#[test]
fn gateway_from_route_table() {
    // 0101A8C0 little-endian is 192.168.1.1.
    assert_eq!(parse_gateway_ip(&bytes(ROUTE_TEXT), &bytes("eth0")), Some(0xC0A80101));
    assert_eq!(parse_gateway_ip(&bytes(ROUTE_TEXT), &bytes("wlan0")), None);
    assert_eq!(parse_gateway_ip(&bytes(""), &bytes("eth0")), None);
}

#[test]
fn mac_from_arp_table() {
    let m = parse_arp_mac(&bytes(ARP_TEXT), 0xC0A80101).expect("the gateway is in the table");
    assert_eq!(m.b, [0xAA, 0xBB, 0xCC, 0xDD, 0xEE, 0xFF]);
    let m2 = parse_arp_mac(&bytes(ARP_TEXT), 0x0A000007).expect("second entry");
    assert_eq!(m2.b, [0x11, 0x22, 0x33, 0x44, 0x55, 0x66]);
    assert!(parse_arp_mac(&bytes(ARP_TEXT), 0x0A000008).is_none());
}

#[test]
fn default_interface_from_route_table() {
    let name = parse_default_iface(&bytes(ROUTE_TEXT)).expect("a default route exists");
    assert_eq!(name, b"eth0".to_vec());
    assert!(parse_default_iface(&bytes("")).is_none());
}

#[test]
fn colon_hex_mac_parsing() {
    let m = parse_mac(&bytes("aa:bb:cc:dd:ee:ff")).unwrap();
    assert_eq!(m.b, [0xAA, 0xBB, 0xCC, 0xDD, 0xEE, 0xFF]);
    let m2 = parse_mac(&bytes("00:1A:2b:3C:4d:5E")).unwrap();
    assert_eq!(m2.b, [0x00, 0x1A, 0x2B, 0x3C, 0x4D, 0x5E]);
    assert!(parse_mac(&bytes("aa:bb:cc:dd:ee:fg")).is_none());
    assert!(parse_mac(&bytes("aabbccddeeff")).is_none());
    assert!(parse_mac(&bytes("aa-bb-cc-dd-ee-ff")).is_none());
    assert!(parse_mac(&bytes("")).is_none());
}
