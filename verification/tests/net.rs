use osjeff_core::net::{arp_announce, checksum, respond, Ipv4, Mac, ARP_LEN, ARP_REPLY, ARP_REQUEST, ETHERTYPE_ARP, ETHERTYPE_IPV4, ETH_HDR, ICMP_ECHO_REPLY, ICMP_ECHO_REQUEST, ICMP_HDR, IPPROTO_ICMP, IPV4_HDR};

fn write_eth(out: &mut [u8], dst: Mac, src: Mac, ethertype: u16) {
    out[0..6].copy_from_slice(&dst.0);
    out[6..12].copy_from_slice(&src.0);
    out[12..14].copy_from_slice(&ethertype.to_be_bytes());
}

const OUR_MAC: Mac = Mac([0x52, 0x54, 0x00, 0x12, 0x34, 0x56]);
const OUR_IP: Ipv4 = Ipv4([10, 0, 2, 15]);
const PEER_MAC: Mac = Mac([0x52, 0x55, 0x0a, 0x00, 0x02, 0x02]);
const PEER_IP: Ipv4 = Ipv4([10, 0, 2, 2]);

#[test]
fn checksum_known_ipv4_header() {
    // Wikipedia IPv4 example; checksum field zeroed -> expect 0xb861.
    let hdr = [
        0x45u8, 0x00, 0x00, 0x73, 0x00, 0x00, 0x40, 0x00, 0x40, 0x11, 0x00, 0x00, 0xc0, 0xa8,
        0x00, 0x01, 0xc0, 0xa8, 0x00, 0xc7,
    ];
    assert_eq!(checksum(&hdr), 0xb861);
}

#[test]
fn checksum_over_header_with_csum_is_zero() {
    let mut hdr = [
        0x45u8, 0x00, 0x00, 0x73, 0x00, 0x00, 0x40, 0x00, 0x40, 0x11, 0x00, 0x00, 0xc0, 0xa8,
        0x00, 0x01, 0xc0, 0xa8, 0x00, 0xc7,
    ];
    let c = checksum(&hdr).to_be_bytes();
    hdr[10] = c[0];
    hdr[11] = c[1];
    assert_eq!(checksum(&hdr), 0);
}

#[test]
fn checksum_handles_odd_length() {
    // Must not panic and must fold the trailing byte.
    let _ = checksum(&[0x01, 0x02, 0x03]);
}

fn arp_request(target: Ipv4) -> [u8; ETH_HDR + ARP_LEN] {
    let mut f = [0u8; ETH_HDR + ARP_LEN];
    write_eth(&mut f, Mac([0xff; 6]), PEER_MAC, ETHERTYPE_ARP);
    let a = &mut f[ETH_HDR..];
    a[0..2].copy_from_slice(&1u16.to_be_bytes());
    a[2..4].copy_from_slice(&ETHERTYPE_IPV4.to_be_bytes());
    a[4] = 6;
    a[5] = 4;
    a[6..8].copy_from_slice(&ARP_REQUEST.to_be_bytes());
    a[8..14].copy_from_slice(&PEER_MAC.0);
    a[14..18].copy_from_slice(&PEER_IP.0);
    a[24..28].copy_from_slice(&target.0);
    f
}

#[test]
fn arp_request_for_us_gets_reply() {
    let frame = arp_request(OUR_IP);
    let mut out = [0u8; 64];
    let n = respond(&frame, OUR_MAC, OUR_IP, &mut out).unwrap();
    assert_eq!(n, ETH_HDR + ARP_LEN);
    // Reply addressed to the requester, from us.
    assert_eq!(&out[0..6], &PEER_MAC.0);
    assert_eq!(&out[6..12], &OUR_MAC.0);
    let a = &out[ETH_HDR..];
    assert_eq!(u16::from_be_bytes([a[6], a[7]]), ARP_REPLY);
    assert_eq!(&a[8..14], &OUR_MAC.0); // sender hw = us
    assert_eq!(&a[14..18], &OUR_IP.0); // sender proto = us
}

#[test]
fn arp_request_for_other_ip_ignored() {
    let frame = arp_request(Ipv4([10, 0, 2, 99]));
    let mut out = [0u8; 64];
    assert_eq!(respond(&frame, OUR_MAC, OUR_IP, &mut out), None);
}

fn icmp_echo(dst: Ipv4, payload: &[u8]) -> [u8; 128] {
    let mut f = [0u8; 128];
    write_eth(&mut f, OUR_MAC, PEER_MAC, ETHERTYPE_IPV4);
    let ip = &mut f[ETH_HDR..ETH_HDR + IPV4_HDR];
    ip[0] = 0x45;
    let total = (IPV4_HDR + ICMP_HDR + payload.len()) as u16;
    ip[2..4].copy_from_slice(&total.to_be_bytes());
    ip[8] = 64;
    ip[9] = IPPROTO_ICMP;
    ip[12..16].copy_from_slice(&PEER_IP.0);
    ip[16..20].copy_from_slice(&dst.0);
    let icmp = &mut f[ETH_HDR + IPV4_HDR..];
    icmp[0] = ICMP_ECHO_REQUEST;
    icmp[4..6].copy_from_slice(&0x1234u16.to_be_bytes()); // id
    icmp[6..8].copy_from_slice(&0x0001u16.to_be_bytes()); // seq
    icmp[8..8 + payload.len()].copy_from_slice(payload);
    f
}

#[test]
fn icmp_echo_request_gets_valid_reply() {
    let frame = icmp_echo(OUR_IP, b"ping-data");
    let mut out = [0u8; 128];
    let n = respond(&frame, OUR_MAC, OUR_IP, &mut out).unwrap();
    assert_eq!(n, ETH_HDR + IPV4_HDR + ICMP_HDR + 9);

    // Ethernet back to the peer, from us.
    assert_eq!(&out[0..6], &PEER_MAC.0);
    assert_eq!(&out[6..12], &OUR_MAC.0);

    // IPv4 header checksum must validate, addresses swapped.
    let ip = &out[ETH_HDR..ETH_HDR + IPV4_HDR];
    assert_eq!(checksum(ip), 0);
    assert_eq!(&ip[12..16], &OUR_IP.0);
    assert_eq!(&ip[16..20], &PEER_IP.0);

    // ICMP is an echo reply, checksum validates, payload echoed.
    let icmp = &out[ETH_HDR + IPV4_HDR..n];
    assert_eq!(icmp[0], ICMP_ECHO_REPLY);
    assert_eq!(checksum(icmp), 0);
    assert_eq!(&icmp[8..], b"ping-data");
}

#[test]
fn icmp_to_other_ip_ignored() {
    let frame = icmp_echo(Ipv4([10, 0, 2, 99]), b"x");
    let mut out = [0u8; 128];
    assert_eq!(respond(&frame, OUR_MAC, OUR_IP, &mut out), None);
}

#[test]
fn arp_announce_is_broadcast_from_us() {
    let mut out = [0u8; 64];
    let n = arp_announce(&mut out, OUR_MAC, OUR_IP);
    assert_eq!(n, ETH_HDR + ARP_LEN);
    assert_eq!(&out[0..6], &[0xff; 6]); // broadcast
    assert_eq!(&out[6..12], &OUR_MAC.0);
    let a = &out[ETH_HDR..];
    assert_eq!(u16::from_be_bytes([a[6], a[7]]), ARP_REQUEST);
    assert_eq!(&a[8..14], &OUR_MAC.0); // sender hw
    assert_eq!(&a[14..18], &OUR_IP.0); // sender proto
    assert_eq!(&a[24..28], &OUR_IP.0); // target proto = us (gratuitous)
}

#[test]
fn non_ip_non_arp_ignored() {
    let mut f = [0u8; 64];
    write_eth(&mut f, OUR_MAC, PEER_MAC, 0x88cc); // LLDP
    let mut out = [0u8; 64];
    assert_eq!(respond(&f, OUR_MAC, OUR_IP, &mut out), None);
}

#[test]
fn short_frame_ignored() {
    let mut out = [0u8; 64];
    assert_eq!(respond(&[0u8; 8], OUR_MAC, OUR_IP, &mut out), None);
}
