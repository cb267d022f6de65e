//! Minimal network protocol logic: Ethernet, ARP, IPv4 and ICMP echo. The
//! kernel's NIC driver feeds received frames to [`respond`], which builds the
//! reply frame to transmit.
use vstd::prelude::*;
use crate::bytes::{copy_into, push_all, splice};

verus! {

pub const ETHERTYPE_ARP: u16 = 0x0806;
pub const ETHERTYPE_IPV4: u16 = 0x0800;
pub const ARP_REQUEST: u16 = 1;
pub const ARP_REPLY: u16 = 2;
pub const IPPROTO_ICMP: u8 = 1;
pub const ICMP_ECHO_REQUEST: u8 = 8;
pub const ICMP_ECHO_REPLY: u8 = 0;

pub const ETH_HDR: usize = 14;
pub const ARP_LEN: usize = 28;
pub const IPV4_HDR: usize = 20;
pub const ICMP_HDR: usize = 8;
/// Largest ICMP message echoed back (longer requests are cut to this).
pub const ICMP_MAX: usize = 1500;

/// 48-bit hardware (MAC) address.
#[derive(Clone, Copy, PartialEq, Eq, Debug)]
pub struct Mac(pub [u8; 6]);

/// IPv4 address.
#[derive(Clone, Copy, PartialEq, Eq, Debug)]
pub struct Ipv4(pub [u8; 4]);

/// Sum of the 16-bit big-endian words of `data`, an odd last byte padded
/// with a zero low byte.
pub open spec fn word_sum(data: Seq<u8>) -> nat
    decreases data.len(),
{
    if data.len() == 0 {
        0
    } else if data.len() == 1 {
        (data[0] as nat) * 256
    } else {
        (data[0] as nat) * 256 + (data[1] as nat) + word_sum(data.subrange(2, data.len() as int))
    }
}

/// End-around-carry folding of a sum into 16 bits.
pub open spec fn fold16(s: nat) -> nat
    decreases s,
{
    if s < 0x10000 { s } else { fold16(s % 0x10000 + s / 0x10000) }
}

/// Internet checksum (RFC 1071): the one's complement of the folded word sum.
pub open spec fn checksum_spec(data: Seq<u8>) -> u16 {
    (0xFFFF - fold16(word_sum(data))) as u16
}

proof fn lemma_word_sum_step(data: Seq<u8>, i: int)
    requires
        0 <= i,
        i + 2 <= data.len(),
    ensures
        word_sum(data.subrange(i, data.len() as int)) == (data[i] as nat) * 256 + (data[i + 1] as nat)
            + word_sum(data.subrange(i + 2, data.len() as int)),
{
    let r = data.subrange(i, data.len() as int);
    assert(r.subrange(2, r.len() as int) =~= data.subrange(i + 2, data.len() as int));
}

proof fn lemma_fold_step(s: u32)
    ensures
        (s >> 16u32) == s / 0x10000,
        (s & 0xFFFFu32) == s % 0x10000,
{
    assert((s >> 16u32) == s / 0x10000) by (bit_vector);
    assert((s & 0xFFFFu32) == s % 0x10000) by (bit_vector);
}

/// Internet checksum (RFC 1071): one's-complement sum of 16-bit big-endian
/// words, folded and inverted.
pub fn checksum(data: &[u8]) -> (c: u16)
    requires
        word_sum(data@) <= u32::MAX,
    ensures
        c == checksum_spec(data@),
{
    let mut sum: u32 = 0;
    let mut i: usize = 0;
    assert(data@.subrange(0, data@.len() as int) =~= data@);
    let n = data.len();
    while n - i >= 2
        invariant
            n == data@.len(),
            i <= data@.len(),
            word_sum(data@) <= u32::MAX,
            sum + word_sum(data@.subrange(i as int, data@.len() as int)) == word_sum(data@),
        decreases data@.len() - i,
    {
        proof {
            lemma_word_sum_step(data@, i as int);
        }
        sum = sum + (data[i] as u32) * 256 + (data[i + 1] as u32);
        i += 2;
    }
    if i < data.len() {
        let ghost r = data@.subrange(i as int, data@.len() as int);
        assert(r.len() == 1);
        sum = sum + (data[i] as u32) * 256;
    } else {
        assert(data@.subrange(i as int, data@.len() as int).len() == 0);
    }
    assert(sum == word_sum(data@));
    while sum >= 0x10000
        invariant
            fold16(sum as nat) == fold16(word_sum(data@)),
        decreases sum,
    {
        proof {
            lemma_fold_step(sum);
        }
        sum = (sum & 0xFFFF) + (sum >> 16);
    }
    (0xFFFF - sum) as u16
}

proof fn lemma_fold16(s: nat)
    ensures
        s == 0 ==> fold16(s) == 0,
        s > 0 ==> 1 <= fold16(s) <= 0xFFFF,
        fold16(s) % 0xFFFF == s % 0xFFFF,
    decreases s,
{
    if s >= 0x10000 {
        let q = s / 0x10000;
        let r = s % 0x10000;
        vstd::arithmetic::div_mod::lemma_fundamental_div_mod(s as int, 0x10000);
        assert(s == 0xFFFF * q + (q + r));
        vstd::arithmetic::div_mod::lemma_mod_multiples_vanish(q as int, (q + r) as int, 0xFFFF);
        lemma_fold16((r + q) as nat);
    }
}

proof fn lemma_word_sum_update(data: Seq<u8>, i: int, a: u8, b: u8)
    requires
        0 <= i,
        i % 2 == 0,
        i + 2 <= data.len(),
    ensures
        word_sum(data.update(i, a).update(i + 1, b)) + (data[i] as int) * 256 + (data[i + 1] as int)
            == word_sum(data) + (a as int) * 256 + (b as int),
    decreases data.len(),
{
    let d = data.update(i, a).update(i + 1, b);
    if i == 0 {
        assert(d.subrange(2, d.len() as int) =~= data.subrange(2, data.len() as int));
    } else {
        let t = data.subrange(2, data.len() as int);
        assert(d.subrange(2, d.len() as int) =~= t.update(i - 2, a).update(i - 1, b));
        lemma_word_sum_update(t, i - 2, a, b);
    }
}

/// An upper bound on the word sum: at most one full word per two bytes.
pub proof fn lemma_word_sum_bound(data: Seq<u8>)
    ensures
        word_sum(data) <= 0xFFFF * ((data.len() + 1) / 2),
    decreases data.len(),
{
    if data.len() >= 2 {
        lemma_word_sum_bound(data.subrange(2, data.len() as int));
    }
}

/// Writing the checksum of `data` (big-endian) into a zeroed, word-aligned
/// 16-bit field of `data` gives bytes whose checksum is zero: this is how a
/// receiver validates a header or message.
pub proof fn lemma_checksum_validates(data: Seq<u8>, i: int)
    requires
        0 <= i,
        i % 2 == 0,
        i + 2 <= data.len(),
        data[i] == 0,
        data[i + 1] == 0,
    ensures
        checksum_spec(
            data.update(i, (checksum_spec(data) / 256) as u8).update(i + 1, (checksum_spec(data) % 256) as u8),
        ) == 0,
{
    let s = word_sum(data);
    lemma_fold16(s);
    let c = checksum_spec(data);
    assert(c as int == 0xFFFF - fold16(s));
    let hi = (c / 256) as u8;
    let lo = (c % 256) as u8;
    lemma_word_sum_update(data, i, hi, lo);
    let d = data.update(i, hi).update(i + 1, lo);
    assert(word_sum(d) == s + c);
    let t = (s + c) as nat;
    assert(t > 0);
    vstd::arithmetic::div_mod::lemma_fundamental_div_mod(s as int, 0xFFFF);
    vstd::arithmetic::div_mod::lemma_fundamental_div_mod(fold16(s) as int, 0xFFFF);
    assert(t % 0xFFFF == 0) by {
        let q = s / 0xFFFF;
        assert(t == 0xFFFF * (q + 1) + (s % 0xFFFF - fold16(s) % 0xFFFF)
            - 0xFFFF * (fold16(s) / 0xFFFF));
        assert(fold16(s) % 0xFFFF == s % 0xFFFF);
        assert(t == 0xFFFF * (q + 1 - fold16(s) / 0xFFFF));
        vstd::arithmetic::div_mod::lemma_mod_multiples_vanish(q + 1 - fold16(s) / 0xFFFF, 0, 0xFFFF);
    }
    lemma_fold16(t);
    assert(fold16(t) == 0xFFFF);
}

/// `v` as two big-endian bytes.
pub open spec fn be16(v: int) -> Seq<u8> {
    seq![(v / 256) as u8, (v % 256) as u8]
}

/// The big-endian 16-bit value at `s[i..i + 2]`.
pub open spec fn get16(s: Seq<u8>, i: int) -> int {
    s[i] * 256 + s[i + 1]
}

/// An Ethernet header: destination, source, EtherType.
pub open spec fn eth_header(dst: Seq<u8>, src: Seq<u8>, ty: u16) -> Seq<u8> {
    dst + src + be16(ty as int)
}

/// An ARP packet for Ethernet/IPv4.
pub open spec fn arp_body(oper: u16, sha: Seq<u8>, spa: Seq<u8>, tha: Seq<u8>, tpa: Seq<u8>) -> Seq<u8> {
    be16(1) + be16(ETHERTYPE_IPV4 as int) + seq![6u8, 4u8] + be16(oper as int) + sha + spa + tha + tpa
}

/// The ARP reply announcing `mac`/`ip` to the requester `tmac`/`tip`.
pub open spec fn arp_reply_frame(mac: Seq<u8>, ip: Seq<u8>, tmac: Seq<u8>, tip: Seq<u8>) -> Seq<u8> {
    eth_header(tmac, mac, ETHERTYPE_ARP) + arp_body(ARP_REPLY, mac, ip, tmac, tip)
}

/// The broadcast gratuitous ARP announcing `mac`/`ip` (sender == target).
pub open spec fn announce_frame(mac: Seq<u8>, ip: Seq<u8>) -> Seq<u8> {
    eth_header(seq![0xFFu8, 0xFFu8, 0xFFu8, 0xFFu8, 0xFFu8, 0xFFu8], mac, ETHERTYPE_ARP) + arp_body(
        ARP_REQUEST,
        mac,
        ip,
        seq![0u8, 0u8, 0u8, 0u8, 0u8, 0u8],
        ip,
    )
}

/// An IPv4 header (no options, TTL 64, protocol ICMP) with the given checksum field.
pub open spec fn ipv4_header(src: Seq<u8>, dst: Seq<u8>, total: int, csum: u16) -> Seq<u8> {
    seq![0x45u8, 0u8] + be16(total) + seq![0u8, 0u8, 0u8, 0u8, 64u8, IPPROTO_ICMP] + be16(csum as int) + src + dst
}

/// The ICMP echo reply to echo request `req`: type and code cleared, checksum recomputed.
pub open spec fn echo_reply(req: Seq<u8>) -> Seq<u8> {
    let z = req.update(0, ICMP_ECHO_REPLY).update(1, 0u8).update(2, 0u8).update(3, 0u8);
    let c = checksum_spec(z) as int;
    z.update(2, (c / 256) as u8).update(3, (c % 256) as u8)
}

/// The whole reply frame to an ICMP echo request `req` from `peer_mac`/`peer_ip`.
pub open spec fn echo_reply_frame(mac: Seq<u8>, ip: Seq<u8>, peer_mac: Seq<u8>, peer_ip: Seq<u8>, req: Seq<u8>) -> Seq<u8> {
    let total = IPV4_HDR + req.len();
    eth_header(peer_mac, mac, ETHERTYPE_IPV4) + ipv4_header(
        ip,
        peer_ip,
        total,
        checksum_spec(ipv4_header(ip, peer_ip, total, 0)),
    ) + echo_reply(req)
}

/// Both checksums of an echo reply validate: the IPv4 header's and the ICMP
/// message's checksum over the bytes as sent is zero.
pub proof fn lemma_echo_reply_checksums(ip: Seq<u8>, peer_ip: Seq<u8>, total: int, req: Seq<u8>)
    requires
        ip.len() == 4,
        peer_ip.len() == 4,
        req.len() >= ICMP_HDR,
    ensures
        checksum_spec(ipv4_header(ip, peer_ip, total, checksum_spec(ipv4_header(ip, peer_ip, total, 0)))) == 0,
        checksum_spec(echo_reply(req)) == 0,
{
    let z = ipv4_header(ip, peer_ip, total, 0);
    let c = checksum_spec(z);
    assert(ipv4_header(ip, peer_ip, total, c) =~= z.update(10, (c / 256) as u8).update(11, (c % 256) as u8));
    lemma_checksum_validates(z, 10);
    let m = req.update(0, ICMP_ECHO_REPLY).update(1, 0u8).update(2, 0u8).update(3, 0u8);
    lemma_checksum_validates(m, 2);
}

/// The frame is an ARP request for `ip`, which is always answered.
pub open spec fn is_arp_for_us(frame: Seq<u8>, ip: Seq<u8>) -> bool {
    let p = frame.subrange(ETH_HDR as int, frame.len() as int);
    &&& frame.len() >= ETH_HDR
    &&& get16(frame, 12) == ETHERTYPE_ARP
    &&& p.len() >= ARP_LEN
    &&& get16(p, 6) == ARP_REQUEST
    &&& p.subrange(24, 28) == ip
}

/// The reply to `frame` for a host `mac`/`ip` with an `out_len`-byte transmit
/// buffer: ARP requests for our IP and ICMP echo requests to our IP are
/// answered, everything else is not.
pub open spec fn respond_spec(frame: Seq<u8>, mac: Seq<u8>, ip: Seq<u8>, out_len: int) -> Option<Seq<u8>> {
    if frame.len() < ETH_HDR {
        None
    } else {
        let ty = get16(frame, 12);
        let p = frame.subrange(ETH_HDR as int, frame.len() as int);
        if ty == ETHERTYPE_ARP {
            if is_arp_for_us(frame, ip) {
                Some(arp_reply_frame(mac, ip, p.subrange(8, 14), p.subrange(14, 18)))
            } else {
                None
            }
        } else if ty == ETHERTYPE_IPV4 {
            if p.len() < IPV4_HDR {
                None
            } else {
                let ihl = (p[0] % 16) * 4;
                let stated = get16(p, 2);
                let total_len = if stated < p.len() { stated } else { p.len() as int };
                if ihl < IPV4_HDR || total_len < ihl {
                    None
                } else if p[9] != IPPROTO_ICMP || p.subrange(16, 20) != ip {
                    None
                } else {
                    let msg = p.subrange(ihl, total_len);
                    if msg.len() < ICMP_HDR || msg[0] != ICMP_ECHO_REQUEST {
                        None
                    } else {
                        let req = if msg.len() <= ICMP_MAX { msg } else { msg.subrange(0, ICMP_MAX as int) };
                        if ETH_HDR + IPV4_HDR + req.len() > out_len {
                            None
                        } else {
                            Some(echo_reply_frame(mac, ip, frame.subrange(6, 12), p.subrange(12, 16), req))
                        }
                    }
                }
            }
        } else {
            None
        }
    }
}

fn push_be16(v: &mut Vec<u8>, x: u16)
    ensures
        final(v)@ == old(v)@ + be16(x as int),
{
    v.push((x / 256) as u8);
    v.push((x % 256) as u8);
    assert(final(v)@ =~= old(v)@ + be16(x as int));
}

fn eth_bytes(dst: &[u8], src: &[u8], ty: u16) -> (v: Vec<u8>)
    ensures
        v@ == eth_header(dst@, src@, ty),
{
    let mut v: Vec<u8> = Vec::new();
    push_all(&mut v, dst);
    push_all(&mut v, src);
    push_be16(&mut v, ty);
    assert(v@ =~= eth_header(dst@, src@, ty));
    v
}

fn arp_bytes(v: &mut Vec<u8>, oper: u16, sha: &[u8], spa: &[u8], tha: &[u8], tpa: &[u8])
    ensures
        final(v)@ == old(v)@ + arp_body(oper, sha@, spa@, tha@, tpa@),
{
    push_be16(v, 1);
    push_be16(v, ETHERTYPE_IPV4);
    v.push(6);
    v.push(4);
    push_be16(v, oper);
    push_all(v, sha);
    push_all(v, spa);
    push_all(v, tha);
    push_all(v, tpa);
    assert(final(v)@ =~= old(v)@ + arp_body(oper, sha@, spa@, tha@, tpa@));
}

/// Build a broadcast "gratuitous ARP" announcing `mac`/`ip` into `out`. Sent on
/// boot so the OS advertises itself on the wire. Returns the frame length, 42.
pub fn arp_announce(out: &mut [u8], mac: Mac, ip: Ipv4) -> (n: usize)
    requires
        old(out)@.len() >= ETH_HDR + ARP_LEN,
    ensures
        n == ETH_HDR + ARP_LEN,
        announce_frame(mac.0@, ip.0@).len() == n,
        final(out)@ == splice(old(out)@, 0, announce_frame(mac.0@, ip.0@)),
{
    let bcast: [u8; 6] = [0xFF, 0xFF, 0xFF, 0xFF, 0xFF, 0xFF];
    let zero: [u8; 6] = [0, 0, 0, 0, 0, 0];
    let mut v = eth_bytes(bcast.as_slice(), mac.0.as_slice(), ETHERTYPE_ARP);
    arp_bytes(&mut v, ARP_REQUEST, mac.0.as_slice(), ip.0.as_slice(), zero.as_slice(), ip.0.as_slice());
    assert(bcast@ =~= seq![0xFFu8, 0xFFu8, 0xFFu8, 0xFFu8, 0xFFu8, 0xFFu8]);
    assert(zero@ =~= seq![0u8, 0u8, 0u8, 0u8, 0u8, 0u8]);
    assert(v@ =~= announce_frame(mac.0@, ip.0@));
    copy_into(out, 0, v.as_slice());
    v.len()
}

proof fn lemma_low_nibble(b: u8)
    ensures
        (b & 0x0Fu8) as int == b % 16,
{
    assert((b & 0x0Fu8) == b % 16) by (bit_vector);
}

/// The IPv4 header of an echo reply, checksum included.
fn ipv4_reply_header(ip: &[u8], peer_ip: &[u8], total: u16) -> (v: Vec<u8>)
    requires
        ip@.len() == 4,
        peer_ip@.len() == 4,
    ensures
        v@ == ipv4_header(ip@, peer_ip@, total as int, checksum_spec(ipv4_header(ip@, peer_ip@, total as int, 0))),
{
    let mut h: Vec<u8> = Vec::new();
    h.push(0x45);
    h.push(0);
    push_be16(&mut h, total);
    h.push(0);
    h.push(0);
    h.push(0);
    h.push(0);
    h.push(64);
    h.push(IPPROTO_ICMP);
    let mut z = h.clone();
    push_be16(&mut z, 0);
    push_all(&mut z, ip);
    push_all(&mut z, peer_ip);
    assert(z@ =~= ipv4_header(ip@, peer_ip@, total as int, 0));
    proof {
        lemma_word_sum_bound(z@);
    }
    let c = checksum(z.as_slice());
    push_be16(&mut h, c);
    push_all(&mut h, ip);
    push_all(&mut h, peer_ip);
    assert(h@ =~= ipv4_header(ip@, peer_ip@, total as int, c));
    h
}

/// The ICMP echo reply for request `req`.
fn echo_reply_bytes(req: &[u8]) -> (v: Vec<u8>)
    requires
        ICMP_HDR <= req@.len() <= ICMP_MAX,
    ensures
        v@ == echo_reply(req@),
{
    let mut z = crate::bytes::to_vec(req);
    z.set(0, ICMP_ECHO_REPLY);
    z.set(1, 0);
    z.set(2, 0);
    z.set(3, 0);
    proof {
        lemma_word_sum_bound(z@);
    }
    let c = checksum(z.as_slice());
    z.set(2, (c / 256) as u8);
    z.set(3, (c % 256) as u8);
    z
}

/// Given a received `frame` and our identity (`mac`, `ip`), build the reply to
/// transmit into `out` and return its length, or `None` if the frame needs no
/// answer. Handles ARP requests for our IP and ICMP echo requests to our IP.
pub fn respond(frame: &[u8], mac: Mac, ip: Ipv4, out: &mut [u8]) -> (r: Option<usize>)
    requires
        is_arp_for_us(frame@, ip.0@) ==> old(out)@.len() >= ETH_HDR + ARP_LEN,
    ensures
        match respond_spec(frame@, mac.0@, ip.0@, old(out)@.len() as int) {
            Some(reply) => r == Some(reply.len() as usize) && final(out)@ == splice(old(out)@, 0, reply),
            None => r is None && final(out)@ == old(out)@,
        },
{
    if frame.len() < ETH_HDR {
        return None;
    }
    let ty = (frame[12] as u16) * 256 + (frame[13] as u16);
    let payload = &frame[ETH_HDR..frame.len()];
    if ty == ETHERTYPE_ARP {
        if payload.len() < ARP_LEN {
            return None;
        }
        let oper = (payload[6] as u16) * 256 + (payload[7] as u16);
        let tpa = &payload[24..28];
        if oper != ARP_REQUEST || !crate::bytes::bytes_eq(tpa, ip.0.as_slice()) {
            return None;
        }
        let sha = &payload[8..14];
        let spa = &payload[14..18];
        let mut v = eth_bytes(sha, mac.0.as_slice(), ETHERTYPE_ARP);
        arp_bytes(&mut v, ARP_REPLY, mac.0.as_slice(), ip.0.as_slice(), sha, spa);
        assert(v@ =~= arp_reply_frame(mac.0@, ip.0@, sha@, spa@));
        copy_into(out, 0, v.as_slice());
        Some(v.len())
    } else if ty == ETHERTYPE_IPV4 {
        if payload.len() < IPV4_HDR {
            return None;
        }
        proof {
            lemma_low_nibble(payload@[0]);
        }
        let ihl = ((payload[0] & 0x0F) as usize) * 4;
        let stated = (payload[2] as usize) * 256 + (payload[3] as usize);
        let total_len = if stated < payload.len() { stated } else { payload.len() };
        if ihl < IPV4_HDR || total_len < ihl {
            return None;
        }
        let proto = payload[9];
        let dst = &payload[16..20];
        let src = &payload[12..16];
        if proto != IPPROTO_ICMP || !crate::bytes::bytes_eq(dst, ip.0.as_slice()) {
            return None;
        }
        let msg = &payload[ihl..total_len];
        if msg.len() < ICMP_HDR || msg[0] != ICMP_ECHO_REQUEST {
            return None;
        }
        let n = if msg.len() < ICMP_MAX { msg.len() } else { ICMP_MAX };
        let req = &msg[0..n];
        assert(req@ == (if msg@.len() <= ICMP_MAX { msg@ } else { msg@.subrange(0, ICMP_MAX as int) }));
        let total = ETH_HDR + IPV4_HDR + n;
        if total > out.len() {
            return None;
        }
        let peer_mac = &frame[6..12];
        let mut v = eth_bytes(peer_mac, mac.0.as_slice(), ETHERTYPE_IPV4);
        let h = ipv4_reply_header(ip.0.as_slice(), src, (IPV4_HDR + n) as u16);
        push_all(&mut v, h.as_slice());
        let body = echo_reply_bytes(req);
        push_all(&mut v, body.as_slice());
        assert(v@ =~= echo_reply_frame(mac.0@, ip.0@, peer_mac@, src@, req@));
        copy_into(out, 0, v.as_slice());
        Some(v.len())
    } else {
        None
    }
}

} // verus!
