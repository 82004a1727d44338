//! One captured frame and the protocol fields read from it at fixed offsets.
use crate::endian::{be16_at, be16_from, be32_at, be32_from, be48_at, be48_from};
use crate::text::{ipv4_string, ipv4_text, mac_string, mac_text};
use vstd::prelude::*;

verus! {

/// Position of the byte whose upper nibble gives the IP header length.
pub const IP_HDR_LEN_POS: usize = 0x0e;

/// Position of the byte whose upper nibble gives the TCP header length.
pub const TCP_HDR_LEN_POS: usize = 0x2e;

/// Length of an Ethernet header without a VLAN tag.
pub const ETHERNET_HDR_LEN: usize = 0x0e;

/// Length of a UDP header.
pub const UDP_HEADER_LEN: u8 = 8;

/// Ethernet type of IPv4.
pub const ETHER_IPV4_PROTO: u16 = 0x0800;

/// Tag protocol identifier of an 802.1Q VLAN tag.
pub const ETHER_8021Q: u16 = 0x8100;

/// IP protocol number of TCP.
pub const IP_TCP_PROTO: u8 = 0x06;

/// IP protocol number of UDP.
pub const IP_UDP_PROTO: u8 = 0x11;

/// The shift of every offset past the Ethernet type: 4 when the frame carries
/// a VLAN tag, else 0.
pub open spec fn vlan_offset_of(raw: Seq<u8>) -> usize {
    if raw.len() >= ETHERNET_HDR_LEN && be16_at(raw, 12) == ETHER_8021Q {
        4
    } else {
        0
    }
}

/// The raw type field at offset 12.
pub open spec fn ether_header_of(raw: Seq<u8>) -> u16 {
    be16_at(raw, 12)
}

/// The VLAN identifier, or 1 when the frame carries no VLAN tag.
pub open spec fn vlan_id_of(raw: Seq<u8>) -> u16 {
    if vlan_offset_of(raw) == 4 {
        be16_at(raw, 14)
    } else {
        1
    }
}

/// The Ethernet type, past the VLAN tag if there is one.
pub open spec fn ether_type_of(raw: Seq<u8>) -> u16 {
    be16_at(raw, 12 + vlan_offset_of(raw))
}

/// The Ethernet type is IPv4.
pub open spec fn is_ipv4(raw: Seq<u8>) -> bool {
    ether_type_of(raw) == ETHER_IPV4_PROTO
}

/// The IP protocol number, or 0 for a frame that is not IPv4.
pub open spec fn ip_proto_of(raw: Seq<u8>) -> u8 {
    if is_ipv4(raw) {
        raw[23 + vlan_offset_of(raw)]
    } else {
        0
    }
}

/// The IP protocol is TCP or UDP.
pub open spec fn is_tcp_or_udp(raw: Seq<u8>) -> bool {
    ip_proto_of(raw) == IP_TCP_PROTO || ip_proto_of(raw) == IP_UDP_PROTO
}

/// The source IPv4 address, or 0 for a frame that is not IPv4.
pub open spec fn src_ip_of(raw: Seq<u8>) -> u32 {
    if is_ipv4(raw) {
        be32_at(raw, 30)
    } else {
        0
    }
}

/// The destination IPv4 address, or 0 for a frame that is not IPv4.
pub open spec fn dst_ip_of(raw: Seq<u8>) -> u32 {
    if is_ipv4(raw) {
        be32_at(raw, 34)
    } else {
        0
    }
}

/// The source port, or 0 unless the protocol is TCP or UDP.
pub open spec fn sport_of(raw: Seq<u8>) -> u16 {
    if is_tcp_or_udp(raw) {
        be16_at(raw, 34 + vlan_offset_of(raw))
    } else {
        0
    }
}

/// The destination port, or 0 unless the protocol is TCP or UDP.
pub open spec fn dport_of(raw: Seq<u8>) -> u16 {
    if is_tcp_or_udp(raw) {
        be16_at(raw, 36 + vlan_offset_of(raw))
    } else {
        0
    }
}

/// Four times the upper nibble of the byte at [`IP_HDR_LEN_POS`].
pub open spec fn ip_header_len_of(raw: Seq<u8>) -> u8 {
    ((raw[IP_HDR_LEN_POS as int] as int / 16) * 4) as u8
}

/// Four times the upper nibble of the byte at [`TCP_HDR_LEN_POS`].
pub open spec fn tcp_header_len_of(raw: Seq<u8>) -> u8 {
    ((raw[TCP_HDR_LEN_POS as int] as int / 16) * 4) as u8
}

/// Ethernet, IP and transport header lengths together for TCP and UDP; the
/// included length, cut to 16 bits, for any other protocol.
pub open spec fn header_len_of(raw: Seq<u8>, inc_len: u32) -> u16 {
    if ip_proto_of(raw) == IP_TCP_PROTO {
        (ETHERNET_HDR_LEN + ip_header_len_of(raw) + tcp_header_len_of(raw)) as u16
    } else if ip_proto_of(raw) == IP_UDP_PROTO {
        (ETHERNET_HDR_LEN + ip_header_len_of(raw) + UDP_HEADER_LEN) as u16
    } else {
        inc_len as u16
    }
}

/// The part of the frame after the headers for TCP and UDP; the whole frame
/// for any other protocol.
pub open spec fn payload_of(raw: Seq<u8>, inc_len: u32) -> Seq<u8> {
    if is_tcp_or_udp(raw) {
        raw.subrange(header_len_of(raw, inc_len) as int, raw.len() as int)
    } else {
        raw
    }
}

/// The frame is long enough for its Ethernet type field.
pub open spec fn has_link_header(raw: Seq<u8>) -> bool {
    raw.len() >= ETHERNET_HDR_LEN + vlan_offset_of(raw)
}

/// The frame is long enough for the IP protocol field, where it is IPv4.
pub open spec fn has_proto_field(raw: Seq<u8>) -> bool {
    &&& has_link_header(raw)
    &&& is_ipv4(raw) ==> raw.len() >= 24 + vlan_offset_of(raw)
}

/// The frame is long enough for every field that the header length reads.
pub open spec fn has_header_len_fields(raw: Seq<u8>) -> bool {
    &&& has_proto_field(raw)
    &&& is_tcp_or_udp(raw) ==> raw.len() > IP_HDR_LEN_POS
    &&& ip_proto_of(raw) == IP_TCP_PROTO ==> raw.len() > TCP_HDR_LEN_POS
}

/// The big-endian bytes of `x`, most significant first.
pub open spec fn be32_bytes(x: u32) -> Seq<u8> {
    seq![(x >> 24) as u8, (x >> 16) as u8, (x >> 8) as u8, x as u8]
}

/// What a frame holds: its record metadata, its bytes, and the VLAN shift.
pub ghost struct FrameView {
    pub ts_sec: u32,
    pub ts_usec: u32,
    pub inc_len: u32,
    pub orig_len: u32,
    pub pkt_ptr: usize,
    pub file_ptr: usize,
    pub raw: Seq<u8>,
    pub vo: usize,
}

/// One captured frame with its capture metadata.
#[derive(Debug, PartialEq, Eq, Clone)]
pub struct PacketRef {
    ts_sec: u32,
    ts_usec: u32,
    inc_len: u32,
    orig_len: u32,
    pkt_ptr: usize,
    file_ptr: usize,
    raw_packet: Vec<u8>,
    vo: usize,
}

impl View for PacketRef {
    type V = FrameView;

    closed spec fn view(&self) -> FrameView {
        FrameView {
            ts_sec: self.ts_sec,
            ts_usec: self.ts_usec,
            inc_len: self.inc_len,
            orig_len: self.orig_len,
            pkt_ptr: self.pkt_ptr,
            file_ptr: self.file_ptr,
            raw: self.raw_packet@,
            vo: self.vo,
        }
    }
}

impl PacketRef {
    /// The VLAN shift agrees with the bytes it was computed from.
    pub open spec fn wf(&self) -> bool {
        self@.vo == vlan_offset_of(self@.raw)
    }

    /// A frame with the given metadata and a one-byte placeholder buffer.
    pub fn new(
        inc_len: u32,
        orig_len: u32,
        ts_sec: u32,
        ts_usec: u32,
        pkt_ptr: usize,
        file_ptr: usize,
    ) -> (r: Self)
        ensures
            r.wf(),
            r@ == (FrameView {
                ts_sec,
                ts_usec,
                inc_len,
                orig_len,
                pkt_ptr,
                file_ptr,
                raw: seq![0u8],
                vo: 0,
            }),
    {
        let raw_packet: Vec<u8> = vec![0];
        assert(raw_packet@ =~= seq![0u8]);
        Self { inc_len, orig_len, ts_sec, ts_usec, pkt_ptr, file_ptr, vo: 0, raw_packet }
    }

    /// Attaches the frame's bytes and computes the VLAN shift once.
    pub fn set_packet(&mut self, packet: &[u8])
        requires
            packet@.len() >= ETHERNET_HDR_LEN,
        ensures
            final(self).wf(),
            final(self)@ == (FrameView { raw: packet@, vo: vlan_offset_of(packet@), ..old(self)@ }),
    {
        self.raw_packet = vstd::slice::slice_to_vec(packet);
        if be16_from(packet, 12) == ETHER_8021Q {
            self.vo = 4;
        } else {
            self.vo = 0;
        }
    }

    /// The VLAN identifier at offset 14, or 1 when there is no VLAN tag.
    pub fn vlan_id(&self) -> (r: u16)
        requires
            self.wf(),
            has_link_header(self@.raw),
        ensures
            r == vlan_id_of(self@.raw),
    {
        if self.vo == 4 {
            be16_from(self.raw_packet.as_slice(), 14)
        } else {
            1
        }
    }

    pub fn timestamp(&self) -> (r: u32)
        ensures
            r == self@.ts_sec,
    {
        self.ts_sec
    }

    pub fn pkt_ptr(&self) -> (r: usize)
        ensures
            r == self@.pkt_ptr,
    {
        self.pkt_ptr
    }

    pub fn file_ptr(&self) -> (r: usize)
        ensures
            r == self@.file_ptr,
    {
        self.file_ptr
    }

    /// A capture record header for this frame: seconds, microseconds, included
    /// length and original length, each as four big-endian bytes. With
    /// `header_only`, the included length first becomes the header length.
    pub fn _pkt_header(&mut self, header_only: bool) -> (r: [u8; 16])
        requires
            old(self).wf(),
            header_only ==> has_header_len_fields(old(self)@.raw),
        ensures
            final(self).wf(),
            final(self)@ == (FrameView {
                inc_len: if header_only {
                    header_len_of(old(self)@.raw, old(self)@.inc_len) as u32
                } else {
                    old(self)@.inc_len
                },
                ..old(self)@
            }),
            r@ == be32_bytes(final(self)@.ts_sec) + be32_bytes(final(self)@.ts_usec) + be32_bytes(
                final(self)@.inc_len,
            ) + be32_bytes(final(self)@.orig_len),
    {
        if header_only {
            self.inc_len = self._get_header_len() as u32;
        }
        let header: [u8; 16] = [
            (self.ts_sec >> 24) as u8,
            (self.ts_sec >> 16) as u8,
            (self.ts_sec >> 8) as u8,
            self.ts_sec as u8,
            (self.ts_usec >> 24) as u8,
            (self.ts_usec >> 16) as u8,
            (self.ts_usec >> 8) as u8,
            self.ts_usec as u8,
            (self.inc_len >> 24) as u8,
            (self.inc_len >> 16) as u8,
            (self.inc_len >> 8) as u8,
            self.inc_len as u8,
            (self.orig_len >> 24) as u8,
            (self.orig_len >> 16) as u8,
            (self.orig_len >> 8) as u8,
            self.orig_len as u8,
        ];
        assert(header@ =~= be32_bytes(self.ts_sec) + be32_bytes(self.ts_usec) + be32_bytes(
            self.inc_len,
        ) + be32_bytes(self.orig_len));
        header
    }

    fn _get_mac_str(&self, raw_mac: &[u8]) -> (r: String)
        requires
            raw_mac@.len() >= 6,
        ensures
            r@ == mac_text(raw_mac@),
    {
        mac_string(raw_mac)
    }

    /// The destination MAC address, bytes 0 to 6.
    pub fn dst_mac(&self) -> (r: u64)
        requires
            self@.raw.len() >= 6,
        ensures
            r == be48_at(self@.raw, 0),
    {
        be48_from(self.raw_packet.as_slice(), 0)
    }

    /// The source MAC address, bytes 6 to 12.
    pub fn src_mac(&self) -> (r: u64)
        requires
            self@.raw.len() >= 12,
        ensures
            r == be48_at(self@.raw, 6),
    {
        be48_from(self.raw_packet.as_slice(), 6)
    }

    pub fn _dst_mac_str(&self) -> (r: String)
        requires
            self@.raw.len() >= 6,
        ensures
            r@ == mac_text(self@.raw),
    {
        self._get_mac_str(self.raw_packet.as_slice())
    }

    pub fn _src_mac_str(&self) -> (r: String)
        requires
            self@.raw.len() >= 12,
        ensures
            r@ == mac_text(self@.raw.subrange(6, 12)),
    {
        self._get_mac_str(vstd::slice::slice_subrange(self.raw_packet.as_slice(), 6, 12))
    }

    /// The raw type field at offset 12.
    pub fn ether_header(&self) -> (r: u16)
        requires
            self@.raw.len() >= ETHERNET_HDR_LEN,
        ensures
            r == ether_header_of(self@.raw),
    {
        be16_from(self.raw_packet.as_slice(), 12)
    }

    /// The Ethernet type, at offset 12, or at 16 past a VLAN tag.
    pub fn ether_type(&self) -> (r: u16)
        requires
            self.wf(),
            has_link_header(self@.raw),
        ensures
            r == ether_type_of(self@.raw),
    {
        be16_from(self.raw_packet.as_slice(), 12 + self.vo)
    }

    fn _get_ip_str(&self, raw_ip: &[u8]) -> (r: String)
        requires
            raw_ip@.len() >= 4,
        ensures
            r@ == ipv4_text(raw_ip@),
    {
        ipv4_string(raw_ip)
    }

    pub fn _src_ip_str(&self) -> (r: String)
        requires
            self@.raw.len() >= 30,
        ensures
            r@ == ipv4_text(self@.raw.subrange(26, 30)),
    {
        self._get_ip_str(vstd::slice::slice_subrange(self.raw_packet.as_slice(), 26, 30))
    }

    pub fn _dst_ip_str(&self) -> (r: String)
        requires
            self@.raw.len() >= 34,
        ensures
            r@ == ipv4_text(self@.raw.subrange(30, 34)),
    {
        self._get_ip_str(vstd::slice::slice_subrange(self.raw_packet.as_slice(), 30, 34))
    }

    /// The source IPv4 address at bytes 30 to 34, or 0 for a frame that is not IPv4.
    pub fn src_ip(&self) -> (r: u32)
        requires
            self.wf(),
            has_link_header(self@.raw),
            is_ipv4(self@.raw) ==> self@.raw.len() >= 34,
        ensures
            r == src_ip_of(self@.raw),
    {
        if self.ether_type() == ETHER_IPV4_PROTO {
            be32_from(self.raw_packet.as_slice(), 30)
        } else {
            0
        }
    }

    /// The destination IPv4 address at bytes 34 to 38, or 0 for a frame that is not IPv4.
    pub fn dst_ip(&self) -> (r: u32)
        requires
            self.wf(),
            has_link_header(self@.raw),
            is_ipv4(self@.raw) ==> self@.raw.len() >= 38,
        ensures
            r == dst_ip_of(self@.raw),
    {
        if self.ether_type() == ETHER_IPV4_PROTO {
            be32_from(self.raw_packet.as_slice(), 34)
        } else {
            0
        }
    }

    /// The IP protocol number, or 0 for a frame that is not IPv4.
    pub fn ip_proto(&self) -> (r: u8)
        requires
            self.wf(),
            has_proto_field(self@.raw),
        ensures
            r == ip_proto_of(self@.raw),
    {
        if self.ether_type() == ETHER_IPV4_PROTO {
            self.raw_packet[23 + self.vo]
        } else {
            0
        }
    }

    /// The source port, or 0 unless the protocol is TCP or UDP.
    pub fn sport(&self) -> (r: u16)
        requires
            self.wf(),
            has_proto_field(self@.raw),
            is_tcp_or_udp(self@.raw) ==> self@.raw.len() >= 36 + self@.vo,
        ensures
            r == sport_of(self@.raw),
    {
        let proto = self.ip_proto();
        if proto == IP_UDP_PROTO || proto == IP_TCP_PROTO {
            be16_from(self.raw_packet.as_slice(), 34 + self.vo)
        } else {
            0
        }
    }

    /// The destination port, or 0 unless the protocol is TCP or UDP.
    pub fn dport(&self) -> (r: u16)
        requires
            self.wf(),
            has_proto_field(self@.raw),
            is_tcp_or_udp(self@.raw) ==> self@.raw.len() >= 38 + self@.vo,
        ensures
            r == dport_of(self@.raw),
    {
        let proto = self.ip_proto();
        if proto == IP_UDP_PROTO || proto == IP_TCP_PROTO {
            be16_from(self.raw_packet.as_slice(), 36 + self.vo)
        } else {
            0
        }
    }

    /// The bytes after the headers for TCP and UDP; the whole frame otherwise.
    pub fn _get_payload(&self) -> (r: Vec<u8>)
        requires
            self.wf(),
            has_header_len_fields(self@.raw),
            is_tcp_or_udp(self@.raw) ==> header_len_of(self@.raw, self@.inc_len)
                <= self@.raw.len(),
        ensures
            r@ == payload_of(self@.raw, self@.inc_len),
    {
        let proto = self.ip_proto();
        if proto == IP_TCP_PROTO || proto == IP_UDP_PROTO {
            let start = self._get_header_len() as usize;
            let raw = self.raw_packet.as_slice();
            vstd::slice::slice_to_vec(vstd::slice::slice_subrange(raw, start, raw.len()))
        } else {
            self.raw_packet.clone()
        }
    }

    /// Four times the upper nibble of the byte at [`IP_HDR_LEN_POS`].
    pub fn _get_ip_header_len(&self) -> (r: u8)
        requires
            self@.raw.len() > IP_HDR_LEN_POS,
        ensures
            r == ip_header_len_of(self@.raw),
            r <= 60,
    {
        (self.raw_packet[IP_HDR_LEN_POS] / 16) * 4
    }

    pub fn _get_udp_header_len(&self) -> (r: u8)
        ensures
            r == UDP_HEADER_LEN,
    {
        UDP_HEADER_LEN
    }

    /// Four times the upper nibble of the byte at [`TCP_HDR_LEN_POS`].
    pub fn _get_tcp_header_len(&self) -> (r: u8)
        requires
            self@.raw.len() > TCP_HDR_LEN_POS,
        ensures
            r == tcp_header_len_of(self@.raw),
            r <= 60,
    {
        (self.raw_packet[TCP_HDR_LEN_POS] / 16) * 4
    }

    /// The length of all protocol headers; see [`header_len_of`].
    pub fn _get_header_len(&self) -> (r: u16)
        requires
            self.wf(),
            has_header_len_fields(self@.raw),
        ensures
            r == header_len_of(self@.raw, self@.inc_len),
    {
        let proto = self.ip_proto();
        if proto == IP_TCP_PROTO {
            ETHERNET_HDR_LEN as u16 + self._get_ip_header_len() as u16
                + self._get_tcp_header_len() as u16
        } else if proto == IP_UDP_PROTO {
            ETHERNET_HDR_LEN as u16 + self._get_ip_header_len() as u16 + UDP_HEADER_LEN as u16
        } else {
            self.inc_len as u16
        }
    }

    /// The frame length, cut to 16 bits, less the header length.
    pub fn _get_data_len(&self) -> (r: u16)
        requires
            self.wf(),
            has_header_len_fields(self@.raw),
            header_len_of(self@.raw, self@.inc_len) <= self@.raw.len() as u16,
        ensures
            r == self@.raw.len() as u16 - header_len_of(self@.raw, self@.inc_len),
    {
        self.raw_packet.len() as u16 - self._get_header_len()
    }

    /// The header bytes; the included length becomes the header length.
    pub fn _get_header(&mut self) -> (r: Vec<u8>)
        requires
            old(self).wf(),
            has_header_len_fields(old(self)@.raw),
            header_len_of(old(self)@.raw, old(self)@.inc_len) <= old(self)@.raw.len(),
        ensures
            final(self).wf(),
            final(self)@ == (FrameView {
                inc_len: header_len_of(old(self)@.raw, old(self)@.inc_len) as u32,
                ..old(self)@
            }),
            r@ == old(self)@.raw.subrange(0, header_len_of(old(self)@.raw, old(self)@.inc_len) as int),
    {
        let hdr_len: u32 = self._get_header_len() as u32;
        self.inc_len = hdr_len;
        vstd::slice::slice_to_vec(
            vstd::slice::slice_subrange(self.raw_packet.as_slice(), 0, hdr_len as usize),
        )
    }

    /// The header bytes (see [`PacketRef::_get_header`]) or the whole frame.
    pub fn _get_packet(&mut self, header: bool) -> (r: Vec<u8>)
        requires
            old(self).wf(),
            header ==> has_header_len_fields(old(self)@.raw),
            header ==> header_len_of(old(self)@.raw, old(self)@.inc_len) <= old(self)@.raw.len(),
        ensures
            final(self).wf(),
            header ==> final(self)@ == (FrameView {
                inc_len: header_len_of(old(self)@.raw, old(self)@.inc_len) as u32,
                ..old(self)@
            }),
            !header ==> final(self)@ == old(self)@,
            header ==> r@ == old(self)@.raw.subrange(
                0,
                header_len_of(old(self)@.raw, old(self)@.inc_len) as int,
            ),
            !header ==> r@ == old(self)@.raw,
    {
        if header {
            self._get_header()
        } else {
            self.raw_packet.clone()
        }
    }
}

/// Without a VLAN tag the Ethernet type is the raw type field at offset 12 and
/// the VLAN identifier is 1; with the VLAN tag protocol identifier at offset
/// 12, the Ethernet type is read four bytes further, at 16, and the VLAN
/// identifier is the two bytes at offset 14.
pub proof fn lemma_vlan_shift(raw: Seq<u8>)
    requires
        raw.len() >= ETHERNET_HDR_LEN,
    ensures
        ether_header_of(raw) != ETHER_8021Q ==> ether_type_of(raw) == ether_header_of(raw)
            && vlan_id_of(raw) == 1,
        ether_header_of(raw) == ETHER_8021Q ==> ether_type_of(raw) == be16_at(raw, 16)
            && vlan_id_of(raw) == be16_at(raw, 14),
{
}

/// A frame that is not IPv4 has 0 for its addresses, protocol and ports.
pub proof fn lemma_not_ipv4_zeros(raw: Seq<u8>)
    requires
        !is_ipv4(raw),
    ensures
        src_ip_of(raw) == 0,
        dst_ip_of(raw) == 0,
        ip_proto_of(raw) == 0,
        sport_of(raw) == 0,
        dport_of(raw) == 0,
{
}

/// For an IPv4 frame carrying TCP or UDP, the header length is the Ethernet
/// header length plus the IP header length plus the TCP header length (TCP) or
/// 8 (UDP); and where the included length is the frame's length and covers
/// the headers, the payload is the included length less the header length.
pub proof fn lemma_header_and_payload_len(raw: Seq<u8>, inc_len: u32)
    requires
        is_ipv4(raw),
        ip_proto_of(raw) == IP_TCP_PROTO || ip_proto_of(raw) == IP_UDP_PROTO,
    ensures
        header_len_of(raw, inc_len) == ETHERNET_HDR_LEN + ip_header_len_of(raw) + if ip_proto_of(
            raw,
        ) == IP_TCP_PROTO {
            tcp_header_len_of(raw) as int
        } else {
            UDP_HEADER_LEN as int
        },
        inc_len == raw.len() && header_len_of(raw, inc_len) <= inc_len ==> payload_of(
            raw,
            inc_len,
        ).len() == inc_len - header_len_of(raw, inc_len),
{
}

/// `s` with `v` written big-endian into the two bytes at `i`.
pub open spec fn put16(s: Seq<u8>, i: int, v: u16) -> Seq<u8> {
    s.update(i, (v >> 8) as u8).update(i + 1, v as u8)
}

/// `s` with `v` written big-endian into the four bytes at `i`.
pub open spec fn put32(s: Seq<u8>, i: int, v: u32) -> Seq<u8> {
    put16(put16(s, i, (v >> 16) as u16), i + 2, v as u16)
}

/// `s` with the low 48 bits of `v` written big-endian into the six bytes at `i`.
pub open spec fn put48(s: Seq<u8>, i: int, v: u64) -> Seq<u8> {
    put32(put16(s, i, (v >> 32) as u16), i + 2, v as u32)
}

/// `base` with the addresses, type, protocol and ports written at the offsets
/// the accessors read them from, for a frame without a VLAN tag.
pub open spec fn built_frame(
    base: Seq<u8>,
    dst_mac: u64,
    src_mac: u64,
    ether_type: u16,
    ip_proto: u8,
    src_ip: u32,
    sport: u16,
    dport: u16,
) -> Seq<u8> {
    let s = put48(base, 0, dst_mac);
    let s = put48(s, 6, src_mac);
    let s = put16(s, 12, ether_type);
    let s = s.update(23, ip_proto);
    let s = put32(s, 30, src_ip);
    let s = put16(s, 34, sport);
    put16(s, 36, dport)
}

proof fn lemma_put16(s: Seq<u8>, i: int, v: u16)
    requires
        0 <= i,
        i + 2 <= s.len(),
    ensures
        be16_at(put16(s, i, v), i) == v,
        put16(s, i, v).len() == s.len(),
        forall|j: int| 0 <= j < s.len() && j != i && j != i + 1 ==> #[trigger] put16(s, i, v)[j] == s[j],
{
    let hi = (v >> 8) as u8;
    let lo = v as u8;
    assert(hi as u16 * 0x100 + lo as u16 == v) by (bit_vector)
        requires
            hi == (v >> 8) as u8,
            lo == v as u8,
    ;
}

proof fn lemma_put32(s: Seq<u8>, i: int, v: u32)
    requires
        0 <= i,
        i + 4 <= s.len(),
    ensures
        be32_at(put32(s, i, v), i) == v,
        put32(s, i, v).len() == s.len(),
        forall|j: int| 0 <= j < s.len() && !(i <= j < i + 4) ==> #[trigger] put32(s, i, v)[j] == s[j],
{
    let hi = (v >> 16) as u16;
    let lo = v as u16;
    let s1 = put16(s, i, hi);
    lemma_put16(s, i, hi);
    lemma_put16(s1, i + 2, lo);
    assert(hi as u32 * 0x10000 + lo as u32 == v) by (bit_vector)
        requires
            hi == (v >> 16) as u16,
            lo == v as u16,
    ;
}

proof fn lemma_put48(s: Seq<u8>, i: int, v: u64)
    requires
        0 <= i,
        i + 6 <= s.len(),
        v < 0x1000000000000,
    ensures
        be48_at(put48(s, i, v), i) == v,
        put48(s, i, v).len() == s.len(),
        forall|j: int| 0 <= j < s.len() && !(i <= j < i + 6) ==> #[trigger] put48(s, i, v)[j] == s[j],
{
    let hi = (v >> 32) as u16;
    let lo = v as u32;
    let s1 = put16(s, i, hi);
    lemma_put16(s, i, hi);
    lemma_put32(s1, i + 2, lo);
    assert(hi as u64 * 0x100000000 + lo as u64 == v) by (bit_vector)
        requires
            hi == (v >> 32) as u16,
            lo == v as u32,
            v < 0x1000000000000,
    ;
}

/// Fields written into a buffer at their offsets read back unchanged: both
/// MAC addresses, the type field and the Ethernet type, and the default VLAN
/// identifier; for IPv4 the protocol and source address; for IPv4 TCP or UDP
/// both ports.
pub proof fn lemma_built_frame_reads_back(
    base: Seq<u8>,
    dst_mac: u64,
    src_mac: u64,
    ether_type: u16,
    ip_proto: u8,
    src_ip: u32,
    sport: u16,
    dport: u16,
)
    requires
        base.len() >= 38,
        dst_mac < 0x1000000000000,
        src_mac < 0x1000000000000,
        ether_type != ETHER_8021Q,
    ensures
        ({
            let f = built_frame(base, dst_mac, src_mac, ether_type, ip_proto, src_ip, sport, dport);
            &&& be48_at(f, 0) == dst_mac
            &&& be48_at(f, 6) == src_mac
            &&& ether_header_of(f) == ether_type
            &&& ether_type_of(f) == ether_type
            &&& vlan_id_of(f) == 1
            &&& ether_type == ETHER_IPV4_PROTO ==> ip_proto_of(f) == ip_proto && src_ip_of(f)
                == src_ip
            &&& ether_type == ETHER_IPV4_PROTO && (ip_proto == IP_TCP_PROTO || ip_proto
                == IP_UDP_PROTO) ==> sport_of(f) == sport && dport_of(f) == dport
        }),
{
    let s1 = put48(base, 0, dst_mac);
    lemma_put48(base, 0, dst_mac);
    let s2 = put48(s1, 6, src_mac);
    lemma_put48(s1, 6, src_mac);
    let s3 = put16(s2, 12, ether_type);
    lemma_put16(s2, 12, ether_type);
    let s4 = s3.update(23, ip_proto);
    let s5 = put32(s4, 30, src_ip);
    lemma_put32(s4, 30, src_ip);
    let s6 = put16(s5, 34, sport);
    lemma_put16(s5, 34, sport);
    let f = put16(s6, 36, dport);
    lemma_put16(s6, 36, dport);
    assert(f == built_frame(base, dst_mac, src_mac, ether_type, ip_proto, src_ip, sport, dport));
    assert forall|j: int| 0 <= j < 12 implies #[trigger] f[j] == s2[j] by {
        assert(s6[j] == s2[j]);
    }
    assert(be48_at(f, 0) == be48_at(s2, 0) && be48_at(s2, 0) == be48_at(s1, 0));
    assert(f[12] == s3[12] && f[13] == s3[13]);
    assert(f[23] == ip_proto);
    assert(f[30] == s5[30] && f[31] == s5[31] && f[32] == s5[32] && f[33] == s5[33]);
    assert(f[34] == s6[34] && f[35] == s6[35]);
}

} // verus!
