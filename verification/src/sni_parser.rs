//! Server Name Indication from TLS ClientHello packets, and the per-flow
//! budget of packets that are inspected for it.

use vstd::prelude::*;
use vstd::hash_map::StringHashMap;
use vstd::slice::slice_subrange;

use crate::text::{decode_lossy, utf8_lossy};

verus! {

/// TLS record type of a handshake.
pub const TLS_RECORD_TYPE_HANDSHAKE: u8 = 0x16;

/// Handshake type of a ClientHello.
pub const HANDSHAKE_TYPE_CLIENT_HELLO: u8 = 0x01;

/// Extension type of `server_name`.
pub const EXTENSION_TYPE_SNI: u16 = 0x0000;

/// Offset of the session id length in a TLS record holding a ClientHello:
/// after the record header, the handshake header, the version and the random.
pub const SESSION_ID_AT: usize = 43;

/// How many packets of one flow are inspected.
pub const MAX_PARSED_PACKETS: u8 = 10;

/// Big-endian 16-bit value at `b[i..i + 2]`.
pub open spec fn be16(b: Seq<u8>, i: int) -> int {
    b[i] * 256 + b[i + 1]
}

/// TCP header length that a packet states: the data offset, the high nibble
/// of TCP byte 12, in 32-bit words; the TCP header starts after a 14-byte
/// Ethernet and a 20-byte IPv4 header.
pub open spec fn tcp_header_len(packet: Seq<u8>) -> int {
    (packet[46] / 16) * 4
}

/// Where the TCP payload starts in the packet.
pub open spec fn payload_start(packet: Seq<u8>) -> int {
    34 + tcp_header_len(packet)
}

/// The stated TCP header fits in the packet whenever extraction gets as far as
/// reading the payload (on other packets the payload slice would be out of range).
pub open spec fn payload_in_bounds(packet: Seq<u8>) -> bool {
    packet.len() >= 54 && tcp_header_len(packet) >= 20 ==> payload_start(packet) <= packet.len()
}

/// Walks the extension list of `p` from `off` up to `end` and gives the
/// position and length of the name in the first entry of the first
/// `server_name` extension (RFC 6066: list length, then name type, name
/// length and name).
pub open spec fn sni_in_extensions(p: Seq<u8>, off: int, end: int) -> Option<(int, int)>
    decreases end - off,
{
    if off < 0 || off + 4 > end {
        None
    } else if be16(p, off) == EXTENSION_TYPE_SNI {
        let list_start = off + 4;
        let name_start = list_start + 2;
        let data_start = name_start + 3;
        if list_start + 2 > end || name_start + 3 > end {
            None
        } else if data_start + be16(p, name_start + 1) > end {
            None
        } else {
            Some((data_start, be16(p, name_start + 1)))
        }
    } else if off + 4 + be16(p, off + 2) > end {
        None
    } else {
        sni_in_extensions(p, off + 4 + be16(p, off + 2), end)
    }
}

/// Position and length of the server name in a TLS payload `p` that starts
/// with a handshake record holding a ClientHello (RFC 5246): the record header
/// (5 bytes), the handshake header (4 bytes), the client version (2 bytes) and
/// random (32 bytes), then the session id, the cipher suites, the compression
/// methods and the extensions, each behind its length.
pub open spec fn sni_in_payload(p: Seq<u8>) -> Option<(int, int)> {
    if p.len() < SESSION_ID_AT + 1 || p[0] != TLS_RECORD_TYPE_HANDSHAKE || be16(p, 1) < 0x0301
        || p[5] != HANDSHAKE_TYPE_CLIENT_HELLO {
        None
    } else {
        let session_id_end = SESSION_ID_AT + 1 + p[SESSION_ID_AT as int];
        if session_id_end + 2 > p.len() {
            None
        } else {
            let cipher_suites_end = session_id_end + 2 + be16(p, session_id_end);
            if cipher_suites_end + 1 > p.len() {
                None
            } else {
                let compression_end = cipher_suites_end + 1 + p[cipher_suites_end];
                if compression_end + 2 > p.len() {
                    None
                } else {
                    let extensions_len = be16(p, compression_end);
                    let extensions_start = compression_end + 2;
                    let extensions_end = if extensions_start + extensions_len <= p.len() {
                        extensions_start + extensions_len
                    } else {
                        p.len() as int
                    };
                    if extensions_len == 0 {
                        None
                    } else {
                        sni_in_extensions(p, extensions_start, extensions_end)
                    }
                }
            }
        }
    }
}

/// Position (in the whole packet) and length of the server name that a packet
/// of Ethernet, a 20-byte IPv4 header, TCP and TLS carries.
pub open spec fn sni_location(packet: Seq<u8>) -> Option<(int, int)> {
    if packet.len() < 54 || tcp_header_len(packet) < 20 {
        None
    } else {
        match sni_in_payload(packet.subrange(payload_start(packet), packet.len() as int)) {
            Some((start, len)) => Some((payload_start(packet) + start, len)),
            None => None,
        }
    }
}

/// The server name that `extract_sni` gives for a packet.
pub open spec fn sni_of(packet: Seq<u8>) -> Option<Seq<char>> {
    match sni_location(packet) {
        Some((start, len)) => Some(utf8_lossy(packet.subrange(start, start + len))),
        None => None,
    }
}

/// Whether the quick ClientHello check accepts a packet: at least 50 bytes,
/// TCP destination port 443 (bytes 36-37, after Ethernet and a 20-byte IPv4
/// header), and a TLS handshake record type as the first byte of the TCP
/// payload, located by the IPv4 header length and the TCP data offset.
pub open spec fn looks_like_client_hello(packet: Seq<u8>) -> bool {
    if packet.len() < 50 || be16(packet, 36) != 443 {
        false
    } else {
        let tcp_start = 14 + (packet[14] % 16) * 4;
        if packet.len() <= tcp_start + 12 {
            false
        } else {
            let record_type_at = tcp_start + (packet[tcp_start + 12] / 16) * 4;
            packet.len() > record_type_at && packet[record_type_at] == TLS_RECORD_TYPE_HANDSHAKE
        }
    }
}

/// The two bytes of `n` in network order.
pub open spec fn u16_bytes(n: int) -> Seq<u8> {
    seq![(n / 256) as u8, (n % 256) as u8]
}

/// A TLS 1.0 record holding a ClientHello (RFC 5246) with client random
/// `random`, no session id, one cipher suite, one compression method and one
/// extension, `server_name` (RFC 6066), naming the host `name`.
pub open spec fn client_hello(random: Seq<u8>, name: Seq<u8>) -> Seq<u8> {
    let n = name.len() as int;
    let extensions = seq![0x00u8, 0x00u8] + u16_bytes(5 + n) + u16_bytes(3 + n) + seq![0x00u8]
        + u16_bytes(n) + name;
    let body = seq![0x03u8, 0x03u8] + random + seq![0x00u8, 0x00u8, 0x02u8, 0x13u8, 0x01u8, 0x01u8, 0x00u8]
        + u16_bytes(9 + n) + extensions;
    seq![0x16u8, 0x03u8, 0x01u8] + u16_bytes(4 + 43 + 9 + n) + seq![0x01u8, 0x00u8] + u16_bytes(
        43 + 9 + n,
    ) + body
}

proof fn lemma_u16_bytes(n: int)
    requires
        0 <= n < 0x10000,
    ensures
        u16_bytes(n).len() == 2,
        be16(u16_bytes(n), 0) == n,
{
    assert((n / 256) as u8 == n / 256);
    assert((n % 256) as u8 == n % 256);
}

proof fn lemma_client_hello(random: Seq<u8>, name: Seq<u8>)
    requires
        random.len() == 32,
        name.len() < 0x1000,
    ensures
        client_hello(random, name).len() == 61 + name.len(),
        sni_in_payload(client_hello(random, name)) == Some((61int, name.len() as int)),
        client_hello(random, name).subrange(61, 61 + name.len() as int) == name,
{
    let n = name.len() as int;
    let p = client_hello(random, name);
    lemma_u16_bytes(5 + n);
    lemma_u16_bytes(3 + n);
    lemma_u16_bytes(n);
    lemma_u16_bytes(9 + n);
    lemma_u16_bytes(56 + n);
    lemma_u16_bytes(52 + n);
    assert(p.len() == 61 + n);
    assert(p[0] == 0x16u8 && p[1] == 0x03u8 && p[2] == 0x01u8 && p[5] == 0x01u8);
    assert(be16(p, 1) == 0x0301);
    assert(p[43] == 0u8);
    assert(p[44] == 0u8 && p[45] == 2u8);
    assert(be16(p, 44) == 2);
    assert(p[48] == 1u8);
    assert(p[50] == u16_bytes(9 + n)[0] && p[51] == u16_bytes(9 + n)[1]);
    assert(be16(p, 50) == 9 + n);
    assert(p[52] == 0u8 && p[53] == 0u8);
    assert(be16(p, 52) == 0);
    assert(p[59] == u16_bytes(n)[0] && p[60] == u16_bytes(n)[1]);
    assert(be16(p, 59) == n);
    assert(sni_in_extensions(p, 52, 61 + n) == Some((61int, n)));
    assert(p.subrange(61, 61 + n) =~= name);
}

/// Where the TLS record starts follows the TCP header that the packet states:
/// after an Ethernet header, a 20-byte IPv4 header and a TCP header of any
/// length `d` from 20 to 60 bytes whose data offset says `d`, the server name
/// is found in the TLS record that follows, at the same place in that record,
/// so TCP options never change the name that is found.
pub proof fn law_sni_follows_tcp_header(eth: Seq<u8>, ip: Seq<u8>, tcp: Seq<u8>, record: Seq<u8>)
    requires
        eth.len() == 14,
        ip.len() == 20,
        20 <= tcp.len() <= 60,
        (tcp[12] / 16) * 4 == tcp.len(),
    ensures
        ({
            let p = eth + ip + tcp + record;
            &&& payload_in_bounds(p)
            &&& sni_location(p) == match sni_in_payload(record) {
                Some((s, n)) => Some((34 + tcp.len() + s, n)),
                None => None,
            }
            &&& sni_of(p) == match sni_in_payload(record) {
                Some((s, n)) => Some(utf8_lossy(record.subrange(s, s + n))),
                None => None,
            }
        }),
{
    let p = eth + ip + tcp + record;
    let d = tcp.len() as int;
    assert(p[46] == tcp[12]);
    assert(tcp_header_len(p) == d);
    assert(p.subrange(34 + d, p.len() as int) =~= record);
    if p.len() < 54 {
        assert(record.len() + d < 20);
    }
    match sni_in_payload(record) {
        Some((s, n)) => {
            lemma_sni_in_payload_bounds(record);
            assert(p.subrange(34 + d + s, 34 + d + s + n) =~= record.subrange(s, s + n));
        },
        None => {},
    }
}

/// A ClientHello naming `name` is recognised behind any TCP header: after an
/// Ethernet header, a 20-byte IPv4 header and a TCP header of any length from
/// 20 to 60 bytes whose data offset states that length, a TLS record holding
/// a ClientHello with host name `name` gives `name` (decoded as UTF-8), with
/// any client random.
pub proof fn law_client_hello_name_is_found(
    eth: Seq<u8>,
    ip: Seq<u8>,
    tcp: Seq<u8>,
    random: Seq<u8>,
    name: Seq<u8>,
)
    requires
        eth.len() == 14,
        ip.len() == 20,
        20 <= tcp.len() <= 60,
        (tcp[12] / 16) * 4 == tcp.len(),
        random.len() == 32,
        name.len() < 0x1000,
    ensures
        payload_in_bounds(eth + ip + tcp + client_hello(random, name)),
        sni_location(eth + ip + tcp + client_hello(random, name)) == Some(
            (34 + tcp.len() as int + 61, name.len() as int),
        ),
        sni_of(eth + ip + tcp + client_hello(random, name)) == Some(utf8_lossy(name)),
{
    lemma_client_hello(random, name);
    law_sni_follows_tcp_header(eth, ip, tcp, client_hello(random, name));
}

proof fn lemma_sni_in_payload_bounds(p: Seq<u8>)
    ensures
        sni_in_payload(p) matches Some((s, n)) ==> 0 <= s && 0 <= n && s + n <= p.len(),
{
    if let Some((s, n)) = sni_in_payload(p) {
        let session_id_end = SESSION_ID_AT + 1 + p[SESSION_ID_AT as int];
        let cipher_suites_end = session_id_end + 2 + be16(p, session_id_end);
        let compression_end = cipher_suites_end + 1 + p[cipher_suites_end];
        let extensions_len = be16(p, compression_end);
        let extensions_start = compression_end + 2;
        let extensions_end = if extensions_start + extensions_len <= p.len() {
            extensions_start + extensions_len
        } else {
            p.len() as int
        };
        lemma_extensions_bounds(p, extensions_start, extensions_end);
    }
}

proof fn lemma_extensions_bounds(p: Seq<u8>, off: int, end: int)
    ensures
        sni_in_extensions(p, off, end) matches Some((s, n)) ==> off <= s && 0 <= n && s + n <= end,
    decreases end - off,
{
    if off >= 0 && off + 4 <= end && be16(p, off) != EXTENSION_TYPE_SNI && off + 4 + be16(p, off + 2) <= end {
        lemma_extensions_bounds(p, off + 4 + be16(p, off + 2), end);
    }
}

/// How many of `ids` are `id`.
pub open spec fn occurrences(ids: Seq<Seq<char>>, id: Seq<char>) -> nat
    decreases ids.len(),
{
    if ids.len() == 0 {
        0
    } else {
        occurrences(ids.drop_last(), id) + if ids.last() == id {
            1nat
        } else {
            0nat
        }
    }
}

/// A packet count, which stops at `MAX_PARSED_PACKETS`.
pub open spec fn capped(n: nat) -> nat {
    if n < MAX_PARSED_PACKETS {
        n
    } else {
        MAX_PARSED_PACKETS as nat
    }
}

/// The big-endian 16-bit value at `b[i..i + 2]`.
pub(crate) fn read_be16(b: &[u8], i: usize) -> (r: u16)
    requires
        i + 1 < b@.len(),
    ensures
        r == be16(b@, i as int),
{
    (b[i] as u16) * 256 + (b[i + 1] as u16)
}

fn find_sni_extension(p: &[u8], start: usize, end: usize) -> (r: Option<(usize, usize)>)
    requires
        start <= end <= p@.len(),
    ensures
        match sni_in_extensions(p@, start as int, end as int) {
            Some((s, n)) => r matches Some((a, b)) && a == s && b == n,
            None => r is None,
        },
        r matches Some((s, n)) ==> s + n <= end,
{
    let mut offset = start;
    while offset <= end && end - offset >= 4
        invariant
            start <= end <= p@.len(),
            sni_in_extensions(p@, offset as int, end as int) == sni_in_extensions(
                p@,
                start as int,
                end as int,
            ),
        decreases end - offset,
    {
        let ext_type = read_be16(p, offset);
        let ext_len = read_be16(p, offset + 2) as usize;
        if ext_type == EXTENSION_TYPE_SNI {
            let list_start = offset + 4;
            if end - list_start < 2 {
                return None;
            }
            let name_start = list_start + 2;
            if end - name_start < 3 {
                return None;
            }
            let name_len = read_be16(p, name_start + 1) as usize;
            let data_start = name_start + 3;
            if name_len > end - data_start {
                return None;
            }
            return Some((data_start, name_len));
        }
        if ext_len + 4 > end - offset {
            return None;
        }
        offset = offset + 4 + ext_len;
    }
    None
}

fn find_sni_in_payload(p: &[u8]) -> (r: Option<(usize, usize)>)
    ensures
        match sni_in_payload(p@) {
            Some((s, n)) => r matches Some((a, b)) && a == s && b == n,
            None => r is None,
        },
        r matches Some((s, n)) ==> s + n <= p@.len(),
{
    let len = p.len();
    if len < SESSION_ID_AT + 1 {
        return None;
    }
    if p[0] != TLS_RECORD_TYPE_HANDSHAKE {
        return None;
    }
    if read_be16(p, 1) < 0x0301 {
        return None;
    }
    if p[5] != HANDSHAKE_TYPE_CLIENT_HELLO {
        return None;
    }
    let session_id_end = SESSION_ID_AT + 1 + p[SESSION_ID_AT] as usize;
    if session_id_end + 2 > len {
        return None;
    }
    let cipher_suites_end = session_id_end + 2 + read_be16(p, session_id_end) as usize;
    if cipher_suites_end + 1 > len {
        return None;
    }
    let compression_end = cipher_suites_end + 1 + p[cipher_suites_end] as usize;
    if compression_end + 2 > len {
        return None;
    }
    let extensions_len = read_be16(p, compression_end) as usize;
    let extensions_start = compression_end + 2;
    if extensions_len == 0 {
        return None;
    }
    let extensions_end = if extensions_start + extensions_len <= len {
        extensions_start + extensions_len
    } else {
        len
    };
    find_sni_extension(p, extensions_start, extensions_end)
}

/// Where the server name lies in a packet: its start and its length in bytes.
pub fn locate_sni(packet: &[u8]) -> (r: Option<(usize, usize)>)
    requires
        payload_in_bounds(packet@),
    ensures
        match sni_location(packet@) {
            Some((s, n)) => r matches Some((a, b)) && a == s && b == n,
            None => r is None,
        },
        r matches Some((s, n)) ==> s + n <= packet@.len(),
{
    if packet.len() < 54 {
        return None;
    }
    let b = packet[46];
    assert(b >> 4 == b / 16) by (bit_vector);
    let header_len = ((b >> 4) * 4) as usize;
    if header_len < 20 {
        return None;
    }
    let start = 34 + header_len;
    let payload = slice_subrange(packet, start, packet.len());
    match find_sni_in_payload(payload) {
        Some((s, n)) => Some((start + s, n)),
        None => None,
    }
}

/// Whether the TCP header that a packet states fits in it (see `payload_in_bounds`).
pub fn payload_fits(packet: &[u8]) -> (r: bool)
    ensures
        r == payload_in_bounds(packet@),
{
    if packet.len() < 54 {
        return true;
    }
    let b = packet[46];
    assert(b >> 4 == b / 16) by (bit_vector);
    let header_len = ((b >> 4) * 4) as usize;
    header_len < 20 || 34 + header_len <= packet.len()
}

/// Packet counts per flow, used to inspect only the first packets of each flow.
pub struct SniParser {
    packet_counts: StringHashMap<u8>,
}

impl SniParser {
    /// How many packets of the flow `flow_id` were counted.
    pub closed spec fn count_of(&self, flow_id: Seq<char>) -> nat {
        if self.packet_counts@.contains_key(flow_id) {
            self.packet_counts@[flow_id] as nat
        } else {
            0
        }
    }

    /// The flows that have been seen since creation or the last reset.
    pub closed spec fn seen(&self) -> Set<Seq<char>> {
        self.packet_counts@.dom()
    }

    /// A parser that has seen no flow.
    pub fn new() -> (r: Self)
        ensures
            r.seen() == Set::<Seq<char>>::empty(),
            forall|id: Seq<char>| r.count_of(id) == 0,
    {
        SniParser { packet_counts: StringHashMap::new() }
    }

    /// What one call of `should_parse` for `flow_id` does: it answers whether
    /// fewer than `MAX_PARSED_PACKETS` packets of the flow were counted, counts
    /// the packet if so, marks the flow as seen and leaves other flows alone.
    pub open spec fn parse_step(
        before: SniParser,
        flow_id: Seq<char>,
        answer: bool,
        after: SniParser,
    ) -> bool {
        &&& answer == (before.count_of(flow_id) < MAX_PARSED_PACKETS)
        &&& after.count_of(flow_id) == if answer {
            before.count_of(flow_id) + 1
        } else {
            before.count_of(flow_id)
        }
        &&& forall|id: Seq<char>| id != flow_id ==> after.count_of(id) == before.count_of(id)
        &&& after.seen() == before.seen().insert(flow_id)
    }

    /// Whether to inspect a packet of flow `flow_id`: true for the first
    /// `MAX_PARSED_PACKETS` packets of the flow, each of which is counted.
    pub fn should_parse(&mut self, flow_id: &str) -> (r: bool)
        ensures
            Self::parse_step(*old(self), flow_id@, r, *final(self)),
    {
        let count: u8 = match self.packet_counts.get(flow_id) {
            Some(c) => *c,
            None => 0,
        };
        if count < MAX_PARSED_PACKETS {
            self.packet_counts.insert(flow_id.to_owned(), count + 1);
            true
        } else {
            self.packet_counts.insert(flow_id.to_owned(), count);
            false
        }
    }

    /// Only the first `MAX_PARSED_PACKETS` packets of a flow are inspected:
    /// along any run of `should_parse` calls for one flow that starts with the
    /// flow uncounted (a new parser, or after `reset`), the call at position
    /// `i` answers true exactly when `i < MAX_PARSED_PACKETS`, and the count
    /// never exceeds that bound.
    pub proof fn law_first_packets_only(
        states: Seq<SniParser>,
        answers: Seq<bool>,
        flow_id: Seq<char>,
    )
        requires
            states.len() == answers.len() + 1,
            states[0].count_of(flow_id) == 0,
            forall|i: int|
                0 <= i < answers.len() ==> #[trigger] Self::parse_step(
                    states[i],
                    flow_id,
                    answers[i],
                    states[i + 1],
                ),
        ensures
            forall|i: int| 0 <= i < answers.len() ==> answers[i] == (i < MAX_PARSED_PACKETS),
            forall|i: int|
                0 <= i < states.len() ==> states[i].count_of(flow_id) == if i
                    < MAX_PARSED_PACKETS {
                    i as nat
                } else {
                    MAX_PARSED_PACKETS as nat
                },
        decreases answers.len(),
    {
        if answers.len() > 0 {
            let n = answers.len() - 1;
            let earlier_states = states.drop_last();
            let earlier_answers = answers.drop_last();
            assert forall|i: int| 0 <= i < earlier_answers.len() implies #[trigger] Self::parse_step(
                earlier_states[i],
                flow_id,
                earlier_answers[i],
                earlier_states[i + 1],
            ) by {
                assert(Self::parse_step(states[i], flow_id, answers[i], states[i + 1]));
            }
            Self::law_first_packets_only(earlier_states, earlier_answers, flow_id);
            assert(Self::parse_step(states[n], flow_id, answers[n], states[n + 1]));
            assert(earlier_states[n] == states[n]);
            assert forall|i: int| 0 <= i < answers.len() implies answers[i] == (i
                < MAX_PARSED_PACKETS) by {
                if i < n {
                    assert(earlier_answers[i] == answers[i]);
                }
            }
            assert forall|i: int| 0 <= i < states.len() implies states[i].count_of(flow_id) == if i
                < MAX_PARSED_PACKETS {
                i as nat
            } else {
                MAX_PARSED_PACKETS as nat
            } by {
                if i <= n {
                    assert(earlier_states[i] == states[i]);
                }
            }
        }
    }

    /// The budget is kept per flow, whatever the order of calls: along any run
    /// of `should_parse` calls, for any flows, that starts from a parser with
    /// no flow counted (a new parser, or after `reset`), a call for a flow
    /// answers true exactly when fewer than `MAX_PARSED_PACKETS` earlier calls
    /// were for that flow.
    pub proof fn law_budget_per_flow(
        states: Seq<SniParser>,
        ids: Seq<Seq<char>>,
        answers: Seq<bool>,
    )
        requires
            states.len() == ids.len() + 1,
            answers.len() == ids.len(),
            forall|id: Seq<char>| #[trigger] states[0].count_of(id) == 0,
            forall|i: int|
                0 <= i < ids.len() ==> #[trigger] Self::parse_step(
                    states[i],
                    ids[i],
                    answers[i],
                    states[i + 1],
                ),
        ensures
            forall|i: int|
                0 <= i < ids.len() ==> answers[i] == (occurrences(ids.take(i), #[trigger] ids[i])
                    < MAX_PARSED_PACKETS),
            forall|i: int, id: Seq<char>|
                0 <= i <= ids.len() ==> #[trigger] states[i].count_of(id) == capped(
                    occurrences(ids.take(i), id),
                ),
        decreases ids.len(),
    {
        if ids.len() == 0 {
            assert forall|i: int, id: Seq<char>|
                0 <= i <= ids.len() implies #[trigger] states[i].count_of(id) == capped(
                occurrences(ids.take(i), id),
            ) by {
                assert(ids.take(0) =~= Seq::<Seq<char>>::empty());
            }
        } else {
            let n = ids.len() - 1;
            let s0 = states.drop_last();
            let i0 = ids.drop_last();
            let a0 = answers.drop_last();
            assert forall|i: int| 0 <= i < i0.len() implies #[trigger] Self::parse_step(
                s0[i],
                i0[i],
                a0[i],
                s0[i + 1],
            ) by {
                assert(Self::parse_step(states[i], ids[i], answers[i], states[i + 1]));
            }
            assert(s0[0] == states[0]);
            Self::law_budget_per_flow(s0, i0, a0);
            assert forall|i: int| 0 <= i <= n implies #[trigger] i0.take(i) == ids.take(i) by {
                assert(i0.take(i) =~= ids.take(i));
            }
            assert forall|x: Seq<char>| #[trigger] states[n].count_of(x) == capped(
                occurrences(ids.take(n), x),
            ) by {
                assert(s0[n].count_of(x) == capped(occurrences(i0.take(n), x)));
            }
            assert(ids.take(n).push(ids[n]) =~= ids.take(n + 1));
            Self::lemma_budget_step(states[n], ids[n], answers[n], states[n + 1], ids.take(n));
            assert forall|i: int|
                0 <= i < ids.len() implies answers[i] == (occurrences(ids.take(i), #[trigger] ids[i])
                < MAX_PARSED_PACKETS) by {
                if i < n {
                    assert(a0[i] == answers[i] && i0[i] == ids[i] && i0.take(i) == ids.take(i));
                }
            }
            assert forall|i: int, id: Seq<char>|
                0 <= i <= ids.len() implies #[trigger] states[i].count_of(id) == capped(
                occurrences(ids.take(i), id),
            ) by {
                if i <= n {
                    assert(s0[i] == states[i] && i0.take(i) == ids.take(i));
                    assert(s0[i].count_of(id) == capped(occurrences(i0.take(i), id)));
                }
            }
        }
    }

    proof fn lemma_budget_step(
        before: SniParser,
        id: Seq<char>,
        answer: bool,
        after: SniParser,
        ids: Seq<Seq<char>>,
    )
        requires
            Self::parse_step(before, id, answer, after),
            forall|x: Seq<char>| #[trigger] before.count_of(x) == capped(occurrences(ids, x)),
        ensures
            answer == (occurrences(ids, id) < MAX_PARSED_PACKETS),
            forall|x: Seq<char>| #[trigger] after.count_of(x) == capped(
                occurrences(ids.push(id), x),
            ),
    {
        assert(ids.push(id).drop_last() =~= ids);
        assert(before.count_of(id) == capped(occurrences(ids, id)));
        assert forall|x: Seq<char>| #[trigger] after.count_of(x) == capped(
            occurrences(ids.push(id), x),
        ) by {
            assert(before.count_of(x) == capped(occurrences(ids, x)));
        }
    }

    /// Forgets every flow.
    pub fn reset(&mut self)
        ensures
            final(self).seen() == Set::<Seq<char>>::empty(),
            forall|id: Seq<char>| final(self).count_of(id) == 0,
    {
        self.packet_counts.clear();
    }

    /// The server name in a TLS ClientHello packet, decoded as UTF-8 with
    /// invalid sequences replaced.
    pub fn extract_sni(&self, packet: &[u8]) -> (r: Option<String>)
        requires
            payload_in_bounds(packet@),
        ensures
            match sni_of(packet@) {
                Some(name) => r is Some && r->0@ == name,
                None => r is None,
            },
    {
        let total = packet.len();
        match locate_sni(packet) {
            Some((start, len)) => {
                assert(start + len <= total);
                let bytes = slice_subrange(packet, start, start + len);
                Some(decode_lossy(bytes))
            },
            None => None,
        }
    }

    /// Quick test whether a packet may be a TLS ClientHello to port 443.
    pub fn is_tls_client_hello(&self, packet: &[u8]) -> (r: bool)
        ensures
            r == looks_like_client_hello(packet@),
    {
        if packet.len() < 50 {
            return false;
        }
        let dst_port = read_be16(packet, 36);
        if dst_port != 443 {
            return false;
        }
        let b = packet[14];
        assert(b & 0x0F == b % 16) by (bit_vector);
        let tcp_start = 14 + ((b & 0x0F) * 4) as usize;
        if packet.len() <= tcp_start + 12 {
            return false;
        }
        let offset_byte = packet[tcp_start + 12];
        assert(offset_byte >> 4 == offset_byte / 16) by (bit_vector);
        let record_type_at = tcp_start + ((offset_byte >> 4) * 4) as usize;
        if packet.len() <= record_type_at {
            return false;
        }
        packet[record_type_at] == TLS_RECORD_TYPE_HANDSHAKE
    }
}

impl Default for SniParser {
    fn default() -> (r: Self)
        ensures
            r.seen() == Set::<Seq<char>>::empty(),
            forall|id: Seq<char>| r.count_of(id) == 0,
    {
        Self::new()
    }
}

} // verus!
