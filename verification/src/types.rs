//! The records that flow through the monitor: flow identities, per-flow
//! counters and per-day history entries.

use vstd::prelude::*;
use vstd::std_specs::cmp::PartialEqSpecImpl;

use crate::config::{all_digits, digits_value, is_digit};
use crate::text::{decimal, digit_of, push_char, push_decimal};

verus! {

/// TCP protocol number, the default protocol of a flow key.
pub const PROTO_TCP: u8 = 6;

/// Identity of a flow: IPv4 addresses, ports and protocol.
#[derive(Debug, Clone, Copy, Hash, PartialEq, Eq, Structural)]
pub struct FlowKey {
    pub src_ip: u32,
    pub dst_ip: u32,
    pub dst_port: u16,
    pub src_port: u16,
    pub proto: u8,
}

/// Dotted-quad rendering of an IPv4 address held most significant byte first.
pub open spec fn dotted_quad(ip: u32) -> Seq<char> {
    decimal((ip / 0x1000000) as nat) + seq!['.'] + decimal(((ip / 0x10000) % 256) as nat) + seq![
        '.',
    ] + decimal(((ip / 0x100) % 256) as nat) + seq!['.'] + decimal((ip % 256) as nat)
}

/// `src:sport->dst:dport`, the text that identifies a flow.
pub open spec fn flow_label(key: FlowKey) -> Seq<char> {
    dotted_quad(key.src_ip) + seq![':'] + decimal(key.src_port as nat) + seq!['-', '>']
        + dotted_quad(key.dst_ip) + seq![':'] + decimal(key.dst_port as nat)
}

fn push_dotted_quad(s: &mut String, ip: u32)
    ensures
        final(s)@ == old(s)@ + dotted_quad(ip),
{
    let a = (ip >> 24) as u8;
    let b = (ip >> 16) as u8;
    let c = (ip >> 8) as u8;
    let d = ip as u8;
    assert(a == ip / 0x1000000 && b == (ip / 0x10000) % 256 && c == (ip / 0x100) % 256 && d == ip
        % 256) by (bit_vector)
        requires
            a == (ip >> 24) as u8,
            b == (ip >> 16) as u8,
            c == (ip >> 8) as u8,
            d == ip as u8,
    ;
    let ghost s0 = s@;
    push_decimal(s, a as u64);
    push_char(s, '.');
    push_decimal(s, b as u64);
    push_char(s, '.');
    push_decimal(s, c as u64);
    push_char(s, '.');
    push_decimal(s, d as u64);
    assert(s@ =~= s0 + dotted_quad(ip));
}

impl FlowKey {
    /// A key from its parts.
    pub fn new(src_ip: u32, dst_ip: u32, src_port: u16, dst_port: u16, proto: u8) -> (r: Self)
        ensures
            r == (FlowKey { src_ip, dst_ip, dst_port, src_port, proto }),
    {
        Self { src_ip, dst_ip, dst_port, src_port, proto }
    }

    /// The source address in dotted-quad form.
    pub fn src_ip_str(&self) -> (r: String)
        ensures
            r@ == dotted_quad(self.src_ip),
    {
        let mut s = String::new();
        push_dotted_quad(&mut s, self.src_ip);
        s
    }

    /// The destination address in dotted-quad form.
    pub fn dst_ip_str(&self) -> (r: String)
        ensures
            r@ == dotted_quad(self.dst_ip),
    {
        let mut s = String::new();
        push_dotted_quad(&mut s, self.dst_ip);
        s
    }

    /// `src:sport->dst:dport`, the identifier under which packets of the flow are counted.
    pub fn flow_id(&self) -> (r: String)
        ensures
            r@ == flow_label(*self),
    {
        let mut s = String::new();
        push_dotted_quad(&mut s, self.src_ip);
        push_char(&mut s, ':');
        push_decimal(&mut s, self.src_port as u64);
        push_char(&mut s, '-');
        push_char(&mut s, '>');
        push_dotted_quad(&mut s, self.dst_ip);
        push_char(&mut s, ':');
        push_decimal(&mut s, self.dst_port as u64);
        assert(s@ =~= flow_label(*self));
        s
    }
}

impl Default for FlowKey {
    fn default() -> (r: Self)
        ensures
            r == (FlowKey { src_ip: 0, dst_ip: 0, dst_port: 0, src_port: 0, proto: PROTO_TCP }),
    {
        Self { src_ip: 0, dst_ip: 0, dst_port: 0, src_port: 0, proto: PROTO_TCP }
    }
}

proof fn lemma_regroup7(
    x1: Seq<char>,
    x2: Seq<char>,
    x3: Seq<char>,
    x4: Seq<char>,
    x5: Seq<char>,
    x6: Seq<char>,
    x7: Seq<char>,
)
    ensures
        x1 + x2 + x3 + x4 + x5 + x6 + x7 == x1 + (x2 + (x3 + (x4 + (x5 + (x6 + x7))))),
{
    assert(x1 + x2 + x3 + x4 + x5 + x6 + x7 =~= x1 + (x2 + (x3 + (x4 + (x5 + (x6 + x7))))));
}

proof fn lemma_regroup8(
    x1: Seq<char>,
    x2: Seq<char>,
    x3: Seq<char>,
    x4: Seq<char>,
    x5: Seq<char>,
    x6: Seq<char>,
    x7: Seq<char>,
    x8: Seq<char>,
)
    ensures
        x1 + x2 + x3 + x4 + x5 + x6 + x7 + x8 == x1 + (x2 + (x3 + (x4 + (x5 + (x6 + (x7
            + x8)))))),
{
    assert(x1 + x2 + x3 + x4 + x5 + x6 + x7 + x8 =~= x1 + (x2 + (x3 + (x4 + (x5 + (x6 + (x7
        + x8)))))));
}

proof fn lemma_decimal_digits(n: nat)
    ensures
        decimal(n).len() > 0,
        all_digits(decimal(n)),
        digits_value(decimal(n)) == n,
    decreases n,
{
    if n < 10 {
        assert(decimal(n) =~= seq![digit_of(n)]);
        assert(decimal(n).drop_last() =~= Seq::<char>::empty());
        assert(digit_of(n) as int == 48 + n);
        assert('0' as int == 48);
        assert(decimal(n).last() == digit_of(n));
        assert(digits_value(Seq::<char>::empty()) == 0);
    } else {
        lemma_decimal_digits(n / 10);
        assert(digit_of(n % 10) as int == 48 + n % 10);
        assert('0' as int == 48);
        let d = decimal(n);
        assert(d.last() == digit_of(n % 10));
        assert(d.drop_last() =~= decimal(n / 10));
        assert(digits_value(d) == digits_value(decimal(n / 10)) * 10 + (n % 10));
        assert forall|i: int| 0 <= i < d.len() implies is_digit(#[trigger] d[i]) by {
            if i < d.len() - 1 {
                assert(d[i] == decimal(n / 10)[i]);
            }
        }
    }
}

/// Two decimal renderings, each followed by text that starts with a
/// non-digit, are equal only when the numbers and the texts are.
proof fn lemma_peel_decimal(a: nat, b: nat, t: Seq<char>, u: Seq<char>)
    requires
        decimal(a) + t == decimal(b) + u,
        t.len() > 0,
        u.len() > 0,
        !is_digit(t[0]),
        !is_digit(u[0]),
    ensures
        a == b,
        t == u,
{
    lemma_decimal_digits(a);
    lemma_decimal_digits(b);
    let x = decimal(a);
    let y = decimal(b);
    let l = x + t;
    let r = y + u;
    if x.len() < y.len() {
        assert(l[x.len() as int] == t[0]);
        assert(r[x.len() as int] == y[x.len() as int]);
    } else if y.len() < x.len() {
        assert(r[y.len() as int] == u[0]);
        assert(l[y.len() as int] == x[y.len() as int]);
    }
    assert(x =~= l.take(x.len() as int));
    assert(y =~= r.take(y.len() as int));
    assert(t =~= l.skip(x.len() as int));
    assert(u =~= r.skip(y.len() as int));
}

/// A dotted quad followed by text that starts with a non-digit.
proof fn lemma_peel_quad(i: u32, j: u32, t: Seq<char>, u: Seq<char>)
    requires
        dotted_quad(i) + t == dotted_quad(j) + u,
        t.len() > 0,
        u.len() > 0,
        !is_digit(t[0]),
        !is_digit(u[0]),
    ensures
        i == j,
        t == u,
{
    let dot = seq!['.'];
    let (a1, b1, c1, d1) = (
        (i / 0x1000000) as nat,
        ((i / 0x10000) % 256) as nat,
        ((i / 0x100) % 256) as nat,
        (i % 256) as nat,
    );
    let (a2, b2, c2, d2) = (
        (j / 0x1000000) as nat,
        ((j / 0x10000) % 256) as nat,
        ((j / 0x100) % 256) as nat,
        (j % 256) as nat,
    );
    let r1 = decimal(d1) + t;
    let r2 = decimal(d2) + u;
    let q1 = decimal(c1) + (dot + r1);
    let q2 = decimal(c2) + (dot + r2);
    let p1 = decimal(b1) + (dot + q1);
    let p2 = decimal(b2) + (dot + q2);
    lemma_regroup8(decimal(a1), dot, decimal(b1), dot, decimal(c1), dot, decimal(d1), t);
    lemma_regroup8(decimal(a2), dot, decimal(b2), dot, decimal(c2), dot, decimal(d2), u);
    assert(dotted_quad(i) + t == decimal(a1) + (dot + p1));
    assert(dotted_quad(j) + u == decimal(a2) + (dot + p2));
    lemma_peel_decimal(a1, a2, dot + p1, dot + p2);
    assert(p1 =~= (dot + p1).drop_first());
    assert(p2 =~= (dot + p2).drop_first());
    lemma_peel_decimal(b1, b2, dot + q1, dot + q2);
    assert(q1 =~= (dot + q1).drop_first());
    assert(q2 =~= (dot + q2).drop_first());
    lemma_peel_decimal(c1, c2, dot + r1, dot + r2);
    assert(r1 =~= (dot + r1).drop_first());
    assert(r2 =~= (dot + r2).drop_first());
    lemma_peel_decimal(d1, d2, t, u);
    assert(i == j) by (bit_vector)
        requires
            i / 0x1000000 == j / 0x1000000,
            (i / 0x10000) % 256 == (j / 0x10000) % 256,
            (i / 0x100) % 256 == (j / 0x100) % 256,
            i % 256 == j % 256,
    ;
}

/// The flow id identifies the flow's addresses and ports: two keys have the
/// same id exactly when their source address, source port, destination
/// address and destination port agree (the protocol is not part of it).
pub proof fn law_flow_id_identifies(k1: FlowKey, k2: FlowKey)
    ensures
        flow_label(k1) == flow_label(k2) <==> (k1.src_ip == k2.src_ip && k1.src_port == k2.src_port
            && k1.dst_ip == k2.dst_ip && k1.dst_port == k2.dst_port),
{
    if flow_label(k1) == flow_label(k2) {
        let colon = seq![':'];
        let arrow = seq!['-', '>'];
        let e1 = decimal(k1.dst_port as nat);
        let e2 = decimal(k2.dst_port as nat);
        let d1 = dotted_quad(k1.dst_ip) + (colon + e1);
        let d2 = dotted_quad(k2.dst_ip) + (colon + e2);
        let c1 = decimal(k1.src_port as nat) + (arrow + d1);
        let c2 = decimal(k2.src_port as nat) + (arrow + d2);
        lemma_regroup7(
            dotted_quad(k1.src_ip),
            colon,
            decimal(k1.src_port as nat),
            arrow,
            dotted_quad(k1.dst_ip),
            colon,
            e1,
        );
        lemma_regroup7(
            dotted_quad(k2.src_ip),
            colon,
            decimal(k2.src_port as nat),
            arrow,
            dotted_quad(k2.dst_ip),
            colon,
            e2,
        );
        assert(flow_label(k1) == dotted_quad(k1.src_ip) + (colon + c1));
        assert(flow_label(k2) == dotted_quad(k2.src_ip) + (colon + c2));
        lemma_peel_quad(k1.src_ip, k2.src_ip, colon + c1, colon + c2);
        assert(c1 =~= (colon + c1).drop_first());
        assert(c2 =~= (colon + c2).drop_first());
        lemma_peel_decimal(k1.src_port as nat, k2.src_port as nat, arrow + d1, arrow + d2);
        assert(d1 =~= (arrow + d1).skip(2));
        assert(d2 =~= (arrow + d2).skip(2));
        lemma_peel_quad(k1.dst_ip, k2.dst_ip, colon + e1, colon + e2);
        assert(e1 =~= (colon + e1).drop_first());
        assert(e2 =~= (colon + e2).drop_first());
        lemma_decimal_digits(k1.dst_port as nat);
        lemma_decimal_digits(k2.dst_port as nat);
    }
}

/// What is known about an active flow.
#[derive(Debug, Clone)]
pub struct FlowValue {
    pub app_id: String,
    pub app_name: String,
    pub sni: Option<String>,
    pub domain: Option<String>,
    pub start_time: u64,
    pub last_active: u64,
    pub bytes_counter: u64,
    pub packets: u64,
}

/// A copy of an optional string.
pub fn copy_opt_string(s: &Option<String>) -> (r: Option<String>)
    ensures
        r == *s,
{
    match s {
        Some(v) => Some(v.clone()),
        None => None,
    }
}

impl FlowValue {
    /// An equal copy of the record.
    pub fn duplicate(&self) -> (r: Self)
        ensures
            r == *self,
    {
        FlowValue {
            app_id: self.app_id.clone(),
            app_name: self.app_name.clone(),
            sni: copy_opt_string(&self.sni),
            domain: copy_opt_string(&self.domain),
            start_time: self.start_time,
            last_active: self.last_active,
            bytes_counter: self.bytes_counter,
            packets: self.packets,
        }
    }
}

/// Identity of a history entry: a source address, an application and a day.
#[derive(Debug, Clone, Hash)]
pub struct HistoryKey {
    pub src_ip: u32,
    pub app_id: String,
    /// The day, as `YYYYMMDD`.
    pub date: String,
}

impl View for HistoryKey {
    type V = (u32, Seq<char>, Seq<char>);

    open spec fn view(&self) -> (u32, Seq<char>, Seq<char>) {
        (self.src_ip, self.app_id@, self.date@)
    }
}

impl PartialEq for HistoryKey {
    fn eq(&self, other: &Self) -> (r: bool) {
        self.src_ip == other.src_ip && self.app_id == other.app_id && self.date == other.date
    }
}

impl PartialEqSpecImpl for HistoryKey {
    open spec fn obeys_eq_spec() -> bool {
        true
    }

    open spec fn eq_spec(&self, other: &Self) -> bool {
        self@ == other@
    }
}

impl Eq for HistoryKey {
}

impl HistoryKey {
    /// An equal copy of the key.
    pub fn duplicate(&self) -> (r: Self)
        ensures
            r == *self,
    {
        HistoryKey { src_ip: self.src_ip, app_id: self.app_id.clone(), date: self.date.clone() }
    }
}

/// Accumulated activity of one history entry.
#[derive(Debug, Clone, Copy, PartialEq, Eq, Structural)]
pub struct HistoryValue {
    pub total_duration: u64,
    pub total_bytes: u64,
}

} // verus!
