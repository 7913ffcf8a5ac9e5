//! Packet and byte counters of the nftables rules, read from the listing of
//! the service's table: each line with `counter packets P bytes B` gives one
//! counter, named by the words of the rule before `counter`.

use vstd::prelude::*;

use crate::config::{all_digits, digits_value, is_digit, lemma_digits_prefix};
use crate::nft_setup::{split_words_chars, words};
use crate::text::{chars_of, decode_lossy, push_char, utf8_lossy};

verus! {

/// One counter of an nftables rule.
#[derive(Debug)]
pub struct CounterEntry {
    pub handle: String,
    pub packets: u64,
    pub bytes: u64,
}

/// `s` split at each newline: a text with `n` newlines has `n + 1` pieces.
pub open spec fn line_pieces(s: Seq<char>) -> Seq<Seq<char>>
    decreases s.len(),
{
    if s.len() == 0 {
        seq![Seq::empty()]
    } else {
        let ps = line_pieces(s.drop_last());
        if s.last() == '\n' {
            ps.push(Seq::empty())
        } else {
            ps.update(ps.len() - 1, ps.last().push(s.last()))
        }
    }
}

/// A run of one or more decimal digits whose value fits in 64 bits, as a number.
pub open spec fn parse_u64_text(s: Seq<char>) -> Option<u64> {
    if s.len() > 0 && all_digits(s) && digits_value(s) <= u64::MAX {
        Some(digits_value(s) as u64)
    } else {
        None
    }
}

/// The words from `j` on read `counter packets P bytes B` with numbers `P`, `B`.
pub open spec fn counter_at(ws: Seq<Seq<char>>, j: int) -> bool {
    &&& 0 <= j
    &&& j + 4 < ws.len()
    &&& ws[j] == "counter"@
    &&& ws[j + 1] == "packets"@
    &&& ws[j + 3] == "bytes"@
    &&& parse_u64_text(ws[j + 2]) is Some
    &&& parse_u64_text(ws[j + 4]) is Some
}

/// The first position from `j` on where a counter is written.
pub open spec fn first_counter(ws: Seq<Seq<char>>, j: int) -> Option<int>
    decreases ws.len() - j,
{
    if j < 0 || j + 4 >= ws.len() {
        None
    } else if counter_at(ws, j) {
        Some(j)
    } else {
        first_counter(ws, j + 1)
    }
}

/// The words joined by single spaces.
pub open spec fn joined(ws: Seq<Seq<char>>) -> Seq<char>
    decreases ws.len(),
{
    if ws.len() == 0 {
        Seq::empty()
    } else if ws.len() == 1 {
        ws[0]
    } else {
        joined(ws.drop_last()) + seq![' '] + ws.last()
    }
}

/// The counter a listing line gives: the words before `counter` joined by
/// spaces, and the packet and byte numbers.
pub open spec fn line_counter(line: Seq<char>) -> Option<(Seq<char>, u64, u64)> {
    let ws = words(line);
    match first_counter(ws, 0) {
        Some(j) => Some(
            (joined(ws.take(j)), parse_u64_text(ws[j + 2])->0, parse_u64_text(ws[j + 4])->0),
        ),
        None => None,
    }
}

/// The counters of the lines, in order.
pub open spec fn listing_counters(lines: Seq<Seq<char>>) -> Seq<(Seq<char>, u64, u64)>
    decreases lines.len(),
{
    if lines.len() == 0 {
        Seq::empty()
    } else {
        let rest = listing_counters(lines.drop_last());
        match line_counter(lines.last()) {
            Some(c) => rest.push(c),
            None => rest,
        }
    }
}

/// The entries are the counters `cs`, in order.
pub open spec fn entries_are(r: Seq<CounterEntry>, cs: Seq<(Seq<char>, u64, u64)>) -> bool {
    &&& r.len() == cs.len()
    &&& forall|i: int|
        0 <= i < r.len() ==> (#[trigger] r[i]).handle@ == cs[i].0 && r[i].packets == cs[i].1
            && r[i].bytes == cs[i].2
}

proof fn lemma_pieces_nonempty(s: Seq<char>)
    ensures
        line_pieces(s).len() >= 1,
    decreases s.len(),
{
    if s.len() > 0 {
        lemma_pieces_nonempty(s.drop_last());
    }
}

fn chars_equal(a: &Vec<char>, b: &Vec<char>) -> (r: bool)
    ensures
        r == (a@ == b@),
{
    if a.len() != b.len() {
        return false;
    }
    let mut i: usize = 0;
    while i < a.len()
        invariant
            a@.len() == b@.len(),
            i <= a@.len(),
            forall|k: int| 0 <= k < i ==> a@[k] == b@[k],
        decreases a@.len() - i,
    {
        if a[i] != b[i] {
            return false;
        }
        i = i + 1;
    }
    assert(a@ =~= b@);
    true
}

/// `str::parse::<u64>` of a run of digits (no sign).
fn parse_u64_chars(s: &Vec<char>) -> (r: Option<u64>)
    ensures
        r == parse_u64_text(s@),
{
    if s.len() == 0 {
        return None;
    }
    let mut value: u128 = 0;
    let mut i: usize = 0;
    assert(s@.take(0) =~= Seq::<char>::empty());
    while i < s.len()
        invariant
            i <= s@.len(),
            value <= u64::MAX,
            forall|k: int| 0 <= k < i ==> is_digit(#[trigger] s@[k]),
            value == digits_value(s@.take(i as int)),
        decreases s@.len() - i,
    {
        let c = s[i];
        if c < '0' || c > '9' {
            assert(!is_digit(s@[i as int]));
            return None;
        }
        let d = (c as u128) - ('0' as u128);
        assert(s@.take(i + 1).drop_last() =~= s@.take(i as int));
        value = value * 10 + d;
        i = i + 1;
        if value > u64::MAX as u128 {
            proof {
                if all_digits(s@) {
                    lemma_digits_prefix(s@, i as int, s@.len() as int);
                    assert(s@.take(s@.len() as int) =~= s@);
                }
            }
            return None;
        }
    }
    assert(s@.take(s@.len() as int) =~= s@);
    Some(value as u64)
}

fn word_is(w: &Vec<char>, text: &str) -> (r: bool)
    ensures
        r == (w@ == text@),
{
    chars_equal(w, &chars_of(text))
}

/// The counter of one listing line.
fn counter_of_line(line: &Vec<char>) -> (r: Option<CounterEntry>)
    ensures
        match line_counter(line@) {
            Some(c) => r matches Some(e) && e.handle@ == c.0 && e.packets == c.1 && e.bytes == c.2,
            None => r is None,
        },
{
    let ws = split_words_chars(line);
    let ghost w = words(line@);
    let mut j: usize = 0;
    while ws.len() > 4 && j < ws.len() - 4
        invariant
            ws@.len() == w.len(),
            forall|k: int| 0 <= k < ws@.len() ==> #[trigger] ws@[k]@ == w[k],
            w == words(line@),
            first_counter(w, 0) == first_counter(w, j as int),
        decreases ws@.len() - j,
    {
        if word_is(&ws[j], "counter") && word_is(&ws[j + 1], "packets") && word_is(
            &ws[j + 3],
            "bytes",
        ) {
            let packets = parse_u64_chars(&ws[j + 2]);
            let bytes = parse_u64_chars(&ws[j + 4]);
            if packets.is_some() && bytes.is_some() {
                assert(counter_at(w, j as int));
                let handle = join_words(&ws, j, Ghost(w));
                return Some(
                    CounterEntry { handle, packets: packets.unwrap(), bytes: bytes.unwrap() },
                );
            }
        }
        j = j + 1;
    }
    None
}

fn join_words(ws: &Vec<Vec<char>>, j: usize, Ghost(w): Ghost<Seq<Seq<char>>>) -> (r: String)
    requires
        j <= ws@.len(),
        ws@.len() == w.len(),
        forall|k: int| 0 <= k < ws@.len() ==> #[trigger] ws@[k]@ == w[k],
    ensures
        r@ == joined(w.take(j as int)),
{
    let mut r = String::new();
    let mut k: usize = 0;
    assert(w.take(0) =~= Seq::<Seq<char>>::empty());
    while k < j
        invariant
            k <= j <= ws@.len(),
            ws@.len() == w.len(),
            forall|m: int| 0 <= m < ws@.len() ==> #[trigger] ws@[m]@ == w[m],
            r@ == joined(w.take(k as int)),
        decreases j - k,
    {
        let ghost before = r@;
        if k > 0 {
            push_char(&mut r, ' ');
        }
        let word = &ws[k];
        let mut m: usize = 0;
        let ghost base = r@;
        while m < word.len()
            invariant
                m <= word@.len(),
                r@ == base + word@.take(m as int),
            decreases word@.len() - m,
        {
            push_char(&mut r, word[m]);
            m = m + 1;
            assert(r@ =~= base + word@.take(m as int));
        }
        assert(word@.take(word@.len() as int) =~= word@);
        assert(w.take(k + 1).drop_last() =~= w.take(k as int));
        assert(w.take(k + 1).last() == w[k as int]);
        if k == 0 {
            assert(r@ =~= joined(w.take(1)));
        } else {
            assert(r@ =~= joined(w.take(k as int)) + seq![' '] + w[k as int]);
        }
        k = k + 1;
    }
    r
}

/// Reads the counters of the service's nftables table.
pub struct NftCounterReader;

impl NftCounterReader {
    /// A reader; it holds no state.
    pub fn new() -> (r: Self) {
        NftCounterReader
    }

    /// The counters in the listing of the table (`None` where `nft` could not
    /// list it, which gives none): one per line that holds
    /// `counter packets P bytes B`, in order.
    pub fn counters_from_listing(&self, listing: Option<&[u8]>) -> (r: Vec<CounterEntry>)
        ensures
            match listing {
                Some(bytes) => entries_are(r@, listing_counters(line_pieces(utf8_lossy(bytes@)))),
                None => r@.len() == 0,
            },
    {
        let bytes = match listing {
            Some(b) => b,
            None => {
                return Vec::new();
            },
        };
        let text = decode_lossy(bytes);
        let chars = chars_of(text.as_str());
        let ghost all = chars@;
        let mut r: Vec<CounterEntry> = Vec::new();
        let mut current: Vec<char> = Vec::new();
        let mut i: usize = 0;
        proof {
            assert(all.take(0) =~= Seq::<char>::empty());
            assert(line_pieces(all.take(0)).drop_last() =~= Seq::<Seq<char>>::empty());
        }
        while i < chars.len()
            invariant
                i <= chars@.len(),
                chars@ == all,
                all == utf8_lossy(bytes@),
                line_pieces(all.take(i as int)).len() >= 1,
                line_pieces(all.take(i as int)).last() == current@,
                entries_are(r@, listing_counters(line_pieces(all.take(i as int)).drop_last())),
            decreases chars@.len() - i,
        {
            let c = chars[i];
            let ghost ps = line_pieces(all.take(i as int));
            assert(all.take(i + 1).drop_last() =~= all.take(i as int));
            assert(all.take(i + 1).last() == c);
            if c == '\n' {
                let found = counter_of_line(&current);
                proof {
                    assert(ps.drop_last().push(ps.last()) =~= ps);
                }
                match found {
                    Some(e) => {
                        r.push(e);
                    },
                    None => {},
                }
                current = Vec::new();
                proof {
                    let next = line_pieces(all.take(i + 1));
                    assert(next.drop_last() =~= ps);
                    assert(next.last() =~= current@);
                }
            } else {
                current.push(c);
                proof {
                    let next = line_pieces(all.take(i + 1));
                    assert(next.drop_last() =~= ps.drop_last());
                }
            }
            i = i + 1;
        }
        assert(all.take(all.len() as int) =~= all);
        let ghost ps = line_pieces(all);
        let found = counter_of_line(&current);
        proof {
            assert(ps.drop_last().push(ps.last()) =~= ps);
        }
        match found {
            Some(e) => {
                r.push(e);
            },
            None => {},
        }
        r
    }
}

impl Default for NftCounterReader {
    fn default() -> (r: Self) {
        Self::new()
    }
}

} // verus!
