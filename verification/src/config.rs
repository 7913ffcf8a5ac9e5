//! Service configuration: the settings read from UCI and their defaults.

use vstd::prelude::*;
use std::collections::HashMap;

use crate::text::{chars_of, decode_lossy, trim, trim_chars, utf8_lossy};

verus! {

/// Seconds between refreshes of the statistics.
pub const DEFAULT_REFRESH_INTERVAL: u64 = 3;

/// Most connections the service keeps track of.
pub const DEFAULT_MAX_CONNECTIONS: usize = 5000;

/// Seconds a DNS answer is cached.
pub const DEFAULT_DNS_CACHE_TTL: u64 = 300;

/// NFLOG group used when none is configured.
pub const DEFAULT_NFLOG_GROUP: u16 = 100;

/// Database path used when the setting cannot be read.
pub open spec fn default_db_path() -> Seq<char> {
    "/tmp/netguard.db"@
}

/// Settings of the service.
pub struct Config {
    pub enabled: bool,
    pub refresh_interval: u64,
    pub max_connections: usize,
    pub dns_cache_ttl: u64,
    pub db_path: String,
    pub nflog_group: u16,
}

/// `c` is a decimal digit.
pub open spec fn is_digit(c: char) -> bool {
    '0' <= c <= '9'
}

/// The number that a run of decimal digits spells.
pub open spec fn digits_value(s: Seq<char>) -> int
    decreases s.len(),
{
    if s.len() == 0 {
        0
    } else {
        digits_value(s.drop_last()) * 10 + (s.last() as int - '0' as int)
    }
}

/// `s` without a leading `+`.
pub open spec fn unsigned_part(s: Seq<char>) -> Seq<char> {
    if s.len() > 0 && s[0] == '+' {
        s.drop_first()
    } else {
        s
    }
}

/// Every character of `s` is a decimal digit.
pub open spec fn all_digits(s: Seq<char>) -> bool {
    forall|i: int| 0 <= i < s.len() ==> is_digit(#[trigger] s[i])
}

/// What `str::parse::<u16>` gives: an optional `+` followed by one or more
/// decimal digits whose value fits in 16 bits.
pub open spec fn parse_u16_text(s: Seq<char>) -> Option<u16> {
    let digits = unsigned_part(s);
    if digits.len() > 0 && all_digits(digits) && digits_value(digits) <= u16::MAX {
        Some(digits_value(digits) as u16)
    } else {
        None
    }
}

/// The text a `uci get` printed, as the configuration reads it.
pub open spec fn uci_text(output: Seq<u8>) -> Seq<char> {
    trim(utf8_lossy(output))
}

/// `enabled` from the output of `uci get netguard.config.enabled`, or true
/// when the command could not be run.
pub open spec fn enabled_setting(output: Option<Seq<u8>>) -> bool {
    match output {
        Some(o) => uci_text(o) == "1"@,
        None => true,
    }
}

/// `db_path` from the output of `uci get netguard.database.db_path`.
pub open spec fn db_path_setting(output: Option<Seq<u8>>) -> Seq<char> {
    match output {
        Some(o) => uci_text(o),
        None => default_db_path(),
    }
}

/// `nflog_group` from the output of `uci get netguard.config.nflog_group`.
pub open spec fn nflog_group_setting(output: Option<Seq<u8>>) -> u16 {
    match output {
        Some(o) => match parse_u16_text(uci_text(o)) {
            Some(v) => v,
            None => DEFAULT_NFLOG_GROUP,
        },
        None => DEFAULT_NFLOG_GROUP,
    }
}

/// The value of a prefix of a run of digits is at most that of a longer prefix.
pub(crate) proof fn lemma_digits_prefix(s: Seq<char>, i: int, j: int)
    requires
        0 <= i <= j <= s.len(),
        forall|k: int| 0 <= k < s.len() ==> is_digit(#[trigger] s[k]),
    ensures
        0 <= digits_value(s.take(i)) <= digits_value(s.take(j)),
    decreases j - i,
{
    if i < j {
        lemma_digits_prefix(s, i, j - 1);
        assert(s.take(j).drop_last() =~= s.take(j - 1));
        assert(is_digit(s[j - 1]));
    } else {
        lemma_digits_nonneg(s.take(i));
    }
}

proof fn lemma_digits_nonneg(s: Seq<char>)
    requires
        forall|k: int| 0 <= k < s.len() ==> is_digit(#[trigger] s[k]),
    ensures
        digits_value(s) >= 0,
    decreases s.len(),
{
    if s.len() > 0 {
        assert forall|k: int| 0 <= k < s.drop_last().len() implies is_digit(
            #[trigger] s.drop_last()[k],
        ) by {
            assert(s.drop_last()[k] == s[k]);
        }
        lemma_digits_nonneg(s.drop_last());
        assert(is_digit(s.last()));
    }
}

/// `str::parse::<u16>` of a character vector.
pub fn parse_u16_chars(s: &Vec<char>) -> (r: Option<u16>)
    ensures
        r == parse_u16_text(s@),
{
    let start: usize = if s.len() > 0 && s[0] == '+' {
        1
    } else {
        0
    };
    let ghost digits = s@.skip(start as int);
    assert(digits =~= unsigned_part(s@));
    if start == s.len() {
        return None;
    }
    let mut value: u32 = 0;
    let mut i: usize = start;
    assert(digits.take(0) =~= Seq::<char>::empty());
    while i < s.len()
        invariant
            start <= i <= s@.len(),
            digits == s@.skip(start as int),
            digits == unsigned_part(s@),
            value <= u16::MAX,
            forall|k: int| 0 <= k < i - start ==> is_digit(#[trigger] digits[k]),
            value == digits_value(digits.take(i - start)),
        decreases s@.len() - i,
    {
        let c = s[i];
        assert(digits[i - start] == s@[i as int]);
        if c < '0' || c > '9' {
            assert(!is_digit(digits[i - start]));
            assert(!all_digits(digits));
            return None;
        }
        let d = (c as u32) - ('0' as u32);
        assert(digits.take(i - start + 1).drop_last() =~= digits.take(i - start));
        value = value * 10 + d;
        i = i + 1;
        assert(value == digits_value(digits.take(i - start)));
        if value > u16::MAX as u32 {
            proof {
                if all_digits(digits) {
                    lemma_digits_prefix(digits, i - start, digits.len() as int);
                    assert(digits.take(digits.len() as int) =~= digits);
                }
            }
            return None;
        }
    }
    assert(digits.take(digits.len() as int) =~= digits);
    Some(value as u16)
}

impl Config {
    /// The configuration from the outputs of the three `uci get` queries
    /// (`None` where the command could not be run): `enabled` is whether the
    /// trimmed text is `1`, `db_path` the trimmed text, `nflog_group` the
    /// trimmed text as a number, or 100 when it is none; the other settings
    /// are fixed.
    pub fn from_uci_outputs(
        enabled_output: Option<&[u8]>,
        db_path_output: Option<&[u8]>,
        nflog_group_output: Option<&[u8]>,
    ) -> (r: Self)
        ensures
            r.enabled == enabled_setting(
                match enabled_output {
                    Some(o) => Some(o@),
                    None => None,
                },
            ),
            r.db_path@ == db_path_setting(
                match db_path_output {
                    Some(o) => Some(o@),
                    None => None,
                },
            ),
            r.nflog_group == nflog_group_setting(
                match nflog_group_output {
                    Some(o) => Some(o@),
                    None => None,
                },
            ),
            r.refresh_interval == DEFAULT_REFRESH_INTERVAL,
            r.max_connections == DEFAULT_MAX_CONNECTIONS,
            r.dns_cache_ttl == DEFAULT_DNS_CACHE_TTL,
    {
        let enabled = match enabled_output {
            Some(o) => {
                let text = trim_chars(&chars_of(decode_lossy(o).as_str()));
                let one = "1".to_owned();
                proof {
                    reveal_strlit("1");
                }
                text == one
            },
            None => true,
        };
        let db_path = match db_path_output {
            Some(o) => trim_chars(&chars_of(decode_lossy(o).as_str())),
            None => "/tmp/netguard.db".to_owned(),
        };
        let nflog_group = match nflog_group_output {
            Some(o) => {
                let text = trim_chars(&chars_of(decode_lossy(o).as_str()));
                match parse_u16_chars(&chars_of(text.as_str())) {
                    Some(v) => v,
                    None => DEFAULT_NFLOG_GROUP,
                }
            },
            None => DEFAULT_NFLOG_GROUP,
        };
        Config {
            enabled,
            refresh_interval: DEFAULT_REFRESH_INTERVAL,
            max_connections: DEFAULT_MAX_CONNECTIONS,
            dns_cache_ttl: DEFAULT_DNS_CACHE_TTL,
            db_path,
            nflog_group,
        }
    }

    /// Every configuration option as text; no option is gathered, so the map is empty.
    pub fn get_all() -> (r: HashMap<String, String>)
        ensures
            r@ == Map::<String, String>::empty(),
    {
        HashMap::new()
    }
}

} // verus!
