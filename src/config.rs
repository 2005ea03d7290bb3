//! Configuration values that the library logic reads.

use vstd::prelude::*;

verus! {

/// Nanoseconds in one second.
pub const NANOS_PER_SEC: u32 = 1_000_000_000;

/// A span of time: whole seconds and the nanoseconds beyond them.
#[derive(Debug, Clone, Copy, PartialEq, Eq, Structural)]
pub struct WDuration {
    pub secs: u64,
    pub nanos: u32,
}

/// What `humantime::parse_duration` makes of a text, as seconds and
/// sub-second nanoseconds; `None` where it reports an error.
pub uninterp spec fn parsed_duration(s: Seq<char>) -> Option<(u64, u32)>;

/// What `humantime::format_duration` writes for a duration.
pub uninterp spec fn formatted_duration(secs: u64, nanos: u32) -> Seq<char>;

/// The most decimal digits a duration text may hold. With at most this
/// many, every span adds up to fewer than 2^62 seconds, far from the
/// seconds overflow on which `humantime::parse_duration` panics.
pub const MAX_DURATION_DIGITS: usize = 11;

/// How many ASCII decimal digits `s` holds.
pub open spec fn digit_count(s: Seq<char>) -> nat
    decreases s.len(),
{
    if s.len() == 0 {
        0
    } else {
        digit_count(s.drop_last()) + if '0' <= s.last() <= '9' {
            1nat
        } else {
            0nat
        }
    }
}

/// Relies on `humantime::parse_duration`: the result depends on the text
/// alone, and the nanoseconds of a parsed `Duration` stay below one second.
/// It panics only once the seconds reach `u64::MAX`, which a text with few
/// digits cannot: each number is below 10^11 and counts for at most
/// 31 557 600 seconds (a year) per unit.
#[verifier::external_body]
fn parse_duration(s: &str) -> (r: Option<(u64, u32)>)
    requires
        digit_count(s@) <= MAX_DURATION_DIGITS,
    ensures
        r == parsed_duration(s@),
        r matches Some(p) ==> p.1 < NANOS_PER_SEC,
{
    humantime::parse_duration(s).ok().map(|d| (d.as_secs(), d.subsec_nanos()))
}

/// Relies on `humantime::format_duration`: the text depends on the
/// duration alone.
#[verifier::external_body]
fn format_duration(secs: u64, nanos: u32) -> (r: String)
    requires
        nanos < NANOS_PER_SEC,
    ensures
        r@ == formatted_duration(secs, nanos),
{
    humantime::format_duration(std::time::Duration::new(secs, nanos)).to_string()
}

proof fn lemma_digit_count_prefix(s: Seq<char>, k: int)
    requires
        0 <= k <= s.len(),
    ensures
        digit_count(s.take(k)) <= digit_count(s),
    decreases s.len() - k,
{
    if k < s.len() {
        lemma_digit_count_prefix(s, k + 1);
        assert(s.take(k + 1).drop_last() =~= s.take(k));
    } else {
        assert(s.take(k) =~= s);
    }
}

impl WDuration {
    pub open spec fn wf(self) -> bool {
        self.nanos < NANOS_PER_SEC
    }

    /// The length in nanoseconds.
    pub open spec fn total_nanos(self) -> nat {
        (self.secs * 1_000_000_000 + self.nanos) as nat
    }

    pub fn new(secs: u64, nanos: u32) -> (r: WDuration)
        requires
            nanos < NANOS_PER_SEC,
        ensures
            r.wf(),
            r.secs == secs,
            r.nanos == nanos,
    {
        WDuration { secs, nanos }
    }

    pub fn from_secs(secs: u64) -> (r: WDuration)
        ensures
            r.wf(),
            r.secs == secs,
            r.nanos == 0,
            r.total_nanos() == secs * 1_000_000_000,
    {
        WDuration { secs, nanos: 0 }
    }

    pub fn as_secs(&self) -> (r: u64)
        ensures
            r == self.secs,
    {
        self.secs
    }

    pub fn subsec_nanos(&self) -> (r: u32)
        ensures
            r == self.nanos,
    {
        self.nanos
    }

    /// The length in nanoseconds.
    pub fn as_nanos(&self) -> (r: u128)
        ensures
            r == self.total_nanos(),
    {
        self.secs as u128 * 1_000_000_000 + self.nanos as u128
    }

    /// Reads a human-friendly duration such as `60s` or `1h 30m`. A text
    /// with more than `MAX_DURATION_DIGITS` decimal digits is refused.
    pub fn parse(s: &str) -> (r: Option<WDuration>)
        ensures
            r matches Some(d) ==> d.wf() && parsed_duration(s@) == Some(
                (d.secs, d.nanos),
            ),
            r is None <==> (digit_count(s@) > MAX_DURATION_DIGITS || parsed_duration(s@) is None),
    {
        let len = s.unicode_len();
        let mut digits: usize = 0;
        let mut i: usize = 0;
        while i < len
            invariant
                len == s@.len(),
                i <= len,
                digits == digit_count(s@.take(i as int)),
                digits <= MAX_DURATION_DIGITS,
            decreases len - i,
        {
            let c = s.get_char(i);
            assert(s@.take(i + 1).drop_last() =~= s@.take(i as int));
            if '0' <= c && c <= '9' {
                if digits == MAX_DURATION_DIGITS {
                    proof {
                        lemma_digit_count_prefix(s@, i + 1);
                    }
                    return None;
                }
                digits = digits + 1;
            }
            i = i + 1;
        }
        assert(s@.take(len as int) =~= s@);
        match parse_duration(s) {
            Some((secs, nanos)) => Some(WDuration { secs, nanos }),
            None => None,
        }
    }

    /// Writes this duration in humantime's form, such as `1m 30s`.
    pub fn to_text(&self) -> (r: String)
        requires
            self.wf(),
        ensures
            r@ == formatted_duration(self.secs, self.nanos),
    {
        format_duration(self.secs, self.nanos)
    }
}

/// Limits on chat messages.
#[derive(Debug, Clone, Copy, PartialEq, Eq, Structural)]
pub struct MsgConfig {
    /// The maximum message length in chars.
    pub max_length: usize,
    /// The maximum amount of messages in `count_duration`.
    pub max_messages: usize,
    /// The duration in which the amount of messages cannot be greater.
    pub count_duration: WDuration,
}

impl Default for MsgConfig {
    fn default() -> (r: MsgConfig)
        ensures
            r.max_length == 100,
            r.max_messages == 40,
            r.count_duration.wf(),
            r.count_duration.total_nanos() == 60_000_000_000,
    {
        MsgConfig { max_length: 100, max_messages: 40, count_duration: WDuration::from_secs(60) }
    }
}

/// Where the moderation lists are kept.
#[derive(Debug, Clone, PartialEq, Eq)]
pub struct ModConfig {
    /// The file containing the moderators (line separated).
    pub moderators: String,
    /// The file containing the banned users (line separated).
    pub banned: String,
}

impl Default for ModConfig {
    fn default() -> (r: ModConfig)
        ensures
            r.moderators@ == "./moderators.txt"@,
            r.banned@ == "./banned.txt"@,
    {
        ModConfig {
            moderators: String::from_str("./moderators.txt"),
            banned: String::from_str("./banned.txt"),
        }
    }
}

} // verus!
