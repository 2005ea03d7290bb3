//! Per-user rate limiting and content rules for chat messages.

use vstd::prelude::*;

use crate::config::MsgConfig;
use crate::error::ClientError;
use std::collections::VecDeque;

verus! {

/// The instants of `buf` that are not older than `now - window`.
pub open spec fn recent(buf: Seq<u64>, now: int, window: int) -> Seq<u64>
    decreases buf.len(),
{
    if buf.len() == 0 {
        buf
    } else {
        let rest = recent(buf.drop_last(), now, window);
        if buf.last() + window >= now {
            rest.push(buf.last())
        } else {
            rest
        }
    }
}

/// One step of a sliding-window limiter: the new buffer, and whether the
/// message at `now` is limited.
pub open spec fn limiter_step(max: nat, window: int, buf: Seq<u64>, now: u64) -> (Seq<u64>, bool) {
    let kept = recent(buf, now as int, window);
    if kept.len() < max {
        (kept.push(now), false)
    } else {
        (kept, true)
    }
}

/// The buffer of a fresh limiter after it was asked at each of `times`.
pub open spec fn limiter_buffer(max: nat, window: int, times: Seq<u64>) -> Seq<u64>
    decreases times.len(),
{
    if times.len() == 0 {
        Seq::empty()
    } else {
        limiter_step(max, window, limiter_buffer(max, window, times.drop_last()), times.last()).0
    }
}

/// Whether a fresh limiter asked at each of `times` limits each of them.
pub open spec fn limiter_run(max: nat, window: int, times: Seq<u64>) -> Seq<bool>
    decreases times.len(),
{
    if times.len() == 0 {
        Seq::empty()
    } else {
        let prev = times.drop_last();
        limiter_run(max, window, prev).push(
            limiter_step(max, window, limiter_buffer(max, window, prev), times.last()).1,
        )
    }
}

/// How many of `times` were let through and lie in `[from, from + window]`.
pub open spec fn allowed_in_window(times: Seq<u64>, limited: Seq<bool>, from: int, window: int) -> nat
    decreases times.len(),
{
    if times.len() == 0 || limited.len() == 0 {
        0
    } else {
        let rest = allowed_in_window(times.drop_last(), limited.drop_last(), from, window);
        if !limited.last() && from <= times.last() <= from + window {
            rest + 1
        } else {
            rest
        }
    }
}

/// Counts the recent instants that lie in `[from, from + window]`.
pub open spec fn count_in_window(buf: Seq<u64>, from: int, window: int) -> nat
    decreases buf.len(),
{
    if buf.len() == 0 {
        0
    } else {
        let rest = count_in_window(buf.drop_last(), from, window);
        if from <= buf.last() <= from + window {
            rest + 1
        } else {
            rest
        }
    }
}

/// The instants that a fresh limiter asked at each of `times` let through.
pub open spec fn limiter_passed(max: nat, window: int, times: Seq<u64>) -> Seq<u64>
    decreases times.len(),
{
    if times.len() == 0 {
        Seq::empty()
    } else {
        let prev = times.drop_last();
        let rest = limiter_passed(max, window, prev);
        if limiter_step(max, window, limiter_buffer(max, window, prev), times.last()).1 {
            rest
        } else {
            rest.push(times.last())
        }
    }
}

/// The instants are given in time order.
pub open spec fn nondecreasing(times: Seq<u64>) -> bool {
    forall|i: int, j: int| 0 <= i <= j < times.len() ==> times[i] <= times[j]
}

proof fn lemma_recent_twice(buf: Seq<u64>, p: int, q: int, window: int)
    requires
        p <= q,
    ensures
        recent(recent(buf, p, window), q, window) == recent(buf, q, window),
    decreases buf.len(),
{
    if buf.len() > 0 {
        lemma_recent_twice(buf.drop_last(), p, q, window);
        let rest = recent(buf.drop_last(), p, window);
        if buf.last() + window >= p {
            assert(rest.push(buf.last()).drop_last() =~= rest);
        }
    }
}

proof fn lemma_window_within_recent(buf: Seq<u64>, now: int, from: int, window: int)
    requires
        from >= now - window,
    ensures
        count_in_window(buf, from, window) == count_in_window(recent(buf, now, window), from, window),
    decreases buf.len(),
{
    if buf.len() > 0 {
        lemma_window_within_recent(buf.drop_last(), now, from, window);
        let rest = recent(buf.drop_last(), now, window);
        if buf.last() + window >= now {
            assert(rest.push(buf.last()).drop_last() =~= rest);
        }
    }
}

proof fn lemma_window_len(buf: Seq<u64>, from: int, window: int)
    ensures
        count_in_window(buf, from, window) <= buf.len(),
    decreases buf.len(),
{
    if buf.len() > 0 {
        lemma_window_len(buf.drop_last(), from, window);
    }
}

proof fn lemma_buffer_is_recent_passed(max: nat, window: int, times: Seq<u64>, q: int)
    requires
        nondecreasing(times),
        times.len() > 0 ==> times.last() <= q,
    ensures
        recent(limiter_buffer(max, window, times), q, window) == recent(
            limiter_passed(max, window, times),
            q,
            window,
        ),
    decreases times.len(),
{
    if times.len() > 0 {
        let prev = times.drop_last();
        let t = times.last();
        assert(nondecreasing(prev));
        if prev.len() > 0 {
            assert(prev.last() == times[times.len() - 2]);
        }
        lemma_buffer_is_recent_passed(max, window, prev, q);
        let old_buf = limiter_buffer(max, window, prev);
        let kept = recent(old_buf, t as int, window);
        lemma_recent_twice(old_buf, t as int, q, window);
        let passed_prev = limiter_passed(max, window, prev);
        if kept.len() < max {
            assert(kept.push(t).drop_last() =~= kept);
            assert(passed_prev.push(t).drop_last() =~= passed_prev);
        }
    }
}

proof fn lemma_window_counts_passed(max: nat, window: int, times: Seq<u64>, from: int)
    ensures
        limiter_run(max, window, times).len() == times.len(),
        allowed_in_window(times, limiter_run(max, window, times), from, window) == count_in_window(
            limiter_passed(max, window, times),
            from,
            window,
        ),
    decreases times.len(),
{
    if times.len() > 0 {
        let prev = times.drop_last();
        lemma_window_counts_passed(max, window, prev, from);
        let run_prev = limiter_run(max, window, prev);
        let step = limiter_step(max, window, limiter_buffer(max, window, prev), times.last());
        assert(run_prev.push(step.1).drop_last() =~= run_prev);
        let passed_prev = limiter_passed(max, window, prev);
        assert(passed_prev.push(times.last()).drop_last() =~= passed_prev);
    }
}

/// Rate limit: when a fresh limiter is asked at instants given in time
/// order, no closed window of the configured length holds more messages
/// let through than the configured maximum.
pub proof fn lemma_rate_limit_window(max: nat, window: nat, times: Seq<u64>, from: int)
    requires
        nondecreasing(times),
    ensures
        allowed_in_window(times, limiter_run(max, window as int, times), from, window as int)
            <= max,
    decreases times.len(),
{
    let w = window as int;
    lemma_window_counts_passed(max, w, times, from);
    if times.len() > 0 {
        let prev = times.drop_last();
        let now = times.last();
        assert(nondecreasing(prev));
        lemma_rate_limit_window(max, window, prev, from);
        lemma_window_counts_passed(max, w, prev, from);
        let passed_prev = limiter_passed(max, w, prev);
        let kept = recent(limiter_buffer(max, w, prev), now as int, w);
        if prev.len() > 0 {
            assert(prev.last() == times[times.len() - 2]);
        }
        lemma_buffer_is_recent_passed(max, w, prev, now as int);
        if kept.len() < max && from <= now <= from + w {
            lemma_window_within_recent(passed_prev, now as int, from, w);
            lemma_window_len(recent(passed_prev, now as int, w), from, w);
            assert(passed_prev.push(now).drop_last() =~= passed_prev);
        } else if kept.len() < max {
            assert(passed_prev.push(now).drop_last() =~= passed_prev);
        }
    }
}

/// Sliding-window counter of recent messages.
pub struct RateLimiter {
    buf: VecDeque<u64>,
    cfg: MsgConfig,
}

impl View for RateLimiter {
    type V = Seq<u64>;

    closed spec fn view(&self) -> Seq<u64> {
        self.buf@
    }
}

impl RateLimiter {
    /// The limits this limiter enforces.
    pub closed spec fn config(&self) -> MsgConfig {
        self.cfg
    }

    pub open spec fn window(&self) -> int {
        self.config().count_duration.total_nanos() as int
    }

    pub fn new(cfg: MsgConfig) -> (r: RateLimiter)
        ensures
            r@ == Seq::<u64>::empty(),
            r.config() == cfg,
    {
        RateLimiter { buf: VecDeque::new(), cfg }
    }

    /// Returns whether a new message at `now` (nanoseconds on a monotonic
    /// clock) is rate limited. If not, the instant is registered.
    /// Instants older than `now` minus the configured duration are forgotten.
    pub fn check_new_message(&mut self, now: u64) -> (limited: bool)
        ensures
            final(self).config() == old(self).config(),
            (final(self)@, limited) == limiter_step(
                old(self).config().max_messages as nat,
                old(self).window(),
                old(self)@,
                now,
            ),
    {
        let window = self.cfg.count_duration.as_nanos();
        let n = self.buf.len();
        let mut kept: VecDeque<u64> = VecDeque::new();
        let mut i: usize = 0;
        while i < n
            invariant
                i <= n,
                n == self.buf@.len(),
                window == self.cfg.count_duration.total_nanos(),
                kept@ == recent(self.buf@.take(i as int), now as int, window as int),
            decreases n - i,
        {
            let t = self.buf[i];
            assert(self.buf@.take(i + 1).drop_last() =~= self.buf@.take(i as int));
            if t as u128 + window >= now as u128 {
                kept.push_back(t);
            }
            i = i + 1;
        }
        assert(self.buf@.take(n as int) =~= self.buf@);
        if kept.len() < self.cfg.max_messages {
            kept.push_back(now);
            self.buf = kept;
            false
        } else {
            self.buf = kept;
            true
        }
    }
}

/// `c` is an ASCII graphic character, `!` through `~`.
pub open spec fn is_ascii_graphic(c: char) -> bool {
    '!' <= c <= '~'
}

/// What `char::is_alphanumeric` says of a character.
pub uninterp spec fn alphanumeric(c: char) -> bool;

/// Relies on `char::is_alphanumeric`: the answer depends on the character
/// alone, and ASCII letters and digits are alphanumeric.
#[verifier::external_body]
fn char_is_alphanumeric(c: char) -> (r: bool)
    ensures
        r == alphanumeric(c),
        ('a' <= c <= 'z' || 'A' <= c <= 'Z' || '0' <= c <= '9') ==> r,
{
    c.is_alphanumeric()
}

/// A character that may stand in a message.
pub open spec fn allowed_char(c: char) -> bool {
    c == ' ' || is_ascii_graphic(c) || alphanumeric(c)
}

/// Checks the characters of `msg` from index `i` on: the first index that
/// reaches `max_length`, or holds a character that is not allowed, decides.
pub open spec fn check_from(max_length: nat, msg: Seq<char>, i: int) -> Result<(), ClientError>
    decreases msg.len() - i,
{
    if i < 0 || i >= msg.len() {
        Ok(())
    } else if i >= max_length {
        Err(ClientError::MessageTooLong)
    } else if !allowed_char(msg[i]) {
        Err(ClientError::InvalidCharacter(msg[i]))
    } else {
        check_from(max_length, msg, i + 1)
    }
}

/// The verdict on a message.
pub open spec fn validation(max_length: nat, msg: Seq<char>) -> Result<(), ClientError> {
    if msg.len() == 0 {
        Err(ClientError::EmptyMessage)
    } else {
        check_from(max_length, msg, 0)
    }
}

/// Content rules for outgoing messages.
pub struct MessageValidator {
    cfg: MsgConfig,
}

impl MessageValidator {
    pub closed spec fn config(&self) -> MsgConfig {
        self.cfg
    }

    pub fn new(cfg: MsgConfig) -> (r: MessageValidator)
        ensures
            r.config() == cfg,
    {
        MessageValidator { cfg }
    }

    /// Rejects an empty message, one longer than the configured maximum
    /// (in characters), and one holding a character that is neither a
    /// space, nor ASCII graphic, nor alphanumeric.
    pub fn validate(&self, msg: &str) -> (r: Result<(), ClientError>)
        ensures
            r == validation(self.config().max_length as nat, msg@),
    {
        let len = msg.unicode_len();
        if len == 0 {
            return Err(ClientError::EmptyMessage);
        }
        let mut i: usize = 0;
        while i < len
            invariant
                len == msg@.len(),
                0 <= i <= len,
                check_from(self.cfg.max_length as nat, msg@, 0) == check_from(
                    self.cfg.max_length as nat,
                    msg@,
                    i as int,
                ),
            decreases len - i,
        {
            if i >= self.cfg.max_length {
                return Err(ClientError::MessageTooLong);
            }
            let ch = msg.get_char(i);
            if ch != ' ' && !('!' <= ch && ch <= '~') && !char_is_alphanumeric(ch) {
                return Err(ClientError::InvalidCharacter(ch));
            }
            i = i + 1;
        }
        Ok(())
    }
}

/// Validation is a function of the limits and the text alone: two checks of
/// the same text under the same limits agree.
pub proof fn lemma_validate_deterministic(v1: MessageValidator, v2: MessageValidator, msg: Seq<char>)
    requires
        v1.config().max_length == v2.config().max_length,
    ensures
        validation(v1.config().max_length as nat, msg) == validation(
            v2.config().max_length as nat,
            msg,
        ),
{
}

} // verus!
