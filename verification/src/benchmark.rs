//! A benchmark of how fast an ELM327 answers requests for the RPM.

use crate::elm327::lemma_number_of_four;
use crate::text::{
    all_hex, chars_of, from_utf8_lossy, hex_digit_value, is_hex_digit, parse_hex, parsed_hex,
    text_of, trim, trimmed, unsigned_part, utf8_lossy, DIGIT_0, DIGIT_1, DIGIT_4, PROMPT, UPPER_C,
};
use vstd::prelude::*;
use vstd::slice::slice_subrange;
use vstd::utf8::{encode_utf8, is_char_boundary};

verus! {

/// The longest time that can be measured, in nanoseconds.
pub const LONGEST_NS: u128 = 18_446_744_073_709_551_615_999_999_999;

// ---------------------------------------------------------------------------
// Statistics
// ---------------------------------------------------------------------------

/// What was measured so far. Times are in nanoseconds.
#[derive(Debug, Clone, Copy, PartialEq, Eq, Structural)]
pub struct Stats {
    pub requests: u64,
    pub errors: u64,
    pub min_latency: u128,
    pub max_latency: u128,
    pub total_latency: u128,
    pub interval_requests: u64,
    pub interval_errors: u64,
    pub interval_start: u64,
    pub last_rpm: Option<u32>,
}

impl Stats {
    /// The numbers are those of a run with the given latencies.
    pub open spec fn describes(&self, latencies: Seq<u128>) -> bool {
        &&& self.requests == latencies.len()
        &&& self.total_latency == total(latencies)
        &&& forall|i: int|
            0 <= i < latencies.len() ==> self.min_latency <= #[trigger] latencies[i]
                <= self.max_latency
        &&& latencies.len() > 0 ==> latencies.contains(self.min_latency) && latencies.contains(
            self.max_latency,
        )
        &&& latencies.len() == 0 ==> self.min_latency == LONGEST_NS && self.max_latency == 0
    }

    /// The numbers after one more answered request.
    pub open spec fn with_success(&self, latency: u128, rpm: u32) -> Stats {
        Stats {
            requests: (self.requests + 1) as u64,
            interval_requests: (self.interval_requests + 1) as u64,
            total_latency: (self.total_latency + latency) as u128,
            min_latency: if latency < self.min_latency {
                latency
            } else {
                self.min_latency
            },
            max_latency: if latency > self.max_latency {
                latency
            } else {
                self.max_latency
            },
            last_rpm: Some(rpm),
            ..*self
        }
    }

    /// The numbers after one more request whose answer could not be used.
    pub open spec fn with_error(&self) -> Stats {
        Stats {
            errors: (self.errors + 1) as u64,
            interval_errors: (self.interval_errors + 1) as u64,
            ..*self
        }
    }

    /// Nothing measured yet.
    pub fn new(now: u64) -> (r: Self)
        ensures
            r.describes(Seq::empty()),
            r == (Stats {
                requests: 0,
                errors: 0,
                min_latency: LONGEST_NS,
                max_latency: 0,
                total_latency: 0,
                interval_requests: 0,
                interval_errors: 0,
                interval_start: now,
                last_rpm: None,
            }),
    {
        Stats {
            requests: 0,
            errors: 0,
            min_latency: LONGEST_NS,
            max_latency: 0,
            total_latency: 0,
            interval_requests: 0,
            interval_errors: 0,
            interval_start: now,
            last_rpm: None,
        }
    }

    /// Take in a request that was answered.
    pub fn record_success(&mut self, latency: u128, rpm: u32)
        requires
            old(self).requests < u64::MAX,
            old(self).interval_requests < u64::MAX,
            old(self).total_latency + latency <= LONGEST_NS,
        ensures
            *final(self) == old(self).with_success(latency, rpm),
    {
        self.requests = self.requests + 1;
        self.interval_requests = self.interval_requests + 1;
        self.total_latency = self.total_latency + latency;
        if latency < self.min_latency {
            self.min_latency = latency;
        }
        if latency > self.max_latency {
            self.max_latency = latency;
        }
        self.last_rpm = Some(rpm);
    }

    /// Take in a request whose answer could not be used.
    pub fn record_error(&mut self)
        requires
            old(self).errors < u64::MAX,
            old(self).interval_errors < u64::MAX,
        ensures
            *final(self) == old(self).with_error(),
    {
        self.errors = self.errors + 1;
        self.interval_errors = self.interval_errors + 1;
    }

    /// Whether it is time to show the interval's numbers.
    pub fn interval_over(&self, now: u64, interval: u128) -> (r: bool)
        ensures
            r == (if now >= self.interval_start {
                now - self.interval_start
            } else {
                0
            } >= interval),
    {
        now.saturating_sub(self.interval_start) as u128 >= interval
    }

    /// Start a new interval; returns the old one's requests and errors, and how
    /// long it took.
    pub fn next_interval(&mut self, now: u64) -> (r: (u64, u64, u64))
        ensures
            *final(self) == (Stats {
                interval_requests: 0,
                interval_errors: 0,
                interval_start: now,
                ..*old(self)
            }),
            r.0 == old(self).interval_requests,
            r.1 == old(self).interval_errors,
            r.2 == if now >= old(self).interval_start {
                now - old(self).interval_start
            } else {
                0
            },
    {
        let over: (u64, u64, u64) = (
            self.interval_requests,
            self.interval_errors,
            now.saturating_sub(self.interval_start),
        );
        self.interval_requests = 0;
        self.interval_errors = 0;
        self.interval_start = now;
        over
    }

    /// How long an answer took on average; None before the first one.
    pub fn average_latency(&self) -> (r: Option<u128>)
        requires
            self.requests <= u32::MAX,
        ensures
            r == if self.requests == 0 {
                None
            } else {
                Some((self.total_latency / self.requests as u128) as u128)
            },
    {
        if self.requests == 0 {
            None
        } else {
            Some(self.total_latency / self.requests as u128)
        }
    }
}

/// The sum of latencies.
pub open spec fn total(latencies: Seq<u128>) -> nat
    decreases latencies.len(),
{
    if latencies.len() == 0 {
        0
    } else {
        total(latencies.drop_last()) + latencies.last() as nat
    }
}

/// The statistics stay those of the answered requests: their number, their
/// total, the shortest and the longest.
pub proof fn law_stats_describe_run(
    before: Stats,
    latencies: Seq<u128>,
    latency: u128,
    rpm: u32,
)
    requires
        before.describes(latencies),
        before.requests < u64::MAX,
        before.total_latency + latency <= LONGEST_NS,
    ensures
        before.with_success(latency, rpm).describes(latencies.push(latency)),
        before.with_error().describes(latencies),
{
    let after = before.with_success(latency, rpm);
    let longer = latencies.push(latency);
    assert(longer.drop_last() =~= latencies);
    assert(longer[latencies.len() as int] == latency);
    assert forall|i: int| 0 <= i < longer.len() implies after.min_latency <= #[trigger] longer[i]
        <= after.max_latency by {
        if i < latencies.len() {
            assert(longer[i] == latencies[i]);
        }
    }
    if latencies.len() > 0 {
        let lowest = latencies.index_of(before.min_latency);
        let highest = latencies.index_of(before.max_latency);
        assert(longer[lowest] == before.min_latency);
        assert(longer[highest] == before.max_latency);
    } else {
        assert(latency <= before.min_latency);
    }
}

// ---------------------------------------------------------------------------
// Answers
// ---------------------------------------------------------------------------

/// Collects what the server sends, up to its prompt.
#[derive(Debug)]
pub struct ReplyBuffer {
    bytes: Vec<u8>,
}

impl View for ReplyBuffer {
    type V = Seq<u8>;

    closed spec fn view(&self) -> Seq<u8> {
        self.bytes@
    }
}

impl ReplyBuffer {
    /// Nothing received yet.
    pub fn new() -> (r: Self)
        ensures
            r@ == Seq::<u8>::empty(),
    {
        ReplyBuffer { bytes: Vec::new() }
    }

    /// Take in one byte. The prompt ends the reply, belongs to it, and empties
    /// the buffer.
    pub fn accept(&mut self, byte: u8) -> (r: Option<String>)
        ensures
            match r {
                Some(reply) => byte == PROMPT && reply@ == utf8_lossy(old(self)@.push(byte))
                    && final(self)@ == Seq::<u8>::empty(),
                None => byte != PROMPT && final(self)@ == old(self)@.push(byte),
            },
    {
        self.bytes.push(byte);
        if byte == PROMPT {
            let reply: String = from_utf8_lossy(self.bytes.as_slice());
            self.bytes = Vec::new();
            Some(reply)
        } else {
            None
        }
    }
}

/// A text without the prompts at its end.
pub open spec fn without_prompts(s: Seq<char>) -> Seq<char>
    decreases s.len(),
{
    if s.len() > 0 && s.last() == '>' {
        without_prompts(s.drop_last())
    } else {
        s
    }
}

/// A reply without its prompt and the white space around it.
pub open spec fn cleaned(reply: Seq<char>) -> Seq<char> {
    trimmed(without_prompts(trimmed(reply)))
}

/// The reply is one to a request for the RPM.
pub open spec fn is_rpm_reply(clean: Seq<u8>) -> bool {
    &&& clean.len() >= 8
    &&& clean.take(4) == seq![DIGIT_4, DIGIT_1, DIGIT_0, UPPER_C]
}

/// A character lies across the end of the value, so that it cannot be told from
/// what follows.
pub open spec fn cuts_value(clean: Seq<u8>) -> bool {
    is_rpm_reply(clean) && !is_char_boundary(clean, 8)
}

/// The RPM in a reply without white space around it.
pub open spec fn rpm_of(clean: Seq<u8>) -> Option<nat> {
    if is_rpm_reply(clean) {
        match parsed_hex(clean.subrange(4, 8)) {
            Some(value) => Some(value / 4),
            None => None,
        }
    } else {
        None
    }
}

fn clean_reply(reply: &str) -> (r: String)
    ensures
        r@ == cleaned(reply@),
{
    let chars: Vec<char> = chars_of(reply);
    let outer: Vec<char> = trim(chars.as_slice());
    let mut n: usize = outer.len();
    assert(outer@.take(n as int) =~= outer@);
    while n > 0 && outer[n - 1] == '>'
        invariant
            n <= outer@.len(),
            without_prompts(outer@.take(n as int)) == without_prompts(outer@),
        ensures
            n <= outer@.len(),
            outer@.take(n as int) == without_prompts(outer@),
        decreases n,
    {
        assert(outer@.take(n as int).drop_last() =~= outer@.take(n - 1));
        n = n - 1;
    }
    let inner: &[char] = slice_subrange(outer.as_slice(), 0, n);
    assert(inner@ =~= outer@.take(n as int));
    let kept: Vec<char> = trim(inner);
    text_of(kept.as_slice())
}

fn starts_reply(clean: &[u8]) -> (r: bool)
    ensures
        r == is_rpm_reply(clean@),
{
    if clean.len() < 8 {
        return false;
    }
    let r = clean[0] == DIGIT_4 && clean[1] == DIGIT_1 && clean[2] == DIGIT_0 && clean[3]
        == UPPER_C;
    proof {
        if r {
            assert(clean@.take(4) =~= seq![DIGIT_4, DIGIT_1, DIGIT_0, UPPER_C]);
        } else {
            assert(clean@.take(4)[0] == clean@[0]);
            assert(clean@.take(4)[1] == clean@[1]);
            assert(clean@.take(4)[2] == clean@[2]);
            assert(clean@.take(4)[3] == clean@[3]);
        }
    }
    r
}

/// Whether a character lies across the end of the value in a reply.
pub fn value_is_cut(reply: &str) -> (r: bool)
    ensures
        r == cuts_value(encode_utf8(cleaned(reply@))),
{
    let clean: String = clean_reply(reply);
    let bytes: &[u8] = clean.as_str().as_bytes();
    proof {
        vstd::utf8::encode_utf8_valid_utf8(clean@);
    }
    if !starts_reply(bytes) {
        return false;
    }
    if bytes.len() == 8 {
        proof {
            vstd::utf8::is_char_boundary_start_end_of_seq(bytes@);
        }
        return false;
    }
    proof {
        vstd::utf8::is_char_boundary_iff_not_is_continuation_byte(bytes@, 8);
    }
    let behind: u8 = bytes[8];
    0x80 <= behind && behind <= 0xbf
}

/// The RPM in a reply. It stands behind `410C`, in four hexadecimal digits, times
/// four.
pub fn parse_rpm_response(response: &str) -> (r: Option<u32>)
    requires
        !cuts_value(encode_utf8(cleaned(response@))),
    ensures
        match r {
            Some(rpm) => rpm_of(encode_utf8(cleaned(response@))) == Some(rpm as nat),
            None => rpm_of(encode_utf8(cleaned(response@))) is None,
        },
{
    let clean: String = clean_reply(response);
    let bytes: &[u8] = clean.as_str().as_bytes();
    if !starts_reply(bytes) {
        return None;
    }
    match parse_hex(slice_subrange(bytes, 4, 8)) {
        Some(value) => Some(value / 4),
        None => None,
    }
}

// ---------------------------------------------------------------------------
// The run
// ---------------------------------------------------------------------------

/// What came of a request.
#[derive(Debug, Clone, Copy, PartialEq, Eq, Structural)]
pub enum Outcome {
    /// This RPM
    Rpm(u32),
    /// An answer without an RPM
    Invalid,
    /// An answer whose value ends inside a character
    Unreadable,
}

/// The commands that prepare a connection: a reset, then no echo, no spaces and
/// no linefeeds.
pub fn init_commands() -> (r: [&'static str; 4])
    ensures
        r@ == seq!["ATZ\r", "ATE0\r", "ATS0\r", "ATL0\r"],
{
    let commands: [&'static str; 4] = ["ATZ\r", "ATE0\r", "ATS0\r", "ATL0\r"];
    assert(commands@ =~= seq!["ATZ\r", "ATE0\r", "ATS0\r", "ATL0\r"]);
    commands
}

/// A run of the benchmark.
#[derive(Debug, Clone, Copy)]
pub struct Benchmark {
    /// Ask by the short command that repeats the last one
    pub repeat: bool,
    /// The server has answered a full command
    pub can_repeat: bool,
    pub stats: Stats,
}

impl Benchmark {
    /// A run that starts now.
    pub fn new(repeat: bool, now: u64) -> (r: Self)
        ensures
            r.repeat == repeat,
            !r.can_repeat,
            r.stats.describes(Seq::empty()),
            r.stats.errors == 0,
            r.stats.interval_requests == 0,
            r.stats.interval_errors == 0,
            r.stats.interval_start == now,
            r.stats.last_rpm is None,
    {
        Benchmark { repeat, can_repeat: false, stats: Stats::new(now) }
    }

    /// Whether the run is over. One of no duration goes on forever.
    pub fn is_over(duration_secs: u64, elapsed: u128) -> (r: bool)
        ensures
            r == (duration_secs > 0 && elapsed >= duration_secs * 1_000_000_000),
    {
        duration_secs > 0 && elapsed >= duration_secs as u128 * 1_000_000_000
    }

    /// The next command to send.
    pub fn command(&self) -> (r: &'static str)
        ensures
            r@ == if self.repeat && self.can_repeat {
                "1\r"@
            } else {
                "010C\r"@
            },
    {
        if self.repeat && self.can_repeat {
            "1\r"
        } else {
            "010C\r"
        }
    }

    /// Take in the answer to a command.
    pub fn finish_request(&mut self, reply: &str, latency: u128) -> (r: Outcome)
        requires
            old(self).stats.requests < u64::MAX,
            old(self).stats.interval_requests < u64::MAX,
            old(self).stats.errors < u64::MAX,
            old(self).stats.interval_errors < u64::MAX,
            old(self).stats.total_latency + latency <= LONGEST_NS,
        ensures
            final(self).repeat == old(self).repeat,
            ({
                let clean = encode_utf8(cleaned(reply@));
                if cuts_value(clean) {
                    r is Unreadable && *final(self) == *old(self)
                } else {
                    match rpm_of(clean) {
                        Some(rpm) => {
                            &&& r is Rpm && r->0 == rpm
                            &&& final(self).can_repeat
                            &&& final(self).stats == old(self).stats.with_success(
                                latency,
                                rpm as u32,
                            )
                        },
                        None => {
                            &&& r is Invalid
                            &&& final(self).can_repeat == old(self).can_repeat
                            &&& final(self).stats == old(self).stats.with_error()
                        },
                    }
                }
            }),
    {
        if value_is_cut(reply) {
            return Outcome::Unreadable;
        }
        match parse_rpm_response(reply) {
            Some(rpm) => {
                self.can_repeat = true;
                self.stats.record_success(latency, rpm);
                Outcome::Rpm(rpm)
            },
            None => {
                self.stats.record_error();
                Outcome::Invalid
            },
        }
    }
}

// ---------------------------------------------------------------------------
// Laws
// ---------------------------------------------------------------------------

/// The RPM is the number in the four digits behind `410C`, divided by four, whatever
/// stands behind them.
pub proof fn law_rpm_is_a_quarter_of_its_number(digits: Seq<u8>, rest: Seq<u8>)
    requires
        digits.len() == 4,
        all_hex(digits),
    ensures
        rpm_of(seq![0x34u8, 0x31, 0x30, 0x43] + digits + rest) == Some(
            ((hex_digit_value(digits[0]) * 4096 + hex_digit_value(digits[1]) * 256
                + hex_digit_value(digits[2]) * 16 + hex_digit_value(digits[3])) / 4) as nat,
        ),
{
    let clean = seq![0x34u8, 0x31, 0x30, 0x43] + digits + rest;
    assert(clean.take(4) =~= seq![DIGIT_4, DIGIT_1, DIGIT_0, UPPER_C]);
    assert(clean.subrange(4, 8) =~= digits);
    assert(is_hex_digit(digits[0]));
    assert(unsigned_part(digits) == digits);
    lemma_number_of_four(digits[0], digits[1], digits[2], digits[3]);
    assert(seq![digits[0], digits[1], digits[2], digits[3]] =~= digits);
}

/// A reply that does not start with `410C`, that is too short for four digits behind it,
/// or in which these are none, holds no RPM.
pub proof fn law_other_replies_hold_no_rpm(clean: Seq<u8>)
    ensures
        clean.len() < 8 ==> rpm_of(clean) is None,
        clean.len() >= 8 && (clean[0] != 0x34 || clean[1] != 0x31 || clean[2] != 0x30 || clean[3]
            != 0x43) ==> rpm_of(clean) is None,
        clean.len() >= 8 && !(is_hex_digit(clean[5]) && is_hex_digit(clean[6]) && is_hex_digit(
            clean[7],
        )) ==> rpm_of(clean) is None,
        clean.len() >= 8 && !is_hex_digit(clean[4]) && clean[4] != 0x2B ==> rpm_of(clean) is None,
{
    if clean.len() >= 8 {
        let digits = clean.subrange(4, 8);
        assert(digits[0] == clean[4] && digits[1] == clean[5]);
        assert(digits[2] == clean[6] && digits[3] == clean[7]);
        let front = clean.take(4);
        assert(front[0] == clean[0] && front[1] == clean[1]);
        assert(front[2] == clean[2] && front[3] == clean[3]);
        if parsed_hex(digits) is Some {
            let unsigned = unsigned_part(digits);
            let skipped: int = digits.len() - unsigned.len();
            assert(unsigned[1 - skipped] == clean[5]);
            assert(unsigned[2 - skipped] == clean[6]);
            assert(unsigned[3 - skipped] == clean[7]);
            if clean[4] != 0x2B {
                assert(unsigned[0] == clean[4]);
            }
        }
    }
}

/// All prompts at the end go, and nothing else.
pub proof fn law_prompts_are_taken_off(s: Seq<char>)
    ensures
        without_prompts(s.push('>')) == without_prompts(s),
        s.len() > 0 && s.last() != '>' ==> without_prompts(s) == s,
        without_prompts(s).is_prefix_of(s),
        without_prompts(s).len() > 0 ==> without_prompts(s).last() != '>',
        forall|i: int| without_prompts(s).len() <= i < s.len() ==> s[i] == '>',
    decreases s.len(),
{
    assert(s.push('>').drop_last() =~= s);
    assert(s.subrange(0, s.len() as int) =~= s);
    if s.len() > 0 && s.last() == '>' {
        let front = s.drop_last();
        law_prompts_are_taken_off(front);
        let clean = without_prompts(s);
        assert(front.subrange(0, clean.len() as int) =~= s.subrange(0, clean.len() as int));
        assert forall|i: int| clean.len() <= i < s.len() implies s[i] == '>' by {
            if i < front.len() {
                assert(front[i] == s[i]);
            }
        }
    }
}

/// An answered request counts once in the run and once in the interval, and its RPM is the
/// last one; a failed one counts as an error in both and changes no latency.
pub proof fn law_requests_are_counted(stats: Stats, latency: u128, rpm: u32)
    requires
        stats.requests < u64::MAX,
        stats.interval_requests < u64::MAX,
        stats.errors < u64::MAX,
        stats.interval_errors < u64::MAX,
        stats.total_latency + latency <= u128::MAX,
    ensures
        ({
            let after = stats.with_success(latency, rpm);
            &&& after.requests == stats.requests + 1
            &&& after.interval_requests == stats.interval_requests + 1
            &&& after.errors == stats.errors && after.interval_errors == stats.interval_errors
            &&& after.total_latency == stats.total_latency + latency
            &&& after.min_latency <= latency <= after.max_latency
            &&& after.min_latency == latency || after.min_latency == stats.min_latency
            &&& after.max_latency == latency || after.max_latency == stats.max_latency
            &&& after.min_latency <= stats.min_latency
            &&& after.max_latency >= stats.max_latency
            &&& after.last_rpm == Some(rpm)
            &&& after.interval_start == stats.interval_start
        }),
        ({
            let after = stats.with_error();
            &&& after.errors == stats.errors + 1
            &&& after.interval_errors == stats.interval_errors + 1
            &&& after.requests == stats.requests
            &&& after.interval_requests == stats.interval_requests
            &&& after.min_latency == stats.min_latency && after.max_latency == stats.max_latency
            &&& after.total_latency == stats.total_latency
            &&& after.last_rpm == stats.last_rpm
        }),
{
}

/// The total grows by each latency.
pub proof fn law_latencies_add_up(latencies: Seq<u128>, latency: u128)
    ensures
        total(Seq::empty()) == 0,
        total(latencies.push(latency)) == total(latencies) + latency,
{
    assert(latencies.push(latency).drop_last() =~= latencies);
}

} // verus!
