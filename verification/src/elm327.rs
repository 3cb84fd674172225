//! The ELM327 side of a client connection: settings, AT commands, and the
//! layout of answers.

use crate::text::{
    all_hex, chars_of, from_utf8, hex_digit_value, hex_number, is_hex, is_hex_digit,
    lemma_hex_number_bound, parse_hex, parsed_hex, same_text, starts_with, to_uppercase,
    unsigned_part, uppercase, SPACE,
};
use vstd::prelude::*;

verus! {

/// Per-connection client state (ELM327 settings).
#[derive(Debug, Clone)]
pub struct ClientState {
    /// Echo received characters back (ATE0/ATE1)
    pub echo_enabled: bool,
    /// Add linefeeds after carriage returns (ATL0/ATL1)
    pub linefeeds_enabled: bool,
    /// Print spaces between response bytes (ATS0/ATS1)
    pub spaces_enabled: bool,
    /// Show header bytes in responses (ATH0/ATH1)
    pub headers_enabled: bool,
    /// The last OBD2 command that was answered, for the repeat command
    pub last_obd_command: Option<String>,
}

impl ClientState {
    /// The settings of a fresh connection.
    pub open spec fn is_default(&self) -> bool {
        &&& self.echo_enabled
        &&& self.linefeeds_enabled
        &&& self.spaces_enabled
        &&& !self.headers_enabled
        &&& self.last_obd_command is None
    }
}

impl Default for ClientState {
    fn default() -> (r: Self)
        ensures
            r.is_default(),
    {
        ClientState {
            echo_enabled: true,
            linefeeds_enabled: true,
            spaces_enabled: true,
            headers_enabled: false,
            last_obd_command: None,
        }
    }
}

/// The line ending for a linefeed setting.
pub open spec fn line_end(linefeeds: bool) -> Seq<char> {
    if linefeeds {
        "\r\n"@
    } else {
        "\r"@
    }
}

/// A reply line followed by the prompt, as an ELM327 lays it out.
pub open spec fn prompt_reply(linefeeds: bool, text: Seq<char>) -> Seq<char> {
    line_end(linefeeds) + text + line_end(linefeeds) + ">"@
}

/// How many hexadecimal digits the bytes end in.
pub open spec fn trailing_hex(s: Seq<u8>) -> nat
    decreases s.len(),
{
    if s.len() > 0 && is_hex_digit(s.last()) {
        1 + trailing_hex(s.drop_last())
    } else {
        0
    }
}

/// The bytes with a space in front of every pair of hexadecimal digits but the
/// first of a run.
pub open spec fn spaced(s: Seq<u8>) -> Seq<u8>
    decreases s.len(),
{
    if s.len() == 0 {
        Seq::empty()
    } else {
        let before = trailing_hex(s.drop_last());
        if is_hex_digit(s.last()) && before > 0 && before % 2 == 0 {
            spaced(s.drop_last()).push(SPACE).push(s.last())
        } else {
            spaced(s.drop_last()).push(s.last())
        }
    }
}

/// A response as the client's space setting wants it.
pub open spec fn laid_out(spaces: bool, response: Seq<u8>) -> Seq<u8> {
    if spaces {
        spaced(response)
    } else {
        response
    }
}

/// The bytes that are not spaces.
pub open spec fn without_spaces(s: Seq<u8>) -> Seq<u8>
    decreases s.len(),
{
    if s.len() == 0 {
        Seq::empty()
    } else if s.last() == SPACE {
        without_spaces(s.drop_last())
    } else {
        without_spaces(s.drop_last()).push(s.last())
    }
}

/// What an AT command (in upper case) is answered with, `ATZ` and `AT@1`
/// included.
pub open spec fn at_answer(cmd: Seq<char>) -> Seq<char> {
    if cmd == "ATZ"@ || cmd == "ATI"@ {
        "ELM327 v1.5"@
    } else if cmd == "AT@1"@ {
        "ELM327"@
    } else if at_accepted(cmd) {
        "OK"@
    } else {
        "?"@
    }
}

/// An AT command (in upper case) that is answered with `OK`.
pub open spec fn at_accepted(cmd: Seq<char>) -> bool {
    ||| cmd == "ATE0"@
    ||| cmd == "ATE1"@
    ||| cmd == "ATL0"@
    ||| cmd == "ATL1"@
    ||| cmd == "ATS0"@
    ||| cmd == "ATS1"@
    ||| cmd == "ATH0"@
    ||| cmd == "ATH1"@
    ||| "ATSP"@.is_prefix_of(cmd)
    ||| "ATST"@.is_prefix_of(cmd)
    ||| "ATAT"@.is_prefix_of(cmd)
}

/// Whether an AT command (in upper case) is answered with `OK`.
pub(crate) fn is_at_accepted(cmd: &str) -> (r: bool)
    ensures
        r == at_accepted(cmd@),
{
    same_text(cmd, "ATE0") || same_text(cmd, "ATE1") || same_text(cmd, "ATL0") || same_text(
        cmd,
        "ATL1",
    ) || same_text(cmd, "ATS0") || same_text(cmd, "ATS1") || same_text(cmd, "ATH0") || same_text(
        cmd,
        "ATH1",
    ) || starts_with(cmd, "ATSP") || starts_with(cmd, "ATST") || starts_with(cmd, "ATAT")
}

/// A setting after a command: a reset restores its default, its own two
/// commands switch it, and any other leaves it alone.
pub open spec fn switched(
    cmd: Seq<char>,
    off: Seq<char>,
    on: Seq<char>,
    default: bool,
    before: bool,
) -> bool {
    if cmd == "ATZ"@ {
        default
    } else if cmd == off {
        false
    } else if cmd == on {
        true
    } else {
        before
    }
}

/// The four settings and the repeat command before and after an AT command (in
/// upper case).
pub open spec fn at_applied(cmd: Seq<char>, before: ClientState, after: ClientState) -> bool {
    &&& after.echo_enabled == switched(cmd, "ATE0"@, "ATE1"@, true, before.echo_enabled)
    &&& after.linefeeds_enabled == switched(cmd, "ATL0"@, "ATL1"@, true, before.linefeeds_enabled)
    &&& after.spaces_enabled == switched(cmd, "ATS0"@, "ATS1"@, true, before.spaces_enabled)
    &&& after.headers_enabled == switched(cmd, "ATH0"@, "ATH1"@, false, before.headers_enabled)
    &&& after.last_obd_command == if cmd == "ATZ"@ {
        None
    } else {
        before.last_obd_command
    }
}

/// What the commands that are told apart are made of.
proof fn lemma_at_commands_differ()
    ensures
        "ATZ"@.len() == 3 && "ATZ"@[2] == 'Z',
        "ATI"@.len() == 3 && "ATI"@[2] == 'I',
        "AT@1"@.len() == 4 && "AT@1"@[2] == '@',
        "ATE0"@.len() == 4 && "ATE0"@[2] == 'E' && "ATE0"@[3] == '0',
        "ATE1"@.len() == 4 && "ATE1"@[2] == 'E' && "ATE1"@[3] == '1',
        "ATL0"@.len() == 4 && "ATL0"@[2] == 'L' && "ATL0"@[3] == '0',
        "ATL1"@.len() == 4 && "ATL1"@[2] == 'L' && "ATL1"@[3] == '1',
        "ATS0"@.len() == 4 && "ATS0"@[2] == 'S' && "ATS0"@[3] == '0',
        "ATS1"@.len() == 4 && "ATS1"@[2] == 'S' && "ATS1"@[3] == '1',
        "ATH0"@.len() == 4 && "ATH0"@[2] == 'H' && "ATH0"@[3] == '0',
        "ATH1"@.len() == 4 && "ATH1"@[2] == 'H' && "ATH1"@[3] == '1',
        "ATSP"@.len() == 4 && "ATSP"@[2] == 'S' && "ATSP"@[3] == 'P',
        "ATST"@.len() == 4 && "ATST"@[2] == 'S' && "ATST"@[3] == 'T',
        "ATAT"@.len() == 4 && "ATAT"@[2] == 'A' && "ATAT"@[3] == 'T',
{
    reveal_strlit("ATZ");
    reveal_strlit("ATI");
    reveal_strlit("AT@1");
    reveal_strlit("ATE0");
    reveal_strlit("ATE1");
    reveal_strlit("ATL0");
    reveal_strlit("ATL1");
    reveal_strlit("ATS0");
    reveal_strlit("ATS1");
    reveal_strlit("ATH0");
    reveal_strlit("ATH1");
    reveal_strlit("ATSP");
    reveal_strlit("ATST");
    reveal_strlit("ATAT");
}

/// A text between two line endings, then the prompt.
pub(crate) fn reply_line(le: &str, text: &str) -> (r: String)
    ensures
        r@ == le@ + text@ + le@ + ">"@,
{
    let mut reply: String = String::new();
    reply.push_str(le);
    reply.push_str(text);
    reply.push_str(le);
    reply.push_str(">");
    assert(reply@ =~= le@ + text@ + le@ + ">"@);
    reply
}

impl ClientState {
    /// Create a new client state with default settings
    pub fn new() -> (r: Self)
        ensures
            r.is_default(),
    {
        ClientState::default()
    }

    /// Format a line ending based on current settings
    pub fn line_ending(&self) -> (r: &'static str)
        ensures
            r@ == line_end(self.linefeeds_enabled),
    {
        if self.linefeeds_enabled {
            "\r\n"
        } else {
            "\r"
        }
    }

    /// Format a dongle response according to client settings
    /// The dongle sends compact hex (no spaces), so we add spaces if enabled
    pub fn format_response(&self, response: &[u8]) -> (r: Vec<u8>)
        ensures
            r@ == laid_out(self.spaces_enabled, response@),
    {
        let mut result: Vec<u8> = Vec::new();
        let mut even: bool = true;
        let mut in_run: bool = false;
        let mut i: usize = 0;
        while i < response.len()
            invariant
                i <= response@.len(),
                result@ == laid_out(self.spaces_enabled, response@.take(i as int)),
                in_run == (trailing_hex(response@.take(i as int)) > 0),
                even == (trailing_hex(response@.take(i as int)) % 2 == 0),
            decreases response@.len() - i,
        {
            let byte: u8 = response[i];
            assert(response@.take(i + 1).drop_last() =~= response@.take(i as int));
            if is_hex(byte) {
                if self.spaces_enabled && in_run && even {
                    result.push(SPACE);
                }
                in_run = true;
                even = !even;
            } else {
                in_run = false;
                even = true;
            }
            result.push(byte);
            assert(response@.take(i + 1) =~= response@.take(i as int).push(byte));
            i = i + 1;
        }
        assert(response@.take(i as int) =~= response@);
        result
    }

    /// Handle an AT command and return the response
    /// Mutates the state if the command changes settings
    ///
    /// Line endings follow the settings as they were, except that a reset
    /// already answers with the default ones.
    pub fn handle_at_command(&mut self, command: &str) -> (r: String)
        ensures
            at_applied(uppercase(command@), *old(self), *final(self)),
            r@ == prompt_reply(
                uppercase(command@) == "ATZ"@ || old(self).linefeeds_enabled,
                at_answer(uppercase(command@)),
            ),
    {
        let cmd: String = to_uppercase(command);
        self.apply_at_command(cmd.as_str())
    }

    /// Handle an AT command that is already in upper case.
    pub fn apply_at_command(&mut self, cmd: &str) -> (r: String)
        ensures
            at_applied(cmd@, *old(self), *final(self)),
            r@ == prompt_reply(cmd@ == "ATZ"@ || old(self).linefeeds_enabled, at_answer(cmd@)),
    {
        proof {
            lemma_at_commands_differ();
        }
        let le: &str = self.line_ending();
        if same_text(cmd, "ATZ") {
            *self = ClientState::default();
            let fresh: &str = self.line_ending();
            return reply_line(fresh, "ELM327 v1.5");
        }
        if same_text(cmd, "ATE0") {
            self.echo_enabled = false;
        } else if same_text(cmd, "ATE1") {
            self.echo_enabled = true;
        } else if same_text(cmd, "ATL0") {
            self.linefeeds_enabled = false;
        } else if same_text(cmd, "ATL1") {
            self.linefeeds_enabled = true;
        } else if same_text(cmd, "ATS0") {
            self.spaces_enabled = false;
        } else if same_text(cmd, "ATS1") {
            self.spaces_enabled = true;
        } else if same_text(cmd, "ATH0") {
            self.headers_enabled = false;
        } else if same_text(cmd, "ATH1") {
            self.headers_enabled = true;
        }
        assert("ATSP"@.is_prefix_of(cmd@) ==> cmd@[2] == 'S' && cmd@[3] == 'P');
        assert("ATST"@.is_prefix_of(cmd@) ==> cmd@[2] == 'S' && cmd@[3] == 'T');
        assert("ATAT"@.is_prefix_of(cmd@) ==> cmd@[2] == 'A' && cmd@[3] == 'T');
        if is_at_accepted(cmd) {
            return reply_line(le, "OK");
        }
        if same_text(cmd, "ATI") {
            return reply_line(le, "ELM327 v1.5");
        }
        if same_text(cmd, "AT@1") {
            return self.device_description();
        }
        reply_line(le, "?")
    }

    /// The device description for AT@1
    pub fn device_description(&self) -> (r: String)
        ensures
            r@ == prompt_reply(self.linefeeds_enabled, "ELM327"@),
    {
        reply_line(self.line_ending(), "ELM327")
    }
}

// ---------------------------------------------------------------------------
// RPM
// ---------------------------------------------------------------------------

/// The text behind the first occurrence of a part.
pub open spec fn after_first(s: Seq<char>, part: Seq<char>) -> Option<Seq<char>>
    decreases s.len(),
{
    if part.is_prefix_of(s) {
        Some(s.skip(part.len() as int))
    } else if s.len() == 0 {
        None
    } else {
        after_first(s.drop_first(), part)
    }
}

/// The text behind the RPM header: the first one written `410C`, else the first
/// one written `41 0C`.
pub open spec fn after_rpm_header(s: Seq<char>) -> Option<Seq<char>> {
    match after_first(s, "410C"@) {
        Some(rest) => Some(rest),
        None => after_first(s, "41 0C"@),
    }
}

/// The hexadecimal digits in a text, as bytes.
pub open spec fn hex_digits_in(s: Seq<char>) -> Seq<u8>
    decreases s.len(),
{
    if s.len() == 0 {
        Seq::empty()
    } else if (s.last() as u32) < 0x80 && is_hex_digit(s.last() as u8) {
        hex_digits_in(s.drop_last()).push(s.last() as u8)
    } else {
        hex_digits_in(s.drop_last())
    }
}

/// The RPM that a text (in upper case) reports: a quarter of the 16-bit number
/// in the first four digits behind the header.
pub open spec fn rpm_in(text: Seq<char>) -> Option<nat> {
    match after_rpm_header(text) {
        Some(rest) => {
            let digits = hex_digits_in(rest);
            if digits.len() >= 4 {
                Some(hex_number(digits.take(4)) / 4)
            } else {
                None
            }
        },
        None => None,
    }
}

/// The hexadecimal digits in a text only grow with the text.
proof fn lemma_hex_digits_monotonic(s: Seq<char>, n: int)
    requires
        0 <= n <= s.len(),
    ensures
        hex_digits_in(s.take(n)).is_prefix_of(hex_digits_in(s)),
        all_hex(hex_digits_in(s)),
    decreases s.len() - n,
{
    if n < s.len() {
        lemma_hex_digits_monotonic(s, n + 1);
        assert(s.take(n + 1).drop_last() =~= s.take(n));
    } else {
        assert(s.take(n) =~= s);
        lemma_all_hex_digits(s);
    }
}

proof fn lemma_all_hex_digits(s: Seq<char>)
    ensures
        all_hex(hex_digits_in(s)),
    decreases s.len(),
{
    if s.len() > 0 {
        lemma_all_hex_digits(s.drop_last());
    }
}

fn chars_start_with(s: &[char], at: usize, prefix: &[char]) -> (r: bool)
    requires
        at <= s@.len(),
    ensures
        r == prefix@.is_prefix_of(s@.skip(at as int)),
{
    let n: usize = s.len();
    if prefix.len() > n - at {
        return false;
    }
    let mut i: usize = 0;
    while i < prefix.len()
        invariant
            n == s@.len(),
            i <= prefix@.len() <= n - at,
            at <= s@.len(),
            forall|j: int| 0 <= j < i ==> prefix@[j] == s@[at + j],
        decreases prefix@.len() - i,
    {
        if prefix[i] != s[at + i] {
            assert(s@.skip(at as int).take(prefix@.len() as int)[i as int] != prefix@[i as int]);
            return false;
        }
        i = i + 1;
    }
    assert(prefix@ =~= s@.skip(at as int).subrange(0, prefix@.len() as int));
    true
}

/// The position behind the first occurrence of a part.
fn find_after(s: &[char], part: &[char]) -> (r: Option<usize>)
    ensures
        match r {
            Some(from) => from <= s@.len() && after_first(s@, part@) == Some(s@.skip(from as int)),
            None => after_first(s@, part@) is None,
        },
{
    let n: usize = s.len();
    let mut at: usize = 0;
    assert(s@.skip(0) =~= s@);
    loop
        invariant
            at <= n == s@.len(),
            after_first(s@.skip(at as int), part@) == after_first(s@, part@),
        decreases s@.len() - at,
    {
        if chars_start_with(s, at, part) {
            assert(part@.len() <= s@.skip(at as int).len());
            let from: usize = at + part.len();
            assert(s@.skip(at as int).skip(part@.len() as int) =~= s@.skip(from as int));
            return Some(from);
        }
        if at == n {
            return None;
        }
        assert(s@.skip(at as int).drop_first() =~= s@.skip(at + 1));
        at = at + 1;
    }
}

/// The RPM that a text (in upper case) reports.
pub fn rpm_in_text(text: &str) -> (r: Option<u32>)
    ensures
        match r {
            Some(rpm) => rpm_in(text@) == Some(rpm as nat),
            None => rpm_in(text@) is None,
        },
        r is Some ==> r->0 < 0x4000,
{
    let s: Vec<char> = chars_of(text);
    let compact: Vec<char> = chars_of("410C");
    let with_space: Vec<char> = chars_of("41 0C");
    let from: Option<usize> = match find_after(s.as_slice(), compact.as_slice()) {
        Some(from) => Some(from),
        None => find_after(s.as_slice(), with_space.as_slice()),
    };
    match from {
        Some(from) => rpm_after_header(s.as_slice(), from),
        None => None,
    }
}

/// The RPM in the first four hexadecimal digits from a position on.
fn rpm_after_header(s: &[char], from: usize) -> (r: Option<u32>)
    requires
        from <= s@.len(),
    ensures
        ({
            let digits = hex_digits_in(s@.skip(from as int));
            match r {
                Some(rpm) => digits.len() >= 4 && rpm == hex_number(digits.take(4)) / 4,
                None => digits.len() < 4,
            }
        }),
        r is Some ==> r->0 < 0x4000,
{
    let ghost rest = s@.skip(from as int);
    let mut digits: Vec<u8> = Vec::new();
    let mut i: usize = from;
    while i < s.len() && digits.len() < 4
        invariant
            from <= i <= s@.len(),
            rest == s@.skip(from as int),
            digits@ == hex_digits_in(rest.take(i - from)),
            digits@.len() <= 4,
        decreases s@.len() - i,
    {
        assert(rest.take(i - from + 1).drop_last() =~= rest.take(i - from));
        let c: char = s[i];
        if (c as u32) < 0x80 && is_hex(c as u8) {
            digits.push(c as u8);
        }
        i = i + 1;
    }
    proof {
        lemma_hex_digits_monotonic(rest, i - from);
        lemma_all_hex_digits(rest.take(i - from));
        if i == s@.len() {
            assert(rest.take(i - from) =~= rest);
        }
    }
    if digits.len() < 4 {
        return None;
    }
    let ghost all = hex_digits_in(rest);
    assert(all.take(4) =~= digits@);
    proof {
        lemma_hex_number_bound(digits@);
        assert(is_hex_digit(digits@[0]));
        assert(unsigned_part(digits@) == digits@);
    }
    match parse_hex(digits.as_slice()) {
        Some(value) => Some(value / 4),
        None => {
            assert(parsed_hex(digits@) is Some);
            None
        },
    }
}

/// Extract RPM from an OBD2 response
///
/// OBD2 response format for RPM (PID 0C): "41 0C XX XX" or "410CXX XX"
/// RPM = ((A * 256) + B) / 4
pub fn extract_rpm_from_response(data: &[u8]) -> (r: Option<u32>)
    ensures
        match r {
            Some(rpm) => vstd::utf8::valid_utf8(data@) && rpm_in(
                uppercase(vstd::utf8::decode_utf8(data@)),
            ) == Some(rpm as nat),
            None => !vstd::utf8::valid_utf8(data@) || rpm_in(
                uppercase(vstd::utf8::decode_utf8(data@)),
            ) is None,
        },
{
    match from_utf8(data) {
        None => None,
        Some(text) => {
            let upper: String = to_uppercase(text);
            rpm_in_text(upper.as_str())
        },
    }
}

// ---------------------------------------------------------------------------
// Laws
// ---------------------------------------------------------------------------

/// Whatever the space setting, a client that ignores spaces reads the same
/// response.
pub proof fn law_layout_only_adds_spaces(spaces: bool, response: Seq<u8>)
    ensures
        without_spaces(laid_out(spaces, response)) == without_spaces(response),
    decreases response.len(),
{
    if spaces && response.len() > 0 {
        law_layout_only_adds_spaces(spaces, response.drop_last());
        let front = spaced(response.drop_last());
        let b = response.last();
        assert(front.push(SPACE).push(b).drop_last() =~= front.push(SPACE));
        assert(front.push(SPACE).drop_last() =~= front);
        assert(front.push(b).drop_last() =~= front);
        assert(without_spaces(front.push(SPACE)) == without_spaces(front));
    }
}

/// How many digits laid out bytes end in: one or two for a run of them.
proof fn lemma_trailing_hex_of_spaced(s: Seq<u8>)
    ensures
        trailing_hex(spaced(s)) == if trailing_hex(s) == 0 {
            0
        } else if trailing_hex(s) % 2 == 1 {
            1nat
        } else {
            2
        },
    decreases s.len(),
{
    if s.len() > 0 {
        let front = s.drop_last();
        let b = s.last();
        lemma_trailing_hex_of_spaced(front);
        assert(spaced(front).push(b).drop_last() =~= spaced(front));
        assert(spaced(front).push(SPACE).drop_last() =~= spaced(front));
        assert(spaced(front).push(SPACE).push(b).drop_last() =~= spaced(front).push(SPACE));
        assert(trailing_hex(spaced(front).push(SPACE)) == 0);
    }
}

/// Laying a response out is done once: a response that is laid out stays as it
/// is.
pub proof fn law_layout_is_final(spaces: bool, response: Seq<u8>)
    ensures
        laid_out(spaces, laid_out(spaces, response)) == laid_out(spaces, response),
    decreases response.len(),
{
    if spaces && response.len() > 0 {
        let front = response.drop_last();
        let b = response.last();
        law_layout_is_final(spaces, front);
        lemma_trailing_hex_of_spaced(front);
        assert(spaced(front).push(b).drop_last() =~= spaced(front));
        assert(spaced(front).push(SPACE).drop_last() =~= spaced(front));
        assert(spaced(front).push(SPACE).push(b).drop_last() =~= spaced(front).push(SPACE));
        assert(spaced(spaced(front).push(SPACE)) == spaced(front).push(SPACE));
    }
}

/// A reset makes any state a fresh one.
pub proof fn law_reset_restores_defaults(before: ClientState, after: ClientState)
    requires
        at_applied("ATZ"@, before, after),
    ensures
        after.is_default(),
{
}

/// Each pair of commands switches its own setting and leaves the other three,
/// and the repeat command, as they were.
pub proof fn law_settings_are_independent(cmd: Seq<char>, before: ClientState, after: ClientState)
    requires
        at_applied(cmd, before, after),
        cmd != "ATZ"@,
    ensures
        cmd != "ATE0"@ && cmd != "ATE1"@ ==> after.echo_enabled == before.echo_enabled,
        cmd != "ATL0"@ && cmd != "ATL1"@ ==> after.linefeeds_enabled == before.linefeeds_enabled,
        cmd != "ATS0"@ && cmd != "ATS1"@ ==> after.spaces_enabled == before.spaces_enabled,
        cmd != "ATH0"@ && cmd != "ATH1"@ ==> after.headers_enabled == before.headers_enabled,
        after.last_obd_command == before.last_obd_command,
{
}

/// A command that switches a setting, or that begins like one that sets a protocol,
/// a timeout or adaptive timing, is answered with `OK`.
pub proof fn law_known_commands_are_accepted(cmd: Seq<char>)
    requires
        cmd == seq!['A', 'T', 'E', '0'] || cmd == seq!['A', 'T', 'E', '1'] || cmd == seq![
            'A',
            'T',
            'L',
            '0',
        ] || cmd == seq!['A', 'T', 'L', '1'] || cmd == seq!['A', 'T', 'S', '0'] || cmd == seq![
            'A',
            'T',
            'S',
            '1',
        ] || cmd == seq!['A', 'T', 'H', '0'] || cmd == seq!['A', 'T', 'H', '1'] || (cmd.len() >= 4
            && cmd[0] == 'A' && cmd[1] == 'T' && ((cmd[2] == 'S' && cmd[3] == 'P') || (cmd[2]
            == 'S' && cmd[3] == 'T') || (cmd[2] == 'A' && cmd[3] == 'T'))),
    ensures
        at_answer(cmd) == seq!['O', 'K'],
{
    lemma_at_commands_differ();
    reveal_strlit("OK");
    reveal_strlit("ATSP");
    reveal_strlit("ATST");
    reveal_strlit("ATAT");
    reveal_strlit("ATE0");
    reveal_strlit("ATE1");
    reveal_strlit("ATL0");
    reveal_strlit("ATL1");
    reveal_strlit("ATS0");
    reveal_strlit("ATS1");
    reveal_strlit("ATH0");
    reveal_strlit("ATH1");
    assert("OK"@ =~= seq!['O', 'K']);
    if cmd[2] == 'E' && cmd[3] == '0' {
        assert(cmd =~= "ATE0"@);
    } else if cmd[2] == 'E' {
        assert(cmd =~= "ATE1"@);
    } else if cmd[2] == 'L' && cmd[3] == '0' {
        assert(cmd =~= "ATL0"@);
    } else if cmd[2] == 'L' {
        assert(cmd =~= "ATL1"@);
    } else if cmd[2] == 'H' && cmd[3] == '0' {
        assert(cmd =~= "ATH0"@);
    } else if cmd[2] == 'H' {
        assert(cmd =~= "ATH1"@);
    } else if cmd[2] == 'A' {
        assert("ATAT"@ =~= cmd.subrange(0, 4));
        assert("ATAT"@.is_prefix_of(cmd));
    } else if cmd[3] == 'P' {
        assert("ATSP"@ =~= cmd.subrange(0, 4));
        assert("ATSP"@.is_prefix_of(cmd));
    } else if cmd[3] == 'T' {
        assert("ATST"@ =~= cmd.subrange(0, 4));
        assert("ATST"@.is_prefix_of(cmd));
    } else if cmd[3] == '0' {
        assert(cmd =~= "ATS0"@);
    } else {
        assert(cmd =~= "ATS1"@);
    }
}

/// Only these commands are accepted: one whose third letter is none of theirs is
/// answered with a question mark, unless it asks for the version or the name.
pub proof fn law_unknown_commands_are_refused(cmd: Seq<char>)
    requires
        cmd.len() < 3 || (cmd[2] != 'E' && cmd[2] != 'L' && cmd[2] != 'S' && cmd[2] != 'H' && cmd[2]
            != 'A' && cmd[2] != 'Z' && cmd[2] != 'I' && cmd[2] != '@'),
    ensures
        at_answer(cmd) == seq!['?'],
{
    lemma_at_commands_differ();
    reveal_strlit("?");
    assert("?"@ =~= seq!['?']);
    assert("ATSP"@.is_prefix_of(cmd) ==> cmd[2] == "ATSP"@[2]);
    assert("ATST"@.is_prefix_of(cmd) ==> cmd[2] == "ATST"@[2]);
    assert("ATAT"@.is_prefix_of(cmd) ==> cmd[2] == "ATAT"@[2]);
}

/// A reset and a request for the version are answered with the version, and a
/// request for the name with the name.
pub proof fn law_version_and_name(cmd: Seq<char>)
    ensures
        cmd == seq!['A', 'T', 'Z'] || cmd == seq!['A', 'T', 'I'] ==> at_answer(cmd) == seq![
            'E',
            'L',
            'M',
            '3',
            '2',
            '7',
            ' ',
            'v',
            '1',
            '.',
            '5',
        ],
        cmd == seq!['A', 'T', '@', '1'] ==> at_answer(cmd) == seq!['E', 'L', 'M', '3', '2', '7'],
{
    reveal_strlit("ATZ");
    reveal_strlit("ATI");
    reveal_strlit("AT@1");
    reveal_strlit("ELM327 v1.5");
    reveal_strlit("ELM327");
    assert("ATZ"@ =~= seq!['A', 'T', 'Z']);
    assert("ATI"@ =~= seq!['A', 'T', 'I']);
    assert("AT@1"@ =~= seq!['A', 'T', '@', '1']);
    assert("ELM327"@ =~= seq!['E', 'L', 'M', '3', '2', '7']);
    assert("ELM327 v1.5"@ =~= seq!['E', 'L', 'M', '3', '2', '7', ' ', 'v', '1', '.', '5']);
}

/// Each command with a digit switches the setting of its letter, off with `0` and on
/// with `1`, and a reset switches all but the headers on.
pub proof fn law_commands_switch_settings(
    letter: char,
    on: bool,
    before: ClientState,
    after: ClientState,
)
    requires
        at_applied(
            seq![
                'A',
                'T',
                letter,
                if on {
                    '1'
                } else {
                    '0'
                },
            ],
            before,
            after,
        ),
    ensures
        after.echo_enabled == if letter == 'E' {
            on
        } else {
            before.echo_enabled
        },
        after.linefeeds_enabled == if letter == 'L' {
            on
        } else {
            before.linefeeds_enabled
        },
        after.spaces_enabled == if letter == 'S' {
            on
        } else {
            before.spaces_enabled
        },
        after.headers_enabled == if letter == 'H' {
            on
        } else {
            before.headers_enabled
        },
        after.last_obd_command == before.last_obd_command,
{
    lemma_at_commands_differ();
    reveal_strlit("ATE0");
    reveal_strlit("ATE1");
    reveal_strlit("ATL0");
    reveal_strlit("ATL1");
    reveal_strlit("ATS0");
    reveal_strlit("ATS1");
    reveal_strlit("ATH0");
    reveal_strlit("ATH1");
    assert("ATE0"@ =~= seq!['A', 'T', 'E', '0']);
    assert("ATE1"@ =~= seq!['A', 'T', 'E', '1']);
    assert("ATL0"@ =~= seq!['A', 'T', 'L', '0']);
    assert("ATL1"@ =~= seq!['A', 'T', 'L', '1']);
    assert("ATS0"@ =~= seq!['A', 'T', 'S', '0']);
    assert("ATS1"@ =~= seq!['A', 'T', 'S', '1']);
    assert("ATH0"@ =~= seq!['A', 'T', 'H', '0']);
    assert("ATH1"@ =~= seq!['A', 'T', 'H', '1']);
}

/// A fresh client sees echo, linefeeds and spaces but no headers, and has nothing to
/// repeat; a reset brings any client back to that.
pub proof fn law_fresh_client(fresh: ClientState, before: ClientState, reset: ClientState)
    requires
        fresh.is_default(),
        at_applied(seq!['A', 'T', 'Z'], before, reset),
    ensures
        fresh.echo_enabled && fresh.linefeeds_enabled && fresh.spaces_enabled,
        !fresh.headers_enabled,
        fresh.last_obd_command is None,
        reset.echo_enabled && reset.linefeeds_enabled && reset.spaces_enabled,
        !reset.headers_enabled,
        reset.last_obd_command is None,
{
    reveal_strlit("ATZ");
    assert("ATZ"@ =~= seq!['A', 'T', 'Z']);
}

/// A reply stands on a line of its own and ends with the prompt: a carriage return,
/// with a linefeed if the client wants them, stands before and behind it.
pub proof fn law_reply_stands_on_its_line(text: Seq<char>)
    ensures
        prompt_reply(false, text) == seq!['\r'] + text + seq!['\r', '>'],
        prompt_reply(true, text) == seq!['\r', '\n'] + text + seq!['\r', '\n', '>'],
{
    reveal_strlit("\r");
    reveal_strlit("\r\n");
    reveal_strlit(">");
    assert(prompt_reply(false, text) =~= seq!['\r'] + text + seq!['\r', '>']);
    assert(prompt_reply(true, text) =~= seq!['\r', '\n'] + text + seq!['\r', '\n', '>']);
}

/// A run of hexadecimal digits is laid out byte by byte: two digits, a space, two
/// digits, and so on; without spaces it stays as it is.
pub proof fn law_layout_separates_bytes(digits: Seq<u8>)
    requires
        digits.len() > 0,
        forall|i: int| 0 <= i < digits.len() ==> is_hex_digit(#[trigger] digits[i]),
    ensures
        laid_out(false, digits) == digits,
        laid_out(true, digits).len() == digits.len() + (digits.len() - 1) / 2,
        forall|i: int|
            0 <= i < digits.len() ==> laid_out(true, digits)[i + i / 2] == #[trigger] digits[i],
        forall|i: int|
            1 <= i && 2 * i < digits.len() ==> #[trigger] laid_out(true, digits)[3 * i - 1] == 0x20,
        trailing_hex(digits) == digits.len(),
    decreases digits.len(),
{
    let front = digits.drop_last();
    let n = digits.len() as int;
    if n > 1 {
        assert forall|i: int| 0 <= i < front.len() implies is_hex_digit(#[trigger] front[i]) by {
            assert(front[i] == digits[i]);
        }
        law_layout_separates_bytes(front);
        let before = spaced(front);
        let out = spaced(digits);
        assert forall|i: int| 0 <= i < n implies out[i + i / 2] == #[trigger] digits[i] by {
            if i < n - 1 {
                assert(front[i] == digits[i]);
                assert(before[i + i / 2] == front[i]);
            }
        }
        assert forall|i: int| 1 <= i && 2 * i < n implies #[trigger] out[3 * i - 1] == 0x20 by {
            if 2 * i < n - 1 {
                assert(before[3 * i - 1] == 0x20);
            }
        }
    } else {
        assert(front =~= Seq::empty());
        assert(spaced(front) =~= Seq::empty());
    }
}

/// What is not a digit stands as it is and parts the runs: the text before it and the
/// text behind it are laid out each by itself.
pub proof fn law_runs_are_laid_out_apart(before: Seq<u8>, other: u8, behind: Seq<u8>)
    requires
        !is_hex_digit(other),
    ensures
        laid_out(true, before.push(other) + behind) == laid_out(true, before).push(other)
            + laid_out(true, behind),
        trailing_hex(before.push(other) + behind) == trailing_hex(behind),
    decreases behind.len(),
{
    let whole = before.push(other) + behind;
    if behind.len() == 0 {
        assert(whole =~= before.push(other));
        assert(whole.drop_last() =~= before);
        assert(spaced(before).push(other) + spaced(behind) =~= spaced(before).push(other));
    } else {
        let front = behind.drop_last();
        law_runs_are_laid_out_apart(before, other, front);
        assert(whole.drop_last() =~= before.push(other) + front);
        let head = spaced(before).push(other);
        let b = behind.last();
        assert((head + spaced(front)).push(b) =~= head + spaced(front).push(b));
        assert((head + spaced(front)).push(SPACE).push(b) =~= head + spaced(front).push(SPACE).push(
            b,
        ));
    }
}

proof fn lemma_after_first(text: Seq<char>, part: Seq<char>, p: int)
    requires
        0 <= p,
        p + part.len() <= text.len(),
        text.subrange(p, p + part.len()) == part,
        forall|q: int|
            0 <= q < p ==> #[trigger] text.subrange(q, q + part.len()) != part,
    ensures
        after_first(text, part) == Some(text.skip(p + part.len())),
    decreases p,
{
    if p == 0 {
        assert(part =~= text.subrange(0, part.len() as int));
        assert(part.is_prefix_of(text));
    } else {
        assert(text.subrange(0int, 0int + part.len()) != part);
        assert(!part.is_prefix_of(text));
        let rest = text.drop_first();
        assert(rest.subrange(p - 1, p - 1 + part.len()) =~= text.subrange(p, p + part.len()));
        assert forall|q: int| 0 <= q < p - 1 implies #[trigger] rest.subrange(q, q + part.len())
            != part by {
            assert(rest.subrange(q, q + part.len()) =~= text.subrange(q + 1, q + 1 + part.len()));
        }
        lemma_after_first(rest, part, p - 1);
        assert(rest.skip(p - 1 + part.len()) =~= text.skip(p + part.len()));
    }
}

proof fn lemma_not_found(text: Seq<char>, part: Seq<char>)
    requires
        part.len() > 0,
        forall|q: int|
            0 <= q <= text.len() - part.len() ==> #[trigger] text.subrange(q, q + part.len())
                != part,
    ensures
        after_first(text, part) is None,
    decreases text.len(),
{
    if part.is_prefix_of(text) {
        assert(text.subrange(0int, 0int + part.len()) =~= part);
    }
    if text.len() > 0 {
        let rest = text.drop_first();
        assert forall|q: int| 0 <= q <= rest.len() - part.len() implies #[trigger] rest.subrange(
            q,
            q + part.len(),
        ) != part by {
            assert(rest.subrange(q, q + part.len()) =~= text.subrange(q + 1, q + 1 + part.len()));
        }
        lemma_not_found(rest, part);
    }
}

/// A character is the upper-case hexadecimal digit of a value.
pub open spec fn is_digit_of(c: char, value: nat) -> bool {
    c as u32 == if value < 10 {
        0x30 + value as int
    } else {
        0x41 + value - 10
    }
}

proof fn lemma_digit_of(c: char, value: nat)
    requires
        value < 16,
        is_digit_of(c, value),
    ensures
        (c as u32) < 0x80,
        is_hex_digit(c as u8),
        hex_digit_value(c as u8) == value,
{
}

pub(crate) proof fn lemma_number_of_four(a: u8, b: u8, c: u8, d: u8)
    ensures
        hex_number(seq![a, b, c, d]) == hex_digit_value(a) * 4096 + hex_digit_value(b) * 256
            + hex_digit_value(c) * 16 + hex_digit_value(d),
{
    reveal_with_fuel(hex_number, 5);
    assert(seq![a, b, c, d].drop_last() =~= seq![a, b, c]);
    assert(seq![a, b, c].drop_last() =~= seq![a, b]);
    assert(seq![a, b].drop_last() =~= seq![a]);
    assert(seq![a].drop_last() =~= Seq::<u8>::empty());
}

proof fn lemma_parts_of_number(n: nat)
    requires
        n < 0x1_0000,
    ensures
        n == (n / 4096) * 4096 + ((n / 256) % 16) * 256 + ((n / 16) % 16) * 16 + n % 16,
        n / 4096 < 16,
{
}

proof fn lemma_four_digits(rest: Seq<char>, n: nat, a: int, b: int, c: int, d: int)
    requires
        0 <= a < b < c < d < rest.len(),
        n < 0x1_0000,
        is_digit_of(rest[a], n / 4096),
        is_digit_of(rest[b], (n / 256) % 16),
        is_digit_of(rest[c], (n / 16) % 16),
        is_digit_of(rest[d], n % 16),
        forall|i: int|
            0 <= i < d && i != a && i != b && i != c ==> (#[trigger] rest[i]) == ' ',
    ensures
        hex_digits_in(rest).len() >= 4,
        hex_number(hex_digits_in(rest).take(4)) == n,
{
    lemma_parts_of_number(n);
    lemma_digit_of(rest[a], n / 4096);
    lemma_digit_of(rest[b], (n / 256) % 16);
    lemma_digit_of(rest[c], (n / 16) % 16);
    lemma_digit_of(rest[d], n % 16);
    lemma_digits_of_head(rest, d + 1, a, b, c, d);
    lemma_hex_digits_monotonic(rest, d + 1);
    lemma_number_of_four(rest[a] as u8, rest[b] as u8, rest[c] as u8, rest[d] as u8);
    assert(hex_digits_in(rest).take(4) =~= seq![
        rest[a] as u8,
        rest[b] as u8,
        rest[c] as u8,
        rest[d] as u8,
    ]);
}

proof fn lemma_digits_of_head(rest: Seq<char>, n: int, a: int, b: int, c: int, d: int)
    requires
        0 <= a < b < c < d < rest.len(),
        0 <= n <= d + 1,
        forall|i: int|
            0 <= i <= d ==> if i == a || i == b || i == c || i == d {
                (#[trigger] rest[i] as u32) < 0x80 && is_hex_digit(rest[i] as u8)
            } else {
                rest[i] == ' '
            },
    ensures
        hex_digits_in(rest.take(n)) == (if n <= a {
            Seq::<u8>::empty()
        } else if n <= b {
            seq![rest[a] as u8]
        } else if n <= c {
            seq![rest[a] as u8, rest[b] as u8]
        } else if n <= d {
            seq![rest[a] as u8, rest[b] as u8, rest[c] as u8]
        } else {
            seq![rest[a] as u8, rest[b] as u8, rest[c] as u8, rest[d] as u8]
        }),
    decreases n,
{
    if n > 0 {
        lemma_digits_of_head(rest, n - 1, a, b, c, d);
        assert(rest.take(n).drop_last() =~= rest.take(n - 1));
        assert(rest.take(n).last() == rest[n - 1]);
    }
}

/// The RPM reads back from an answer: behind the first `410C` stand four digits for
/// four times the RPM, with or without a space between the bytes.
pub proof fn law_rpm_in_answer_reads_back(text: Seq<char>, p: int, rpm: nat, gap: int)
    requires
        rpm < 16384,
        0 <= p,
        0 <= gap <= 1,
        p + 8 + gap <= text.len(),
        text.subrange(p, p + 4) == seq!['4', '1', '0', 'C'],
        forall|q: int|
            0 <= q < p ==> #[trigger] text.subrange(q, q + 4) != seq!['4', '1', '0', 'C'],
        is_digit_of(text[p + 4], (4 * rpm) / 4096),
        is_digit_of(text[p + 5], ((4 * rpm) / 256) % 16),
        gap == 1 ==> text[p + 6] == ' ',
        is_digit_of(text[p + 6 + gap], ((4 * rpm) / 16) % 16),
        is_digit_of(text[p + 7 + gap], (4 * rpm) % 16),
    ensures
        rpm_in(text) == Some(rpm),
{
    reveal_strlit("410C");
    assert("410C"@ =~= seq!['4', '1', '0', 'C']);
    lemma_after_first(text, "410C"@, p);
    lemma_four_digits(text.skip(p + 4), 4 * rpm, 0, 1, 2 + gap, 3 + gap);
}

/// The RPM reads back from an answer with spaces: there is no `410C`, and behind the
/// first `41 0C` stand a space and four digits for four times the RPM, with a space
/// between the bytes.
pub proof fn law_rpm_in_spaced_answer_reads_back(text: Seq<char>, p: int, rpm: nat)
    requires
        rpm < 16384,
        0 <= p,
        p + 11 <= text.len(),
        forall|q: int|
            0 <= q <= text.len() - 4 ==> #[trigger] text.subrange(q, q + 4) != seq![
                '4',
                '1',
                '0',
                'C',
            ],
        text.subrange(p, p + 5) == seq!['4', '1', ' ', '0', 'C'],
        forall|q: int|
            0 <= q < p ==> #[trigger] text.subrange(q, q + 5) != seq!['4', '1', ' ', '0', 'C'],
        text[p + 5] == ' ',
        is_digit_of(text[p + 6], (4 * rpm) / 4096),
        is_digit_of(text[p + 7], ((4 * rpm) / 256) % 16),
        text[p + 8] == ' ',
        is_digit_of(text[p + 9], ((4 * rpm) / 16) % 16),
        is_digit_of(text[p + 10], (4 * rpm) % 16),
    ensures
        rpm_in(text) == Some(rpm),
{
    reveal_strlit("410C");
    reveal_strlit("41 0C");
    assert("410C"@ =~= seq!['4', '1', '0', 'C']);
    assert("41 0C"@ =~= seq!['4', '1', ' ', '0', 'C']);
    lemma_not_found(text, "410C"@);
    lemma_after_first(text, "41 0C"@, p);
    lemma_four_digits(text.skip(p + 5), 4 * rpm, 1, 2, 4, 5);
}

/// A text without an RPM header reports no RPM.
pub proof fn law_no_header_no_rpm(text: Seq<char>)
    requires
        forall|q: int|
            0 <= q <= text.len() - 4 ==> #[trigger] text.subrange(q, q + 4) != seq![
                '4',
                '1',
                '0',
                'C',
            ],
        forall|q: int|
            0 <= q <= text.len() - 5 ==> #[trigger] text.subrange(q, q + 5) != seq![
                '4',
                '1',
                ' ',
                '0',
                'C',
            ],
    ensures
        rpm_in(text) is None,
{
    reveal_strlit("410C");
    reveal_strlit("41 0C");
    assert("410C"@ =~= seq!['4', '1', '0', 'C']);
    assert("41 0C"@ =~= seq!['4', '1', ' ', '0', 'C']);
    lemma_not_found(text, "410C"@);
    lemma_not_found(text, "41 0C"@);
}

/// The commands that are answered with OK are `AT` with one of the letters of a setting
/// and a zero or a one, and all that start with `ATSP`, `ATST` or `ATAT`; no others.
pub proof fn law_accepted_commands(cmd: Seq<char>)
    ensures
        at_accepted(cmd) <==> cmd.len() >= 4 && cmd[0] == 'A' && cmd[1] == 'T' && {
            ||| cmd.len() == 4 && (cmd[2] == 'E' || cmd[2] == 'L' || cmd[2] == 'S' || cmd[2] == 'H')
                && (cmd[3] == '0' || cmd[3] == '1')
            ||| cmd[2] == 'S' && (cmd[3] == 'P' || cmd[3] == 'T')
            ||| cmd[2] == 'A' && cmd[3] == 'T'
        },
{
    reveal_strlit("ATE0");
    reveal_strlit("ATE1");
    reveal_strlit("ATL0");
    reveal_strlit("ATL1");
    reveal_strlit("ATS0");
    reveal_strlit("ATS1");
    reveal_strlit("ATH0");
    reveal_strlit("ATH1");
    reveal_strlit("ATSP");
    reveal_strlit("ATST");
    reveal_strlit("ATAT");
    if cmd.len() == 4 {
        lemma_four_letters(cmd, "ATE0"@);
        lemma_four_letters(cmd, "ATE1"@);
        lemma_four_letters(cmd, "ATL0"@);
        lemma_four_letters(cmd, "ATL1"@);
        lemma_four_letters(cmd, "ATS0"@);
        lemma_four_letters(cmd, "ATS1"@);
        lemma_four_letters(cmd, "ATH0"@);
        lemma_four_letters(cmd, "ATH1"@);
    }
    if cmd.len() >= 4 {
        lemma_four_letters(cmd.take(4), "ATSP"@);
        lemma_four_letters(cmd.take(4), "ATST"@);
        lemma_four_letters(cmd.take(4), "ATAT"@);
        assert(cmd.take(4) =~= cmd.subrange(0, 4));
    }
}

proof fn lemma_four_letters(a: Seq<char>, b: Seq<char>)
    requires
        a.len() == 4,
        b.len() == 4,
    ensures
        a == b <==> a[0] == b[0] && a[1] == b[1] && a[2] == b[2] && a[3] == b[3],
{
    if a[0] == b[0] && a[1] == b[1] && a[2] == b[2] && a[3] == b[3] {
        assert(a =~= b);
    }
}

} // verus!
