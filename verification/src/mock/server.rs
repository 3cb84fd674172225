//! A mock ELM327 that keeps each client's settings.

use crate::benchmark::{cleaned, cuts_value, rpm_of, without_prompts};
use crate::elm327::{
    at_answer, at_applied, laid_out, line_end, prompt_reply, reply_line, spaced, ClientState,
};
use crate::obd2::proxy::CommandBuffer;
use crate::text::{
    bytes_of_ascii, chars_of, chars_of_bytes, from_utf8_lossy, hex_number, hex_numeral,
    is_whitespace, lemma_hex_numeral, push_hex_number, same_text, starts_with, text_of,
    to_uppercase, trim, trimmed, unsigned_part, uppercase, utf8_lossy, white_space,
    without_leading_space, without_trailing_space, zero_filled, CR, DIGIT_0, DIGIT_1, DIGIT_4, LF,
    PLUS, SPACE, UPPER_C,
};
use vstd::prelude::*;
use vstd::utf8::{encode_utf8, is_ascii_chars};

verus! {

// ---------------------------------------------------------------------------
// PIDs
// ---------------------------------------------------------------------------

/// The data of a PID, in upper case; the RPM's is what the engine turns at, times
/// four.
pub open spec fn pid_data(pid: Seq<char>, rpm_raw: u32) -> Option<Seq<char>> {
    if pid == "00"@ {
        Some("BE3FA813"@)
    } else if pid == "04"@ {
        Some("64"@)
    } else if pid == "05"@ {
        Some("4F"@)
    } else if pid == "0C"@ {
        Some(zero_filled(hex_numeral(rpm_raw as nat), 4))
    } else if pid == "0D"@ {
        Some("28"@)
    } else if pid == "0F"@ {
        Some("38"@)
    } else if pid == "11"@ {
        Some("45"@)
    } else if pid == "20"@ {
        Some("80000001"@)
    } else if pid == "40"@ {
        Some("FED08000"@)
    } else {
        None
    }
}

proof fn lemma_pid_data_is_ascii(pid: Seq<char>, rpm_raw: u32)
    ensures
        pid_data(pid, rpm_raw) is Some ==> is_ascii_chars(pid) && is_ascii_chars(
            pid_data(pid, rpm_raw)->0,
        ),
        pid_data(pid, rpm_raw) is Some ==> pid.len() == 2,
{
    reveal_strlit("00");
    reveal_strlit("04");
    reveal_strlit("05");
    reveal_strlit("0C");
    reveal_strlit("0D");
    reveal_strlit("0F");
    reveal_strlit("11");
    reveal_strlit("20");
    reveal_strlit("40");
    reveal_strlit("BE3FA813");
    reveal_strlit("64");
    reveal_strlit("4F");
    reveal_strlit("28");
    reveal_strlit("38");
    reveal_strlit("45");
    reveal_strlit("80000001");
    reveal_strlit("FED08000");
    lemma_hex_numeral(rpm_raw as nat);
}

/// The data of a PID.
pub fn get_pid_response(pid: &str, rpm_raw: u32) -> (r: Option<String>)
    ensures
        match r {
            Some(data) => pid_data(pid@, rpm_raw) == Some(data@),
            None => pid_data(pid@, rpm_raw) is None,
        },
{
    if same_text(pid, "00") {
        Some("BE3FA813".to_owned())
    } else if same_text(pid, "04") {
        Some("64".to_owned())
    } else if same_text(pid, "05") {
        Some("4F".to_owned())
    } else if same_text(pid, "0C") {
        let mut data: String = "".to_owned();
        proof {
            reveal_strlit("");
        }
        push_hex_number(&mut data, rpm_raw as u64, 4);
        assert(data@ =~= zero_filled(hex_numeral(rpm_raw as nat), 4));
        Some(data)
    } else if same_text(pid, "0D") {
        Some("28".to_owned())
    } else if same_text(pid, "0F") {
        Some("38".to_owned())
    } else if same_text(pid, "11") {
        Some("45".to_owned())
    } else if same_text(pid, "20") {
        Some("80000001".to_owned())
    } else if same_text(pid, "40") {
        Some("FED08000".to_owned())
    } else {
        None
    }
}

/// The characters up to the first white space.
pub open spec fn until_space(s: Seq<char>) -> Seq<char>
    decreases s.len(),
{
    if s.len() == 0 || white_space(s[0]) {
        Seq::empty()
    } else {
        seq![s[0]] + until_space(s.drop_first())
    }
}

/// The first word of a text; the text itself if it has none.
pub open spec fn first_word(s: Seq<char>) -> Seq<char> {
    let rest = without_leading_space(s);
    if rest.len() == 0 {
        s
    } else {
        until_space(rest)
    }
}

proof fn lemma_until_space(s: Seq<char>, n: int)
    requires
        0 <= n <= s.len(),
        forall|i: int| 0 <= i < n ==> !white_space(#[trigger] s[i]),
        n < s.len() ==> white_space(s[n]),
    ensures
        until_space(s) == s.take(n),
    decreases s.len(),
{
    if n == 0 {
        assert(s.take(0) =~= Seq::empty());
    } else {
        assert(!white_space(s[0]));
        let rest = s.drop_first();
        assert forall|i: int| 0 <= i < n - 1 implies !white_space(#[trigger] rest[i]) by {
            assert(rest[i] == s[i + 1]);
        }
        lemma_until_space(rest, n - 1);
        assert(s.take(n) =~= seq![s[0]] + rest.take(n - 1));
    }
}

fn take_first_word(s: &[char]) -> (r: Vec<char>)
    ensures
        r@ == first_word(s@),
{
    let mut from: usize = 0;
    assert(s@.skip(0) =~= s@);
    while from < s.len() && is_whitespace(s[from])
        invariant
            from <= s@.len(),
            without_leading_space(s@.skip(from as int)) == without_leading_space(s@),
        ensures
            from <= s@.len(),
            s@.skip(from as int) == without_leading_space(s@),
        decreases s@.len() - from,
    {
        assert(s@.skip(from as int).drop_first() =~= s@.skip(from + 1));
        from = from + 1;
    }
    let ghost rest = s@.skip(from as int);
    let mut out: Vec<char> = Vec::new();
    if from == s.len() {
        let mut i: usize = 0;
        while i < s.len()
            invariant
                i <= s@.len(),
                out@ == s@.take(i as int),
            decreases s@.len() - i,
        {
            out.push(s[i]);
            i = i + 1;
            assert(out@ =~= s@.take(i as int));
        }
        assert(s@.take(i as int) =~= s@);
        return out;
    }
    let mut to: usize = from;
    while to < s.len() && !is_whitespace(s[to])
        invariant
            from <= to <= s@.len(),
            rest == s@.skip(from as int),
            out@ == rest.take(to - from),
            forall|i: int| 0 <= i < to - from ==> !white_space(#[trigger] rest[i]),
        ensures
            from <= to <= s@.len(),
            out@ == rest.take(to - from),
            forall|i: int| 0 <= i < to - from ==> !white_space(#[trigger] rest[i]),
            to < s@.len() ==> white_space(rest[to - from]),
        decreases s@.len() - to,
    {
        out.push(s[to]);
        to = to + 1;
        assert(out@ =~= rest.take(to - from));
    }
    proof {
        lemma_until_space(rest, to - from);
    }
    out
}

/// The PIDs in the characters behind the service: one for each pair, in upper
/// case. An odd character at the end is left out.
pub open spec fn pids_in(s: Seq<char>) -> Seq<Seq<char>> {
    Seq::new(s.len() / 2, |i: int| uppercase(seq![s[2 * i], s[2 * i + 1]]))
}

/// Each PID followed by its data; None if one of them is unknown.
pub open spec fn pids_data(pids: Seq<Seq<char>>, rpm_raw: u32) -> Option<Seq<char>>
    decreases pids.len(),
{
    if pids.len() == 0 {
        Some(Seq::empty())
    } else {
        match (pids_data(pids.drop_last(), rpm_raw), pid_data(pids.last(), rpm_raw)) {
            (Some(front), Some(data)) => Some(front + pids.last() + data),
            _ => None,
        }
    }
}

proof fn lemma_unknown_pid(pids: Seq<Seq<char>>, n: int, rpm_raw: u32)
    requires
        0 <= n <= pids.len(),
        pids_data(pids.take(n), rpm_raw) is None,
    ensures
        pids_data(pids, rpm_raw) is None,
    decreases pids.len() - n,
{
    if n < pids.len() {
        assert(pids.take(n + 1).drop_last() =~= pids.take(n));
        lemma_unknown_pid(pids, n + 1, rpm_raw);
    } else {
        assert(pids.take(n) =~= pids);
    }
}

fn collect_pids(pid_chars: &[char], rpm_raw: u32) -> (r: Option<String>)
    ensures
        match r {
            Some(data) => pids_data(pids_in(pid_chars@), rpm_raw) == Some(data@) && is_ascii_chars(
                data@,
            ),
            None => pids_data(pids_in(pid_chars@), rpm_raw) is None,
        },
{
    let ghost pids = pids_in(pid_chars@);
    let total: usize = pid_chars.len();
    let mut response: String = "".to_owned();
    proof {
        reveal_strlit("");
    }
    let mut i: usize = 0;
    assert(pids.take(0) =~= Seq::empty());
    assert(response@ =~= Seq::empty());
    while i < total / 2
        invariant
            i <= total / 2,
            total == pid_chars@.len(),
            pids == pids_in(pid_chars@),
            pids_data(pids.take(i as int), rpm_raw) == Some(response@),
            is_ascii_chars(response@),
        decreases total / 2 - i,
    {
        let pair: [char; 2] = [pid_chars[2 * i], pid_chars[2 * i + 1]];
        assert(pair@ =~= seq![pid_chars@[2 * i], pid_chars@[2 * i + 1]]);
        let text: String = text_of(pair.as_slice());
        let pid: String = to_uppercase(text.as_str());
        let ghost upto = pids.take(i + 1);
        assert(upto.drop_last() =~= pids.take(i as int));
        assert(upto.last() == pid@);
        match get_pid_response(pid.as_str(), rpm_raw) {
            Some(data) => {
                proof {
                    lemma_pid_data_is_ascii(pid@, rpm_raw);
                }
                response.push_str(pid.as_str());
                response.push_str(data.as_str());
            },
            None => {
                proof {
                    lemma_unknown_pid(pids, i + 1, rpm_raw);
                }
                return None;
            },
        }
        i = i + 1;
    }
    assert(pids.take(i as int) =~= pids);
    Some(response)
}

// ---------------------------------------------------------------------------
// Commands
// ---------------------------------------------------------------------------

/// What a command finds out.
pub enum Finding {
    /// This text of hexadecimal digits
    Data(String),
    /// A PID is unknown
    NoData,
    /// The command is unknown
    Unknown,
}

/// What a command finds out, as text.
pub enum FindingText {
    /// This text of hexadecimal digits
    Data(Seq<char>),
    /// A PID is unknown
    NoData,
    /// The command is unknown
    Unknown,
}

impl View for Finding {
    type V = FindingText;

    open spec fn view(&self) -> FindingText {
        match self {
            Finding::Data(text) => FindingText::Data(text@),
            Finding::NoData => FindingText::NoData,
            Finding::Unknown => FindingText::Unknown,
        }
    }
}

/// The command asks for current data.
pub open spec fn asks_current_data(cmd: Seq<char>) -> bool {
    cmd.len() >= 2 && cmd.take(2) == "01"@ && encode_utf8(cmd).len() >= 4
}

/// What an OBD2 command finds out.
pub open spec fn found(cmd: Seq<char>, rpm_raw: u32) -> FindingText {
    if cmd == "03"@ {
        FindingText::Data("4300"@)
    } else if cmd == "0902"@ {
        FindingText::Data("490213455034353637383930"@)
    } else if asks_current_data(cmd) {
        match pids_data(pids_in(first_word(cmd.skip(2))), rpm_raw) {
            None => FindingText::NoData,
            Some(data) => if data.len() == 0 {
                FindingText::Unknown
            } else {
                FindingText::Data("41"@ + data)
            },
        }
    } else {
        FindingText::Unknown
    }
}

fn starts_current_data(cmd: &str) -> (r: bool)
    ensures
        r == asks_current_data(cmd@),
{
    proof {
        reveal_strlit("01");
    }
    let r = starts_with(cmd, "01");
    assert(r ==> cmd@.take(2) =~= "01"@);
    if !r {
        proof {
            if cmd@.len() >= 2 && cmd@.take(2) == "01"@ {
                assert(cmd@.subrange(0, 2) =~= "01"@);
            }
        }
        return false;
    }
    cmd.as_bytes().len() >= 4
}

/// Look up what an OBD2 command asks for.
pub fn find(cmd: &str, rpm_raw: u32) -> (r: Finding)
    ensures
        r@ == found(cmd@, rpm_raw),
        r is Data ==> is_ascii_chars(r->Data_0@),
{
    if same_text(cmd, "03") {
        proof {
            reveal_strlit("4300");
        }
        return Finding::Data("4300".to_owned());
    }
    if same_text(cmd, "0902") {
        proof {
            reveal_strlit("490213455034353637383930");
        }
        return Finding::Data("490213455034353637383930".to_owned());
    }
    if !starts_current_data(cmd) {
        return Finding::Unknown;
    }
    let chars: Vec<char> = chars_of(cmd);
    let behind: &[char] = vstd::slice::slice_subrange(chars.as_slice(), 2, chars.len());
    assert(behind@ =~= cmd@.skip(2));
    let word: Vec<char> = take_first_word(behind);
    match collect_pids(word.as_slice(), rpm_raw) {
        None => Finding::NoData,
        Some(data) => {
            if data.as_str().is_empty() {
                assert(data@.len() == 0);
                Finding::Unknown
            } else {
                let mut text: String = "41".to_owned();
                proof {
                    reveal_strlit("41");
                }
                text.push_str(data.as_str());
                Finding::Data(text)
            }
        },
    }
}

/// Data as a client sees it: in its layout, behind the engine's address and the
/// number of bytes if it wants headers.
pub open spec fn shown_data(data: Seq<char>, spaces: bool, headers: bool) -> Seq<char> {
    let text = chars_of_bytes(laid_out(spaces, bytes_of_ascii(data)));
    let length = zero_filled(hex_numeral((data.len() / 2) as nat), 2);
    if !headers {
        text
    } else if spaces {
        "7E8 "@ + length + " "@ + text
    } else {
        "7E8"@ + length + text
    }
}

/// The reply to a command in upper case.
pub open spec fn replied(cmd: Seq<char>, rpm_raw: u32, state: ClientState) -> Seq<char> {
    let le = line_end(state.linefeeds_enabled);
    if cmd.len() >= 2 && cmd.take(2) == "AT"@ {
        if cmd == "AT@1"@ {
            prompt_reply(state.linefeeds_enabled, "Mock ELM327"@)
        } else {
            prompt_reply(
                uppercase(cmd) == "ATZ"@ || state.linefeeds_enabled,
                at_answer(uppercase(cmd)),
            )
        }
    } else {
        match found(cmd, rpm_raw) {
            FindingText::NoData => "NO DATA"@ + le + le + ">"@,
            FindingText::Unknown => "?"@ + le + le + ">"@,
            FindingText::Data(data) => shown_data(
                data,
                state.spaces_enabled,
                state.headers_enabled,
            ) + le + le + ">"@,
        }
    }
}

fn closed(text: &str, le: &str) -> (r: String)
    ensures
        r@ == text@ + le@ + le@ + ">"@,
{
    let mut reply: String = text.to_owned();
    reply.push_str(le);
    reply.push_str(le);
    reply.push_str(">");
    reply
}

proof fn lemma_spaced_is_ascii(s: Seq<u8>)
    requires
        forall|i: int| 0 <= i < s.len() ==> #[trigger] s[i] < 0x80,
    ensures
        forall|i: int| 0 <= i < spaced(s).len() ==> #[trigger] spaced(s)[i] < 0x80,
    decreases s.len(),
{
    if s.len() > 0 {
        lemma_spaced_is_ascii(s.drop_last());
        let front = spaced(s.drop_last());
        let last = s[s.len() - 1];
        assert(spaced(s) == front.push(last) || spaced(s) == front.push(SPACE).push(last));
        assert forall|i: int| 0 <= i < spaced(s).len() implies #[trigger] spaced(s)[i] < 0x80 by {
            if i < front.len() {
                assert(spaced(s)[i] == front[i]);
            }
        }
    }
}

proof fn lemma_ascii_decodes(bytes: Seq<u8>)
    requires
        forall|i: int| 0 <= i < bytes.len() ==> #[trigger] bytes[i] < 0x80,
    ensures
        vstd::utf8::valid_utf8(bytes),
        vstd::utf8::decode_utf8(bytes) == chars_of_bytes(bytes),
{
    let chars = chars_of_bytes(bytes);
    assert(is_ascii_chars(chars));
    vstd::utf8::is_ascii_chars_encode_utf8(chars);
    assert forall|i: int| 0 <= i < bytes.len() implies encode_utf8(chars)[i] == bytes[i] by {
        assert(chars[i] as u8 == encode_utf8(chars)[i]);
        assert(chars[i] == bytes[i] as char);
    }
    assert(encode_utf8(chars) =~= bytes);
    vstd::utf8::encode_utf8_valid_utf8(chars);
    vstd::utf8::encode_utf8_decode_utf8(chars);
}

fn show_data(data: &str, state: &ClientState) -> (r: String)
    requires
        is_ascii_chars(data@),
    ensures
        r@ == shown_data(data@, state.spaces_enabled, state.headers_enabled),
{
    let bytes: &[u8] = data.as_bytes();
    let formatted: Vec<u8> = state.format_response(bytes);
    proof {
        vstd::utf8::is_ascii_chars_encode_utf8(data@);
        assert(bytes@ =~= bytes_of_ascii(data@));
        assert forall|i: int| 0 <= i < bytes@.len() implies #[trigger] bytes@[i] < 0x80 by {
            assert(data@[i] as u8 == bytes@[i]);
        }
        lemma_spaced_is_ascii(bytes@);
        lemma_ascii_decodes(formatted@);
    }
    let text: String = from_utf8_lossy(formatted.as_slice());
    if !state.headers_enabled {
        return text;
    }
    let mut out: String = "7E8".to_owned();
    if state.spaces_enabled {
        out = "7E8 ".to_owned();
    }
    push_hex_number(&mut out, (bytes.len() / 2) as u64, 2);
    if state.spaces_enabled {
        out.push_str(" ");
    }
    out.push_str(text.as_str());
    assert(out@ =~= shown_data(data@, state.spaces_enabled, state.headers_enabled));
    out
}

/// Process a command in upper case.
pub fn process_command(cmd: &str, rpm_raw: u32, state: &mut ClientState) -> (r: String)
    ensures
        r@ == replied(cmd@, rpm_raw, *old(state)),
        if cmd@.len() >= 2 && cmd@.take(2) == "AT"@ && cmd@ != "AT@1"@ {
            at_applied(uppercase(cmd@), *old(state), *final(state))
        } else {
            *final(state) == *old(state)
        },
{
    let le = state.line_ending();
    proof {
        reveal_strlit("AT");
    }
    let is_at = starts_with(cmd, "AT");
    proof {
        if is_at {
            assert(cmd@.take(2) =~= "AT"@);
        } else if cmd@.len() >= 2 && cmd@.take(2) == "AT"@ {
            assert(cmd@.subrange(0, 2) =~= "AT"@);
        }
    }
    if is_at {
        if same_text(cmd, "AT@1") {
            return reply_line(le, "Mock ELM327");
        }
        return state.handle_at_command(cmd);
    }
    match find(cmd, rpm_raw) {
        Finding::NoData => closed("NO DATA", le),
        Finding::Unknown => closed("?", le),
        Finding::Data(data) => {
            let shown: String = show_data(data.as_str(), state);
            closed(shown.as_str(), le)
        },
    }
}

// ---------------------------------------------------------------------------
// Connections
// ---------------------------------------------------------------------------

/// The command in what a client typed, in upper case and without white space
/// around it; None if there is nothing to it.
pub fn received_command(typed: &[u8]) -> (r: Option<String>)
    ensures
        match r {
            Some(command) => command@ == uppercase(trimmed(utf8_lossy(typed@))) && command@.len()
                > 0,
            None => uppercase(trimmed(utf8_lossy(typed@))).len() == 0,
        },
{
    let text: String = from_utf8_lossy(typed);
    let chars: Vec<char> = chars_of(text.as_str());
    let kept: Vec<char> = trim(chars.as_slice());
    let inner: String = text_of(kept.as_slice());
    let command: String = to_uppercase(inner.as_str());
    if command.as_str().is_empty() {
        assert(command@.len() == 0);
        None
    } else {
        Some(command)
    }
}

/// What a byte from a client leads to.
pub struct ServerStep {
    /// Send the byte back first
    pub echo: bool,
    /// The command that the byte ended, and the reply to send
    pub exchange: Option<(String, String)>,
}

/// A client of the mock server.
pub struct ServerClient {
    pub typed: CommandBuffer,
    pub state: ClientState,
}

impl ServerClient {
    /// A client that has just connected.
    pub fn new() -> (r: Self)
        ensures
            r.typed@ == Seq::<u8>::empty(),
            r.state.is_default(),
    {
        ServerClient { typed: CommandBuffer::new(), state: ClientState::new() }
    }

    /// Take in one byte.
    pub fn accept(&mut self, byte: u8, rpm_raw: u32) -> (r: ServerStep)
        ensures
            r.echo == old(self).state.echo_enabled,
            final(self).typed@ == if byte == CR {
                Seq::<u8>::empty()
            } else if byte == LF {
                old(self).typed@
            } else {
                old(self).typed@.push(byte)
            },
            ({
                let cmd = uppercase(trimmed(utf8_lossy(old(self).typed@)));
                if byte == CR && cmd.len() > 0 {
                    &&& r.exchange is Some
                    &&& (r.exchange->0).0@ == cmd
                    &&& (r.exchange->0).1@ == replied(cmd, rpm_raw, old(self).state)
                    &&& if cmd.len() >= 2 && cmd.take(2) == "AT"@ && cmd != "AT@1"@ {
                        at_applied(uppercase(cmd), old(self).state, final(self).state)
                    } else {
                        final(self).state == old(self).state
                    }
                } else {
                    r.exchange is None && final(self).state == old(self).state
                }
            }),
    {
        let echo = self.state.echo_enabled;
        match self.typed.accept(byte) {
            None => ServerStep { echo, exchange: None },
            Some(typed) => match received_command(typed.as_slice()) {
                None => ServerStep { echo, exchange: None },
                Some(command) => {
                    let reply: String = process_command(
                        command.as_str(),
                        rpm_raw,
                        &mut self.state,
                    );
                    ServerStep { echo, exchange: Some((command, reply)) }
                },
            },
        }
    }
}

proof fn lemma_trailing_space(text: Seq<char>, ends: Seq<char>)
    requires
        text.len() > 0,
        !white_space(text.last()),
        forall|i: int| 0 <= i < ends.len() ==> white_space(#[trigger] ends[i]),
    ensures
        without_trailing_space(text + ends) == text,
    decreases ends.len(),
{
    if ends.len() == 0 {
        assert(text + ends =~= text);
    } else {
        assert((text + ends).drop_last() =~= text + ends.drop_last());
        assert((text + ends).last() == ends[ends.len() - 1]);
        lemma_trailing_space(text, ends.drop_last());
    }
}

/// Line ends and the prompt behind a reply are cleaned away.
proof fn lemma_clean(text: Seq<char>, ends: Seq<char>)
    requires
        text.len() > 0,
        !white_space(text[0]),
        !white_space(text.last()),
        ends.len() > 0,
        forall|i: int| 0 <= i < ends.len() ==> white_space(#[trigger] ends[i]),
    ensures
        cleaned(text + ends + seq!['>']) == text,
{
    let all = text + ends + seq!['>'];
    assert(all[0] == text[0]);
    assert(without_leading_space(all) == all);
    assert(all.last() == '>');
    assert(without_trailing_space(all) == all);
    assert(all.drop_last() =~= text + ends);
    assert((text + ends).last() == ends[ends.len() - 1]);
    assert(without_prompts(text + ends) == text + ends);
    assert((text + ends)[0] == text[0]);
    assert(without_leading_space(text + ends) == text + ends);
    lemma_trailing_space(text, ends);
}

proof fn lemma_zeros_in_front(zeros: nat, digits: Seq<u8>)
    ensures
        hex_number(Seq::new(zeros, |i: int| DIGIT_0) + digits) == hex_number(digits),
    decreases digits.len(), zeros,
{
    let front = Seq::new(zeros, |i: int| DIGIT_0);
    let all = front + digits;
    if digits.len() > 0 {
        assert(all.drop_last() =~= front + digits.drop_last());
        assert(all.last() == digits.last());
        lemma_zeros_in_front(zeros, digits.drop_last());
    } else if zeros > 0 {
        let fewer = Seq::new((zeros - 1) as nat, |i: int| DIGIT_0);
        assert(all.drop_last() =~= fewer + digits);
        assert(all.last() == DIGIT_0);
        lemma_zeros_in_front((zeros - 1) as nat, digits);
        assert(hex_number(digits) == 0);
    } else {
        assert(all =~= digits);
    }
}

/// Zeros in front of a numeral leave the number as it is.
proof fn lemma_zero_filled_number(numeral: Seq<char>, width: nat)
    ensures
        hex_number(bytes_of_ascii(zero_filled(numeral, width))) == hex_number(
            bytes_of_ascii(numeral),
        ),
{
    if numeral.len() < width {
        let zeros = (width - numeral.len()) as nat;
        lemma_zeros_in_front(zeros, bytes_of_ascii(numeral));
        assert(bytes_of_ascii(zero_filled(numeral, width)) =~= Seq::new(
            zeros,
            |i: int| DIGIT_0,
        ) + bytes_of_ascii(numeral));
    }
}

/// The benchmark client reads the RPM in this server's reply to its request,
/// once it has switched spaces off, with linefeeds or without.
pub proof fn law_benchmark_reads_rpm(rpm_raw: u32, state: ClientState)
    requires
        rpm_raw < 0x1_0000,
        !state.spaces_enabled,
        !state.headers_enabled,
    ensures
        uppercase("0C"@) == "0C"@ ==> ({
            let reply = encode_utf8(cleaned(replied("010C"@, rpm_raw, state)));
            &&& !cuts_value(reply)
            &&& rpm_of(reply) == Some((rpm_raw / 4) as nat)
        }),
{
    if uppercase("0C"@) == "0C"@ {
        lemma_benchmark_reads_rpm(rpm_raw, state);
    }
}

proof fn lemma_benchmark_reads_rpm(rpm_raw: u32, state: ClientState)
    requires
        rpm_raw < 0x1_0000,
        !state.spaces_enabled,
        !state.headers_enabled,
        uppercase("0C"@) == "0C"@,
    ensures
        ({
            let reply = encode_utf8(cleaned(replied("010C"@, rpm_raw, state)));
            &&& !cuts_value(reply)
            &&& rpm_of(reply) == Some((rpm_raw / 4) as nat)
        }),
{
    let digits = zero_filled(hex_numeral(rpm_raw as nat), 4);
    let data = "0C"@ + digits;
    let le = line_end(state.linefeeds_enabled);
    reveal_strlit("010C");
    reveal_strlit("0C");
    reveal_strlit("01");
    reveal_strlit("03");
    reveal_strlit("0902");
    reveal_strlit("00");
    reveal_strlit("04");
    reveal_strlit("05");
    reveal_strlit("AT");
    reveal_strlit("41");
    reveal_strlit(">");
    reveal_strlit("\r");
    reveal_strlit("\r\n");
    lemma_hex_numeral(rpm_raw as nat);
    assert(found("010C"@, rpm_raw) == FindingText::Data("41"@ + data)) by {
        let cmd = "010C"@;
        assert(is_ascii_chars(cmd));
        vstd::utf8::is_ascii_chars_encode_utf8(cmd);
        assert(cmd.take(2) =~= "01"@);
        let behind = cmd.skip(2);
        assert(behind =~= "0C"@);
        lemma_until_space(behind, 2);
        assert(behind.take(2) =~= behind);
        assert(first_word(behind) == "0C"@);
        let pids = pids_in("0C"@);
        assert(seq!["0C"@[0], "0C"@[1]] =~= "0C"@);
        assert(pids =~= seq!["0C"@]);
        assert(pids.drop_last() =~= Seq::empty());
        assert(pids_data(pids.drop_last(), rpm_raw) == Some(Seq::<char>::empty()));
        assert(Seq::<char>::empty() + "0C"@ + digits =~= data);
        assert("0C"@[1] != "00"@[1] && "0C"@[1] != "04"@[1] && "0C"@[1] != "05"@[1]);
        assert(pids_data(pids, rpm_raw) == Some(data));
        assert(cmd.len() == 4 && cmd != "03"@ && cmd[1] != "0902"@[1]);
    }
    let text = "41"@ + data;
    assert(text.len() == 8);
    assert forall|i: int| 0 <= i < 8 implies (#[trigger] text[i] as u32) < 0x80 && !white_space(
        text[i],
    ) && text[i] != '>' by {
        if i >= 4 {
            assert(text[i] == digits[i - 4]);
        }
    }
    assert(chars_of_bytes(bytes_of_ascii(text)) =~= text);
    let reply = replied("010C"@, rpm_raw, state);
    assert("010C"@.take(2)[1] != "AT"@[1]);
    assert(reply == text + le + le + ">"@);
    lemma_clean(text, le + le);
    assert(text + (le + le) + seq!['>'] =~= reply);
    assert(is_ascii_chars(text));
    vstd::utf8::is_ascii_chars_encode_utf8(text);
    let bytes = encode_utf8(text);
    assert(bytes =~= bytes_of_ascii(text));
    assert(bytes.take(4) =~= seq![DIGIT_4, DIGIT_1, DIGIT_0, UPPER_C]);
    vstd::utf8::encode_utf8_valid_utf8(text);
    vstd::utf8::is_char_boundary_start_end_of_seq(bytes);
    lemma_zero_filled_number(hex_numeral(rpm_raw as nat), 4);
    let value = bytes.subrange(4, 8);
    assert(value =~= bytes_of_ascii(digits));
    assert(value[0] != PLUS);
    assert(unsigned_part(value) == value);
}

// ---------------------------------------------------------------------------
// Laws
// ---------------------------------------------------------------------------

/// The server knows nine PIDs. The data of the RPM reads as the raw value that the engine
/// turns at, in four digits at least; those of the others are fixed.
pub proof fn law_mock_pids(pid: Seq<char>, rpm_raw: u32)
    ensures
        pid == "00"@ ==> pid_data(pid, rpm_raw) == Some("BE3FA813"@),
        pid == "04"@ ==> pid_data(pid, rpm_raw) == Some("64"@),
        pid == "05"@ ==> pid_data(pid, rpm_raw) == Some("4F"@),
        pid == "0D"@ ==> pid_data(pid, rpm_raw) == Some("28"@),
        pid == "0F"@ ==> pid_data(pid, rpm_raw) == Some("38"@),
        pid == "11"@ ==> pid_data(pid, rpm_raw) == Some("45"@),
        pid == "20"@ ==> pid_data(pid, rpm_raw) == Some("80000001"@),
        pid == "40"@ ==> pid_data(pid, rpm_raw) == Some("FED08000"@),
        pid == "0C"@ ==> pid_data(pid, rpm_raw) is Some && pid_data(pid, rpm_raw)->0.len() >= 4
            && hex_number(bytes_of_ascii(pid_data(pid, rpm_raw)->0)) == rpm_raw,
        pid == "0C"@ && rpm_raw < 0x1_0000 ==> pid_data(pid, rpm_raw)->0.len() == 4,
        pid != "00"@
            && pid != "04"@
            && pid != "05"@
            && pid != "0C"@
            && pid != "0D"@
            && pid != "0F"@
            && pid != "11"@
            && pid != "20"@
            && pid != "40"@ ==> pid_data(pid, rpm_raw)
            is None,
{
    reveal_strlit("00");
    reveal_strlit("04");
    reveal_strlit("05");
    reveal_strlit("0C");
    reveal_strlit("0D");
    reveal_strlit("0F");
    reveal_strlit("11");
    reveal_strlit("20");
    reveal_strlit("40");
    assert("00"@.len() == 2);
    assert("04"@.len() == 2);
    assert("05"@.len() == 2);
    assert("0C"@.len() == 2);
    assert("0D"@.len() == 2);
    assert("0F"@.len() == 2);
    assert("11"@.len() == 2);
    assert("20"@.len() == 2);
    assert("40"@.len() == 2);
    assert("00"@[1] == '0' && "04"@[1] == '4');
    assert("00"@[1] == '0' && "05"@[1] == '5');
    assert("00"@[1] == '0' && "0C"@[1] == 'C');
    assert("00"@[1] == '0' && "0D"@[1] == 'D');
    assert("00"@[1] == '0' && "0F"@[1] == 'F');
    assert("00"@[0] == '0' && "11"@[0] == '1');
    assert("00"@[0] == '0' && "20"@[0] == '2');
    assert("00"@[0] == '0' && "40"@[0] == '4');
    assert("04"@[1] == '4' && "05"@[1] == '5');
    assert("04"@[1] == '4' && "0C"@[1] == 'C');
    assert("04"@[1] == '4' && "0D"@[1] == 'D');
    assert("04"@[1] == '4' && "0F"@[1] == 'F');
    assert("04"@[0] == '0' && "11"@[0] == '1');
    assert("04"@[0] == '0' && "20"@[0] == '2');
    assert("04"@[0] == '0' && "40"@[0] == '4');
    assert("05"@[1] == '5' && "0C"@[1] == 'C');
    assert("05"@[1] == '5' && "0D"@[1] == 'D');
    assert("05"@[1] == '5' && "0F"@[1] == 'F');
    assert("05"@[0] == '0' && "11"@[0] == '1');
    assert("05"@[0] == '0' && "20"@[0] == '2');
    assert("05"@[0] == '0' && "40"@[0] == '4');
    assert("0C"@[1] == 'C' && "0D"@[1] == 'D');
    assert("0C"@[1] == 'C' && "0F"@[1] == 'F');
    assert("0C"@[0] == '0' && "11"@[0] == '1');
    assert("0C"@[0] == '0' && "20"@[0] == '2');
    assert("0C"@[0] == '0' && "40"@[0] == '4');
    assert("0D"@[1] == 'D' && "0F"@[1] == 'F');
    assert("0D"@[0] == '0' && "11"@[0] == '1');
    assert("0D"@[0] == '0' && "20"@[0] == '2');
    assert("0D"@[0] == '0' && "40"@[0] == '4');
    assert("0F"@[0] == '0' && "11"@[0] == '1');
    assert("0F"@[0] == '0' && "20"@[0] == '2');
    assert("0F"@[0] == '0' && "40"@[0] == '4');
    assert("11"@[0] == '1' && "20"@[0] == '2');
    assert("11"@[0] == '1' && "40"@[0] == '4');
    assert("20"@[0] == '2' && "40"@[0] == '4');
    lemma_hex_numeral(rpm_raw as nat);
    lemma_zero_filled_number(hex_numeral(rpm_raw as nat), 4);
}

/// A command is read up to the first white space in it.
pub proof fn law_words_end_at_white_space(s: Seq<char>, n: int)
    requires
        0 < n <= s.len(),
    ensures
        (forall|i: int| 0 <= i < n ==> !white_space(#[trigger] s[i])) && (n < s.len()
            ==> white_space(s[n])) ==> first_word(s) == s.take(n),
{
    if (forall|i: int| 0 <= i < n ==> !white_space(#[trigger] s[i])) && (n < s.len() ==> white_space(
        s[n],
    )) {
        assert(!white_space(s[0]));
        lemma_until_space(s, n);
    }
}

/// The digits behind the service name one PID for each two of them.
pub proof fn law_digits_name_pids(s: Seq<char>, i: int)
    requires
        0 <= i < s.len() / 2,
    ensures
        pids_in(s).len() == s.len() / 2,
        pids_in(s)[i] == uppercase(s.subrange(2 * i, 2 * i + 2)),
{
    assert(seq![s[2 * i], s[2 * i + 1]] =~= s.subrange(2 * i, 2 * i + 2));
}

/// An answer holds each PID that was asked for in turn, with its data behind it; a PID that
/// is not known leaves no answer.
pub proof fn law_pids_are_answered_in_turn(pids: Seq<Seq<char>>, pid: Seq<char>, rpm_raw: u32)
    ensures
        pids_data(Seq::empty(), rpm_raw) == Some(Seq::<char>::empty()),
        pid_data(pid, rpm_raw) is None ==> pids_data(pids.push(pid), rpm_raw) is None,
        pids_data(pids, rpm_raw) is None ==> pids_data(pids.push(pid), rpm_raw) is None,
        pids_data(pids, rpm_raw) matches Some(front) ==> (pid_data(pid, rpm_raw) matches Some(data)
            ==> pids_data(pids.push(pid), rpm_raw) == Some(front + pid + data)),
{
    assert(pids.push(pid).drop_last() =~= pids);
}

/// A command for current data starts with `01` and has a PID behind it. Its answer starts
/// with `41`; without a known PID there is no data.
pub proof fn law_current_data_is_found(digits: Seq<char>, rpm_raw: u32)
    requires
        is_ascii_chars(digits),
        digits.len() >= 2,
    ensures
        ({
            let cmd = seq!['0', '1'] + digits;
            let data = pids_data(pids_in(first_word(digits)), rpm_raw);
            &&& asks_current_data(cmd)
            &&& data is None ==> found(cmd, rpm_raw) == FindingText::NoData
            &&& data is Some && data->0.len() > 0 ==> found(cmd, rpm_raw) == FindingText::Data(
                seq!['4', '1'] + data->0,
            )
            &&& data is Some && data->0.len() == 0 ==> found(cmd, rpm_raw) == FindingText::Unknown
        }),
{
    reveal_strlit("01");
    reveal_strlit("03");
    reveal_strlit("0902");
    reveal_strlit("41");
    let cmd = seq!['0', '1'] + digits;
    assert(cmd.take(2) =~= "01"@);
    assert(cmd.skip(2) =~= digits);
    assert("41"@ =~= seq!['4', '1']);
    assert(cmd[1] == '1' && "03"@[1] == '3' && "0902"@[1] == '9');
    assert(is_ascii_chars(cmd));
    vstd::utf8::is_ascii_chars_encode_utf8(cmd);
}

/// Any other command is unknown, but for the stored faults and the vehicle's number.
pub proof fn law_other_commands_are_unknown(cmd: Seq<char>, rpm_raw: u32)
    requires
        cmd.len() < 2 || cmd[0] != '0' || cmd[1] != '1',
    ensures
        cmd == seq!['0', '3'] ==> found(cmd, rpm_raw) == FindingText::Data("4300"@),
        cmd == seq!['0', '9', '0', '2'] ==> found(cmd, rpm_raw) == FindingText::Data(
            "490213455034353637383930"@,
        ),
        cmd != seq!['0', '3'] && cmd != seq!['0', '9', '0', '2'] ==> found(cmd, rpm_raw)
            == FindingText::Unknown,
{
    reveal_strlit("01");
    reveal_strlit("03");
    reveal_strlit("0902");
    assert("03"@ =~= seq!['0', '3']);
    assert("0902"@ =~= seq!['0', '9', '0', '2']);
    if cmd.len() >= 2 && cmd.take(2) == "01"@ {
        assert(cmd[0] == cmd.take(2)[0] && cmd[1] == cmd.take(2)[1]);
    }
}

/// With headers the engine's address and the number of bytes stand in front of the data,
/// with spaces between them if the client wants spaces.
pub proof fn law_headers_stand_in_front(data: Seq<char>)
    ensures
        ({
            let length = zero_filled(hex_numeral((data.len() / 2) as nat), 2);
            let address = seq!['7', 'E', '8'];
            let space = seq![' '];
            &&& shown_data(data, false, true) =~= address + length + shown_data(data, false, false)
            &&& shown_data(data, true, true) =~= address + space + length + space + shown_data(
                data,
                true,
                false,
            )
            &&& hex_number(bytes_of_ascii(length)) == data.len() / 2
        }),
{
    reveal_strlit("7E8");
    reveal_strlit("7E8 ");
    reveal_strlit(" ");
    lemma_hex_numeral((data.len() / 2) as nat);
    lemma_zero_filled_number(hex_numeral((data.len() / 2) as nat), 2);
}

/// Every reply ends with the prompt; one to an OBD2 command has two line ends before it, of
/// the client's kind, and what was found in front of these.
pub proof fn law_replies_end_with_the_prompt(cmd: Seq<char>, rpm_raw: u32, state: ClientState)
    ensures
        replied(cmd, rpm_raw, state).last() == '>',
        cmd.len() < 2 || cmd[0] != 'A' || cmd[1] != 'T' ==> {
            let ends = if state.linefeeds_enabled {
                seq!['\r', '\n', '\r', '\n', '>']
            } else {
                seq!['\r', '\r', '>']
            };
            &&& found(cmd, rpm_raw) is NoData ==> replied(cmd, rpm_raw, state) =~= seq![
                'N',
                'O',
                ' ',
                'D',
                'A',
                'T',
                'A',
            ] + ends
            &&& found(cmd, rpm_raw) is Unknown ==> replied(cmd, rpm_raw, state) =~= seq!['?'] + ends
            &&& found(cmd, rpm_raw) matches FindingText::Data(data) ==> replied(
                cmd,
                rpm_raw,
                state,
            ) =~= shown_data(data, state.spaces_enabled, state.headers_enabled) + ends
        },
{
    reveal_strlit("AT");
    reveal_strlit(">");
    reveal_strlit("?");
    reveal_strlit("NO DATA");
    reveal_strlit("\r");
    reveal_strlit("\r\n");
    if cmd.len() >= 2 && cmd.take(2) == "AT"@ {
        assert(cmd[0] == cmd.take(2)[0] && cmd[1] == cmd.take(2)[1]);
    }
}

} // verus!
