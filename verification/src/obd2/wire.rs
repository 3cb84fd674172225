//! Commands as they go over the wire, and the answers clients get from the
//! cache.

use crate::elm327::{laid_out, without_spaces, ClientState};
use crate::obd2::buffers::{CachedResponse, Obd2Buffer, Pid};
use crate::text::{
    decimal, decimal_digits, hex_number, hex_pair, hex_text, is_hex_digit,
    lemma_hex_digit_roundtrip, parse_hex, parsed_hex, upper_hex, upper_hex_digit, CR, DIGIT_0,
    DIGIT_1, DIGIT_4, LF, PROMPT, SPACE,
};
use vstd::prelude::*;
use vstd::slice::slice_subrange;

verus! {

/// ASCII `A`, `T`, `a` and `t`, the letters of an AT command.
const AT_UPPER_A: u8 = 0x41;

const AT_UPPER_T: u8 = 0x54;

const AT_LOWER_A: u8 = 0x61;

const AT_LOWER_T: u8 = 0x74;

// ---------------------------------------------------------------------------
// Commands
// ---------------------------------------------------------------------------

/// The command for one PID of service 01, such as `010C`.
pub open spec fn pid_command(pid: Pid) -> Seq<u8> {
    seq![0x30u8, 0x31u8] + hex_pair(pid)
}

/// The command for several PIDs of service 01 with the number of ECUs to wait
/// for, such as `010C0D 1`.
pub open spec fn multi_pid_command(pids: Seq<Pid>, response_count: u8) -> Seq<u8> {
    seq![0x30u8, 0x31u8] + hex_text(pids) + seq![SPACE] + decimal(response_count as nat)
}

/// Append a byte as two upper-case hexadecimal digits.
pub(crate) fn push_hex_pair(buffer: &mut Obd2Buffer, byte: u8)
    ensures
        final(buffer)@ == old(buffer)@ + hex_pair(byte),
{
    buffer.push(upper_hex(byte / 16));
    buffer.push(upper_hex(byte % 16));
    assert(buffer@ =~= old(buffer)@ + hex_pair(byte));
}

/// Append bytes as upper-case hexadecimal digits.
pub(crate) fn push_hex_text(buffer: &mut Obd2Buffer, bytes: &[u8])
    ensures
        final(buffer)@ == old(buffer)@ + hex_text(bytes@),
{
    let mut i: usize = 0;
    assert(buffer@ =~= old(buffer)@ + hex_text(bytes@.take(0)));
    while i < bytes.len()
        invariant
            i <= bytes@.len(),
            buffer@ == old(buffer)@ + hex_text(bytes@.take(i as int)),
        decreases bytes@.len() - i,
    {
        push_hex_pair(buffer, bytes[i]);
        assert(bytes@.take(i + 1).drop_last() =~= bytes@.take(i as int));
        assert(buffer@ =~= old(buffer)@ + hex_text(bytes@.take(i + 1)));
        i = i + 1;
    }
    assert(bytes@.take(i as int) =~= bytes@);
}

/// Append a number in decimal.
pub(crate) fn push_decimal(buffer: &mut Obd2Buffer, n: u8)
    ensures
        final(buffer)@ == old(buffer)@ + decimal(n as nat),
{
    let digits: Vec<u8> = decimal_digits(n as u64);
    buffer.extend_from_slice(digits.as_slice());
}

/// Convert a PID to wire-format Mode 01 command (e.g., `0x0C` → `010C`).
pub fn pid_to_wire_command(pid: Pid) -> (r: Obd2Buffer)
    ensures
        r@ == pid_command(pid),
{
    let mut buffer = Obd2Buffer::new();
    buffer.push(DIGIT_0);
    buffer.push(DIGIT_1);
    push_hex_pair(&mut buffer, pid);
    assert(buffer@ =~= pid_command(pid));
    buffer
}

/// Build a wire-format multi-PID command (e.g., `[0x0C, 0x0D]` → `010C0D 1`).
///
/// Appends the ECU `response_count` suffix so the adapter knows how many
/// responses to wait for. All PIDs in a batch must share the same ECU count
/// (callers group by count before calling this).
pub fn build_multi_pid_wire_command(pids: &[Pid], response_count: u8) -> (r: Obd2Buffer)
    ensures
        r@ == multi_pid_command(pids@, response_count),
{
    let mut cmd = Obd2Buffer::new();
    cmd.push(DIGIT_0);
    cmd.push(DIGIT_1);
    push_hex_text(&mut cmd, pids);
    cmd.push(SPACE);
    push_decimal(&mut cmd, response_count);
    assert(cmd@ =~= multi_pid_command(pids@, response_count));
    cmd
}

/// The command starts with `AT` or `at`.
pub open spec fn is_at_command(cmd: Seq<u8>) -> bool {
    cmd.len() >= 2 && ((cmd[0] == 0x41 && cmd[1] == 0x54) || (cmd[0] == 0x61 && cmd[1] == 0x74))
}

/// The PID that a service 01 command asks for: its first two characters read
/// as 1, the next two as the PID.
pub open spec fn command_pid(cmd: Seq<u8>) -> Option<nat> {
    if is_at_command(cmd) || cmd.len() < 4 {
        None
    } else if parsed_hex(cmd.subrange(0, 2)) == Some(1nat) {
        parsed_hex(cmd.subrange(2, 4))
    } else {
        None
    }
}

fn starts_with_at(cmd: &[u8]) -> (r: bool)
    ensures
        r == is_at_command(cmd@),
{
    cmd.len() >= 2 && ((cmd[0] == AT_UPPER_A && cmd[1] == AT_UPPER_T) || (cmd[0] == AT_LOWER_A
        && cmd[1] == AT_LOWER_T))
}

/// Parse a wire-format command (e.g., `010C`) to PID byte.
/// Returns `None` for invalid/non-OBD commands or non-Mode-01 commands.
pub fn wire_command_to_pid(cmd: &[u8]) -> (r: Option<Pid>)
    ensures
        match r {
            Some(pid) => command_pid(cmd@) == Some(pid as nat),
            None => command_pid(cmd@) is None,
        },
{
    if starts_with_at(cmd) || cmd.len() < 4 {
        return None;
    }
    match parse_hex(slice_subrange(cmd, 0, 2)) {
        None => None,
        Some(mode) => {
            if mode != 1 {
                return None;
            }
            match parse_hex(slice_subrange(cmd, 2, 4)) {
                None => None,
                Some(pid) => Some(pid as u8),
            }
        },
    }
}

/// A byte with ASCII letters in upper case.
pub open spec fn folded(b: u8) -> u8 {
    if 0x61 <= b && b <= 0x7a {
        (b - 0x20) as u8
    } else {
        b
    }
}

/// Two byte strings are equal but for the case of ASCII letters.
pub open spec fn same_ignoring_case(a: Seq<u8>, b: Seq<u8>) -> bool {
    a.len() == b.len() && forall|i: int| 0 <= i < a.len() ==> folded(#[trigger] a[i]) == folded(b[i])
}

fn fold(b: u8) -> (r: u8)
    ensures
        r == folded(b),
{
    if 0x61 <= b && b <= 0x7a {
        b - 0x20
    } else {
        b
    }
}

fn equal_ignoring_case(a: &[u8], b: &[u8]) -> (r: bool)
    ensures
        r == same_ignoring_case(a@, b@),
{
    if a.len() != b.len() {
        return false;
    }
    let mut i: usize = 0;
    while i < a.len()
        invariant
            i <= a@.len() == b@.len(),
            forall|j: int| 0 <= j < i ==> folded(#[trigger] a@[j]) == folded(b@[j]),
        decreases a@.len() - i,
    {
        if fold(a[i]) != fold(b[i]) {
            return false;
        }
        i = i + 1;
    }
    true
}

/// The query number `index` for the PIDs that a vehicle supports: `0100`,
/// `0120` and so on up to `01E0`.
pub open spec fn supported_pids_query(index: int) -> Seq<u8> {
    pid_command((index * 0x20) as u8)
}

/// The query for the PIDs that a vehicle supports, by its index.
pub fn supported_pids_command(index: usize) -> (r: Obd2Buffer)
    requires
        index < 8,
    ensures
        r@ == supported_pids_query(index as int),
{
    pid_to_wire_command((index * 0x20) as u8)
}

/// No two of the eight queries are the same, even if case is ignored.
pub(crate) proof fn lemma_queries_differ(cmd: Seq<u8>, i: int, j: int)
    requires
        0 <= i < 8,
        0 <= j < 8,
        same_ignoring_case(cmd, supported_pids_query(i)),
        same_ignoring_case(cmd, supported_pids_query(j)),
    ensures
        i == j,
{
    let a = supported_pids_query(i);
    let b = supported_pids_query(j);
    assert(folded(cmd[2]) == folded(a[2]) && folded(cmd[2]) == folded(b[2]));
    assert(a[2] == upper_hex_digit(((i * 0x20) as u8 / 16) as nat));
    assert(b[2] == upper_hex_digit(((j * 0x20) as u8 / 16) as nat));
}

/// Check if a command is a supported PIDs query, returns index (0-7) if so
pub fn supported_pids_index(cmd: &[u8]) -> (r: Option<usize>)
    ensures
        match r {
            Some(index) => index < 8 && same_ignoring_case(
                cmd@,
                supported_pids_query(index as int),
            ) && forall|i: int|
                0 <= i < 8 && #[trigger] same_ignoring_case(cmd@, supported_pids_query(i)) ==> i
                    == index,
            None => forall|i: int|
                0 <= i < 8 ==> !#[trigger] same_ignoring_case(cmd@, supported_pids_query(i)),
        },
{
    let mut index: usize = 0;
    while index < 8
        invariant
            index <= 8,
            forall|i: int|
                0 <= i < index ==> !#[trigger] same_ignoring_case(cmd@, supported_pids_query(i)),
        decreases 8 - index,
    {
        let query = supported_pids_command(index);
        if equal_ignoring_case(cmd, query.as_slice()) {
            assert forall|i: int|
                0 <= i < 8 && #[trigger] same_ignoring_case(cmd@, supported_pids_query(i)) implies i
                == index by {
                lemma_queries_differ(cmd@, i, index as int);
            }
            return Some(index);
        }
        index = index + 1;
    }
    None
}

/// The command without a trailing ` 1`.
pub open spec fn without_single_count(cmd: Seq<u8>) -> Seq<u8> {
    if cmd.len() >= 2 && cmd[cmd.len() - 2] == SPACE && cmd.last() == 0x31 {
        cmd.take(cmd.len() - 2)
    } else {
        cmd
    }
}

/// A command in the form that the cache is looked up with: without a trailing
/// ` 1` and without spaces.
pub open spec fn normalized(cmd: Seq<u8>) -> Seq<u8> {
    without_spaces(without_single_count(cmd))
}

/// Normalize an OBD2 command for caching and lookup.
///
/// Strips trailing ` 1` (single response count) and removes all spaces to
/// produce a canonical hex form, since the ELM327 accepts both `010C` and
/// `01 0C`.
///
/// Stripping ` 1` discards the client's response count hint, and commands with
/// other counts (e.g., ` 2`) are kept as they are.
pub fn normalize_obd_command(cmd: &[u8]) -> (r: Obd2Buffer)
    ensures
        r@ == normalized(cmd@),
{
    let n: usize = cmd.len();
    let end: usize = if n >= 2 && cmd[n - 2] == SPACE && cmd[n - 1] == DIGIT_1 {
        n - 2
    } else {
        n
    };
    let ghost kept = without_single_count(cmd@);
    assert(kept =~= cmd@.take(end as int));
    let mut out = Obd2Buffer::new();
    let mut i: usize = 0;
    while i < end
        invariant
            i <= end <= n == cmd@.len(),
            kept == cmd@.take(end as int),
            out@ == without_spaces(kept.take(i as int)),
        decreases end - i,
    {
        assert(kept.take(i + 1).drop_last() =~= kept.take(i as int));
        if cmd[i] != SPACE {
            out.push(cmd[i]);
        }
        i = i + 1;
    }
    assert(kept.take(i as int) =~= kept);
    out
}

// ---------------------------------------------------------------------------
// Answers from the cache
// ---------------------------------------------------------------------------

/// The bytes of a line ending.
pub open spec fn line_end_bytes(linefeeds: bool) -> Seq<u8> {
    if linefeeds {
        seq![CR, LF]
    } else {
        seq![CR]
    }
}

/// One ECU's answer in compact form, such as `410C1AF8`.
pub open spec fn answer_text(pid: Pid, data: Seq<u8>) -> Seq<u8> {
    seq![0x34u8, 0x31u8] + hex_pair(pid) + hex_text(data)
}

/// The lines of a cached answer, each behind a line ending.
pub open spec fn cached_lines(
    pid: Pid,
    values: Seq<Seq<u8>>,
    linefeeds: bool,
    spaces: bool,
) -> Seq<u8>
    decreases values.len(),
{
    if values.len() == 0 {
        Seq::empty()
    } else {
        cached_lines(pid, values.drop_last(), linefeeds, spaces) + line_end_bytes(linefeeds)
            + laid_out(spaces, answer_text(pid, values.last()))
    }
}

/// A cached answer as a client sees it: its lines, a line ending, the prompt.
pub open spec fn cached_reply(
    pid: Pid,
    values: Seq<Seq<u8>>,
    linefeeds: bool,
    spaces: bool,
) -> Seq<u8> {
    cached_lines(pid, values, linefeeds, spaces) + line_end_bytes(linefeeds) + seq![PROMPT]
}

fn push_line_end(buffer: &mut Obd2Buffer, linefeeds: bool)
    ensures
        final(buffer)@ == old(buffer)@ + line_end_bytes(linefeeds),
{
    buffer.push(CR);
    if linefeeds {
        buffer.push(LF);
    }
    assert(buffer@ =~= old(buffer)@ + line_end_bytes(linefeeds));
}

/// Format a cached response back to wire format for a client.
///
/// Produces the format clients expect: `{le}{line1}{le}{line2}...{le}>`
/// where each line is `41{pid}{data hex}` formatted per client settings.
pub fn format_cached_for_client(
    pid: Pid,
    values: &CachedResponse,
    client_state: &ClientState,
) -> (r: Obd2Buffer)
    ensures
        r@ == cached_reply(
            pid,
            values@,
            client_state.linefeeds_enabled,
            client_state.spaces_enabled,
        ),
{
    let linefeeds: bool = client_state.linefeeds_enabled;
    let ghost spaces = client_state.spaces_enabled;
    let ecus = values.ecus();
    let mut result = Obd2Buffer::new();
    let mut i: usize = 0;
    while i < ecus.len()
        invariant
            i <= ecus@.len() == values@.len(),
            linefeeds == client_state.linefeeds_enabled,
            spaces == client_state.spaces_enabled,
            forall|j: int| 0 <= j < ecus@.len() ==> (#[trigger] ecus@[j])@ == values@[j],
            result@ == cached_lines(pid, values@.take(i as int), linefeeds, spaces),
        decreases ecus@.len() - i,
    {
        let ghost before = result@;
        push_line_end(&mut result, linefeeds);
        let mut hex = Obd2Buffer::new();
        hex.push(DIGIT_4);
        hex.push(DIGIT_1);
        push_hex_pair(&mut hex, pid);
        push_hex_text(&mut hex, ecus[i].bytes());
        assert(hex@ =~= answer_text(pid, values@[i as int]));
        let line: Vec<u8> = client_state.format_response(hex.as_slice());
        result.extend_from_slice(line.as_slice());
        assert(values@.take(i + 1).drop_last() =~= values@.take(i as int));
        assert(result@ =~= before + line_end_bytes(linefeeds) + laid_out(
            spaces,
            answer_text(pid, values@[i as int]),
        ));
        i = i + 1;
    }
    assert(values@.take(i as int) =~= values@);
    push_line_end(&mut result, linefeeds);
    result.push(PROMPT);
    assert(result@ =~= cached_reply(pid, values@, linefeeds, spaces));
    result
}

// ---------------------------------------------------------------------------
// Laws
// ---------------------------------------------------------------------------

/// A command built for a PID reads back as that PID.
pub proof fn law_command_reads_back(pid: Pid)
    ensures
        command_pid(pid_command(pid)) == Some(pid as nat),
{
    let cmd = pid_command(pid);
    let hi = (pid / 16) as nat;
    let lo = (pid % 16) as nat;
    lemma_hex_digit_roundtrip(hi);
    lemma_hex_digit_roundtrip(lo);
    assert(cmd =~= seq![0x30u8, 0x31u8, upper_hex_digit(hi), upper_hex_digit(lo)]);
    let mode = cmd.subrange(0, 2);
    let rest = cmd.subrange(2, 4);
    assert(mode =~= seq![0x30u8, 0x31u8]);
    assert(rest =~= seq![upper_hex_digit(hi), upper_hex_digit(lo)]);
    lemma_two_digit_number(mode);
    lemma_two_digit_number(rest);
    assert(parsed_hex(mode) == Some(1nat));
    assert(is_hex_digit(rest[0]));
}

/// Two hexadecimal digits read as sixteen times the first plus the second.
pub(crate) proof fn lemma_two_digit_number(s: Seq<u8>)
    requires
        s.len() == 2,
    ensures
        hex_number(s) == hex_digit_value_of(s, 0) * 16 + hex_digit_value_of(s, 1),
{
    reveal_with_fuel(hex_number, 3);
    assert(s.drop_last().len() == 1);
    assert(s.drop_last().last() == s[0]);
}

/// The value of the digit at a position.
pub open spec fn hex_digit_value_of(s: Seq<u8>, i: int) -> nat {
    crate::text::hex_digit_value(s[i])
}

/// Normalizing is done once: a normalized command stays as it is.
pub proof fn law_normalizing_is_final(cmd: Seq<u8>)
    ensures
        normalized(normalized(cmd)) == normalized(cmd),
{
    let once = normalized(cmd);
    lemma_no_space_left(without_single_count(cmd));
    assert(!once.contains(SPACE));
    assert(without_single_count(once) == once) by {
        if once.len() >= 2 && once[once.len() - 2] == SPACE {
            assert(once.contains(SPACE));
        }
    }
    lemma_without_spaces_keeps(once);
}

proof fn lemma_no_space_left(s: Seq<u8>)
    ensures
        !without_spaces(s).contains(SPACE),
    decreases s.len(),
{
    if s.len() > 0 {
        lemma_no_space_left(s.drop_last());
        let front = without_spaces(s.drop_last());
        if s.last() != SPACE {
            assert forall|i: int| 0 <= i < front.push(s.last()).len() implies front.push(
                s.last(),
            )[i] != SPACE by {
                if i < front.len() {
                    assert(front.contains(front[i]));
                }
            }
        }
    }
}

proof fn lemma_without_spaces_keeps(s: Seq<u8>)
    requires
        !s.contains(SPACE),
    ensures
        without_spaces(s) == s,
    decreases s.len(),
{
    if s.len() > 0 {
        assert(s.contains(s.last()));
        assert forall|i: int| 0 <= i < s.drop_last().len() implies s.drop_last()[i] != SPACE by {
            assert(s.contains(s[i]));
        }
        lemma_without_spaces_keeps(s.drop_last());
    }
}

/// The command for a PID, with or without a trailing ` 1`, is looked up in the
/// same form.
pub proof fn law_single_count_does_not_matter(pid: Pid)
    ensures
        normalized(pid_command(pid)) == pid_command(pid),
        normalized(pid_command(pid) + seq![SPACE, 0x31u8]) == pid_command(pid),
{
    let cmd = pid_command(pid);
    let hi = (pid / 16) as nat;
    let lo = (pid % 16) as nat;
    lemma_hex_digit_roundtrip(hi);
    lemma_hex_digit_roundtrip(lo);
    assert(cmd =~= seq![0x30u8, 0x31u8, upper_hex_digit(hi), upper_hex_digit(lo)]);
    assert(!cmd.contains(SPACE));
    lemma_without_spaces_keeps(cmd);
    assert(without_single_count(cmd) == cmd);
    let counted = cmd + seq![SPACE, 0x31u8];
    assert(counted.take(counted.len() - 2) =~= cmd);
}

/// A command is the service `01` and the PID in two digits, and one for several PIDs the
/// service, two digits for each, and behind a space the number of ECUs.
pub proof fn law_commands_name_their_pids(pids: Seq<Pid>, response_count: u8, i: int)
    requires
        0 <= i < pids.len(),
    ensures
        pid_command(pids[i]).len() == 4,
        pid_command(pids[i]).take(2) == seq![0x30u8, 0x31u8],
        pid_command(pids[i]).skip(2) == hex_pair(pids[i]),
        ({
            let cmd = multi_pid_command(pids, response_count);
            let n = 2 + 2 * pids.len() as int;
            &&& cmd.take(2) == seq![0x30u8, 0x31u8]
            &&& cmd.subrange(2 + 2 * i, 4 + 2 * i) == hex_pair(pids[i])
            &&& cmd[n] == 0x20
            &&& cmd.skip(n + 1) == decimal(response_count as nat)
        }),
{
    lemma_hex_text_at(pids, i);
    let cmd = multi_pid_command(pids, response_count);
    let n = 2 + 2 * pids.len() as int;
    assert(pid_command(pids[i]).take(2) =~= seq![0x30u8, 0x31u8]);
    assert(pid_command(pids[i]).skip(2) =~= hex_pair(pids[i]));
    assert(cmd.take(2) =~= seq![0x30u8, 0x31u8]);
    assert(cmd.subrange(2 + 2 * i, 4 + 2 * i) =~= hex_text(pids).subrange(2 * i, 2 * i + 2));
    assert(cmd.skip(n + 1) =~= decimal(response_count as nat));
}

proof fn lemma_hex_text_at(bytes: Seq<u8>, i: int)
    requires
        0 <= i < bytes.len(),
    ensures
        hex_text(bytes).len() == 2 * bytes.len(),
        hex_text(bytes).subrange(2 * i, 2 * i + 2) == hex_pair(bytes[i]),
    decreases bytes.len(),
{
    let front = bytes.drop_last();
    if front.len() > 0 {
        lemma_hex_text_at(front, 0);
    } else {
        assert(hex_text(front) =~= Seq::empty());
    }
    if i < front.len() {
        lemma_hex_text_at(front, i);
        assert(hex_text(bytes).subrange(2 * i, 2 * i + 2) =~= hex_text(front).subrange(
            2 * i,
            2 * i + 2,
        ));
    } else {
        assert(hex_text(bytes).subrange(2 * i, 2 * i + 2) =~= hex_pair(bytes[i]));
    }
}

/// Only a command of service 01 names a PID: its first two characters are `01`, or `+1`,
/// and the two behind them are the PID's digits; AT commands, shorter ones and those of
/// other services do not.
pub proof fn law_only_service_one_names_a_pid(cmd: Seq<u8>)
    ensures
        cmd.len() < 4 ==> command_pid(cmd) is None,
        cmd.len() >= 2 && (cmd[0] == 0x41 || cmd[0] == 0x61) ==> command_pid(cmd) is None,
        command_pid(cmd) is Some ==> (cmd[0] == 0x30 || cmd[0] == 0x2b) && cmd[1] == 0x31,
        cmd.len() >= 4 && cmd[0] == 0x30 && cmd[1] == 0x31 && is_hex_digit(cmd[2])
            && is_hex_digit(cmd[3]) ==> command_pid(cmd) == Some(
            crate::text::hex_digit_value(cmd[2]) * 16 + crate::text::hex_digit_value(cmd[3]),
        ),
        cmd.len() >= 4 && !is_hex_digit(cmd[3]) ==> command_pid(cmd) is None,
{
    if cmd.len() >= 4 {
        let mode = cmd.subrange(0, 2);
        let rest = cmd.subrange(2, 4);
        lemma_two_digit_number(mode);
        lemma_two_digit_number(rest);
        assert(mode[0] == cmd[0] && mode[1] == cmd[1]);
        assert(rest[0] == cmd[2] && rest[1] == cmd[3]);
        reveal_with_fuel(hex_number, 2);
        assert(mode.drop_first().drop_last() =~= Seq::<u8>::empty());
        if parsed_hex(mode) == Some(1nat) {
            let digits = crate::text::unsigned_part(mode);
            assert(is_hex_digit(digits[0]));
            if mode[0] == 0x2b {
                assert(digits == mode.drop_first());
                assert(digits.last() == mode[1]);
            } else {
                assert(is_hex_digit(digits[1]));
            }
        }
        if parsed_hex(rest) is Some {
            let digits = crate::text::unsigned_part(rest);
            assert(digits.last() == rest[1]);
            assert(is_hex_digit(digits[digits.len() - 1]));
        }
    }
}

/// Spaces do not matter in a command: with one more anywhere but before a last `1` it is
/// looked up in the same form, which has none; what is not a space stays.
pub proof fn law_spaces_do_not_matter(front: Seq<u8>, back: Seq<u8>)
    requires
        back.len() > 1 || back.len() == 1 && back[0] != 0x31,
    ensures
        without_spaces(front.push(0x20u8) + back) == without_spaces(front + back),
        !normalized(front + back).contains(0x20u8),
        !(front + back).contains(0x20u8) ==> normalized(front + back) == front + back,
    decreases back.len(),
{
    lemma_no_space_left(without_single_count(front + back));
    if !(front + back).contains(0x20u8) {
        let all = front + back;
        if all.len() >= 2 {
            assert(all.contains(all[all.len() - 2]));
        }
        lemma_without_spaces_keeps(all);
    }
    lemma_space_inside(front, back);
}

proof fn lemma_space_inside(front: Seq<u8>, back: Seq<u8>)
    ensures
        without_spaces(front.push(0x20u8) + back) == without_spaces(front + back),
    decreases back.len(),
{
    if back.len() == 0 {
        assert(front.push(0x20u8) + back =~= front.push(0x20u8));
        assert(front.push(0x20u8).drop_last() =~= front);
        assert(front + back =~= front);
    } else {
        lemma_space_inside(front, back.drop_last());
        assert((front.push(0x20u8) + back).drop_last() =~= front.push(0x20u8) + back.drop_last());
        assert((front + back).drop_last() =~= front + back.drop_last());
    }
}

/// A cached answer has a line for each ECU, `41`, the PID and the data in digits, each
/// behind a line ending, and ends with a line ending and the prompt.
pub proof fn law_cached_answer_has_a_line_for_each_ecu(
    pid: Pid,
    values: Seq<Seq<u8>>,
    data: Seq<u8>,
    spaces: bool,
)
    ensures
        cached_reply(pid, Seq::empty(), false, spaces) == seq![0x0du8, 0x3e],
        cached_reply(pid, Seq::empty(), true, spaces) == seq![0x0du8, 0x0a, 0x3e],
        cached_lines(pid, values.push(data), false, spaces) == cached_lines(
            pid,
            values,
            false,
            spaces,
        ) + seq![0x0du8] + laid_out(spaces, seq![0x34u8, 0x31] + hex_pair(pid) + hex_text(data)),
        cached_lines(pid, values.push(data), true, spaces) == cached_lines(
            pid,
            values,
            true,
            spaces,
        ) + seq![0x0du8, 0x0a] + laid_out(
            spaces,
            seq![0x34u8, 0x31] + hex_pair(pid) + hex_text(data),
        ),
        cached_reply(pid, values, false, spaces) == cached_lines(pid, values, false, spaces)
            + seq![0x0du8, 0x3e],
        cached_reply(pid, values, true, spaces) == cached_lines(pid, values, true, spaces)
            + seq![0x0du8, 0x0a, 0x3e],
{
    assert(values.push(data).drop_last() =~= values);
    assert(cached_reply(pid, Seq::empty(), false, spaces) =~= seq![0x0du8, 0x3e]);
    assert(cached_reply(pid, Seq::empty(), true, spaces) =~= seq![0x0du8, 0x0a, 0x3e]);
    assert(cached_reply(pid, values, false, spaces) =~= cached_lines(pid, values, false, spaces)
        + seq![0x0du8, 0x3e]);
    assert(cached_reply(pid, values, true, spaces) =~= cached_lines(pid, values, true, spaces)
        + seq![0x0du8, 0x0a, 0x3e]);
}

/// The queries for the supported PIDs ask for every thirty-second PID.
pub proof fn law_supported_pids_are_asked_by_blocks(index: int)
    requires
        0 <= index < 8,
    ensures
        command_pid(supported_pids_query(index)) == Some((32 * index) as nat),
{
    law_command_reads_back((index * 0x20) as u8);
}

/// Case does not matter for letters, and for nothing but letters.
pub proof fn law_case_does_not_matter(a: u8, b: u8)
    ensures
        same_ignoring_case(seq![a], seq![b]) <==> {
            ||| a == b
            ||| 0x41 <= a <= 0x5A && b == a + 0x20
            ||| 0x41 <= b <= 0x5A && a == b + 0x20
        },
{
    assert(seq![a][0] == a && seq![b][0] == b);
}

/// Texts that differ in length, or in a letter, are not the same.
pub proof fn law_same_text_has_same_letters(a: Seq<u8>, b: Seq<u8>, i: int)
    requires
        same_ignoring_case(a, b),
        0 <= i < a.len(),
    ensures
        a.len() == b.len(),
        same_ignoring_case(seq![a[i]], seq![b[i]]),
        same_ignoring_case(b, a),
{
    assert(folded(a[i]) == folded(b[i]));
    assert(seq![a[i]][0] == a[i]);
}

/// An AT command names no PID, in capital or in small letters; nor does a command that is
/// too short.
pub proof fn law_at_commands_name_no_pid(cmd: Seq<u8>)
    ensures
        cmd.len() >= 2 && cmd[0] == 0x41 && cmd[1] == 0x54 ==> command_pid(cmd) is None,
        cmd.len() >= 2 && cmd[0] == 0x61 && cmd[1] == 0x74 ==> command_pid(cmd) is None,
        cmd.len() < 4 ==> command_pid(cmd) is None,
{
}

/// A trailing ` 1` is dropped before a command is looked up, and any other count stays.
pub proof fn law_only_a_single_count_is_dropped(cmd: Seq<u8>, count: u8)
    requires
        forall|i: int| 0 <= i < cmd.len() ==> cmd[i] != 0x20,
        count != 0x20,
    ensures
        normalized(cmd + seq![0x20u8, 0x31]) =~= cmd,
        count != 0x31 ==> normalized(cmd + seq![0x20u8, count]) =~= cmd.push(count),
        normalized(cmd) =~= cmd,
{
    let single = cmd + seq![0x20u8, 0x31];
    assert(single.take(single.len() - 2) =~= cmd);
    lemma_no_space(cmd);
    if count != 0x31 {
        let counted = cmd + seq![0x20u8, count];
        assert(counted.last() == count);
        assert(counted.drop_last().drop_last() =~= cmd);
        assert(counted.drop_last() =~= cmd.push(0x20));
        assert(without_spaces(cmd.push(0x20)) =~= cmd) by {
            assert(cmd.push(0x20).drop_last() =~= cmd);
        }
    }
}

proof fn lemma_no_space(cmd: Seq<u8>)
    requires
        forall|i: int| 0 <= i < cmd.len() ==> cmd[i] != 0x20,
    ensures
        without_spaces(cmd) =~= cmd,
    decreases cmd.len(),
{
    if cmd.len() > 0 {
        lemma_no_space(cmd.drop_last());
        assert(cmd.last() != 0x20);
    }
}

} // verus!
