//! Reading the dongle's answers.

use crate::obd2::buffers::{CachedResponse, Obd2Buffer, Pid, PidData, PidGroup};
use crate::text::{
    chars_of, from_utf8, from_utf8_lossy, is_hex, is_hex_digit, parse_hex, parsed_hex, trim,
    trimmed, utf8_lossy, CR,
};
use smallvec::SmallVec;
use std::collections::HashMap;
use vstd::prelude::*;
use vstd::slice::slice_subrange;
use vstd::utf8::{encode_utf8, valid_utf8};

verus! {

broadcast use vstd::std_specs::hash::group_hash_axioms;

// ---------------------------------------------------------------------------
// Data lengths
// ---------------------------------------------------------------------------

/// PID to data-length lookup table, indexed by PID. `None` is an unknown
/// length.
pub type PidDataLengths = [Option<u8>; 256];

/// The service byte of an answer to service 01.
pub const ANSWER_SERVICE: u8 = 0x41;

/// Look up PID data length from a (possibly runtime-updated) lookup table.
pub fn resolve_pid_data_length(pid: u8, pid_lengths: &PidDataLengths) -> (r: Option<u8>)
    ensures
        r == pid_lengths@[pid as int],
{
    pid_lengths[pid as usize]
}

// ---------------------------------------------------------------------------
// PIDs in an answer
// ---------------------------------------------------------------------------

/// The PIDs in an answer from a position on: a PID, its data bytes, the next
/// PID. A PID of unknown length takes the rest.
pub open spec fn pids_from(data: Seq<u8>, i: int, lengths: Seq<Option<u8>>) -> Seq<u8>
    decreases
        (if i < data.len() {
            data.len() - i
        } else {
            0
        }),
{
    if i < 0 || i >= data.len() {
        Seq::empty()
    } else {
        match lengths[data[i] as int] {
            None => seq![data[i]],
            Some(n) => seq![data[i]] + pids_from(data, i + 1 + n, lengths),
        }
    }
}

/// The PIDs in an answer to service 01; none in any other.
pub open spec fn pids_in(data: Seq<u8>, lengths: Seq<Option<u8>>) -> Seq<u8> {
    if data.len() < 2 || data[0] != ANSWER_SERVICE {
        Seq::empty()
    } else {
        pids_from(data, 1, lengths)
    }
}

/// Extract all PIDs from a Mode 01 response data buffer.
///
/// Response format: `41 <PID1> <DATA1...> <PID2> <DATA2...> ...`
/// Uses `resolve_pid_data_length()` (with runtime-learned overrides) to determine how
/// many data bytes follow each PID.
pub fn extract_pids_from_response(data: &[u8], pid_lengths: &PidDataLengths) -> (r: PidGroup)
    ensures
        r@ == pids_in(data@, pid_lengths@),
{
    let mut pids = PidGroup::new();
    let n: usize = data.len();
    if n < 2 || data[0] != ANSWER_SERVICE {
        return pids;
    }
    let mut i: usize = 1;
    assert(pids@ + pids_from(data@, 1, pid_lengths@) =~= pids_from(data@, 1, pid_lengths@));
    loop
        invariant_except_break
            1 <= i < n == data@.len(),
            n >= 2,
            data@[0] == ANSWER_SERVICE,
            pids@ + pids_from(data@, i as int, pid_lengths@) == pids_in(data@, pid_lengths@),
        ensures
            pids@ == pids_in(data@, pid_lengths@),
        decreases n - i,
    {
        let pid: u8 = data[i];
        let ghost before = pids@;
        pids.push(pid);
        assert(pids@ =~= before + seq![pid]);
        match resolve_pid_data_length(pid, pid_lengths) {
            None => {
                break;
            },
            Some(len) => {
                let ghost rest = pids_from(data@, i + 1 + len, pid_lengths@);
                assert(before + (seq![pid] + rest) =~= pids@ + rest);
                if n - i <= 1 + len as usize {
                    assert(pids@ + rest =~= pids@);
                    break;
                }
                i = i + 1 + len as usize;
            },
        }
    }
    pids
}

// ---------------------------------------------------------------------------
// Framed lines
// ---------------------------------------------------------------------------

/// A single parsed response line, optionally with ECU CAN ID.
pub struct ParsedLine {
    /// Parsed 11-bit CAN ID when framing is enabled (e.g., `0x7E8`).
    pub ecu_id: Option<u16>,
    /// OBD data bytes (after PCI byte when framing, or raw hex bytes when not).
    pub data: Obd2Buffer,
}

impl View for ParsedLine {
    type V = (Option<u16>, Seq<u8>);

    open spec fn view(&self) -> (Option<u16>, Seq<u8>) {
        (self.ecu_id, self.data@)
    }
}

/// The views of parsed lines.
pub open spec fn line_views(lines: Seq<ParsedLine>) -> Seq<(Option<u16>, Seq<u8>)> {
    lines.map_values(|line: ParsedLine| line@)
}

/// The lines of an answer, in order. Mostly there are no more than four.
#[verifier::external_body]
pub struct ParsedLines {
    inner: SmallVec<[ParsedLine; 4]>,
}

/// What each of the lines holds.
pub uninterp spec fn parsed_content(lines: ParsedLines) -> Seq<(Option<u16>, Seq<u8>)>;

impl View for ParsedLines {
    type V = Seq<(Option<u16>, Seq<u8>)>;

    open spec fn view(&self) -> Seq<(Option<u16>, Seq<u8>)> {
        parsed_content(*self)
    }
}

impl ParsedLines {
    /// `SmallVec::new`: an answer without lines.
    #[verifier::external_body]
    fn new() -> (r: Self)
        ensures
            parsed_content(r) == Seq::<(Option<u16>, Seq<u8>)>::empty(),
    {
        ParsedLines { inner: SmallVec::new() }
    }

    /// `SmallVec::push` appends one line.
    #[verifier::external_body]
    fn push(&mut self, line: ParsedLine)
        ensures
            parsed_content(*final(self)) == parsed_content(*old(self)).push(line@),
    {
        self.inner.push(line);
    }

    /// `SmallVec::as_slice`: the lines, in order.
    #[verifier::external_body]
    fn as_slice(&self) -> (r: &[ParsedLine])
        ensures
            line_views(r@) == parsed_content(*self),
    {
        self.inner.as_slice()
    }

    /// The lines, in order.
    pub fn lines(&self) -> (r: &[ParsedLine])
        ensures
            line_views(r@) == self@,
    {
        self.as_slice()
    }
}

/// A text split at each carriage return.
pub open spec fn cr_split(s: Seq<char>) -> Seq<Seq<char>>
    decreases s.len(),
{
    if s.len() == 0 {
        seq![Seq::<char>::empty()]
    } else if s.last() == '\r' {
        cr_split(s.drop_last()).push(Seq::<char>::empty())
    } else {
        let front = cr_split(s.drop_last());
        front.drop_last().push(front.last().push(s.last()))
    }
}

/// A text without its spaces.
pub open spec fn squeezed(s: Seq<char>) -> Seq<char>
    decreases s.len(),
{
    if s.len() == 0 {
        Seq::empty()
    } else if s.last() == ' ' {
        squeezed(s.drop_last())
    } else {
        squeezed(s.drop_last()).push(s.last())
    }
}

/// What two characters of hexadecimal data add: their number, nothing if they
/// are no number, and zero if they are not even text.
pub open spec fn pair_data(a: u8, b: u8) -> Seq<u8> {
    if !valid_utf8(seq![a, b]) {
        seq![0u8]
    } else {
        match parsed_hex(seq![a, b]) {
            Some(value) => seq![value as u8],
            None => Seq::empty(),
        }
    }
}

/// The bytes that hexadecimal data stands for, pair by pair; a last odd
/// character is dropped.
pub open spec fn hex_data(s: Seq<u8>) -> Seq<u8>
    decreases s.len(),
{
    if s.len() < 2 {
        Seq::empty()
    } else {
        pair_data(s[0], s[1]) + hex_data(s.skip(2))
    }
}

/// What one line of an answer holds; blank lines and the prompt hold nothing.
///
/// With framing on, the first three characters are the CAN ID (0 if they are no
/// number), the next two the PCI byte, the rest is data; a line too short for
/// that is passed on as it stands.
pub open spec fn line_content(line: Seq<char>, framing: bool) -> Option<(Option<u16>, Seq<u8>)> {
    let text = trimmed(line);
    let bytes = encode_utf8(squeezed(text));
    if text.len() == 0 || text.contains('>') {
        None
    } else if !framing {
        Some((None, hex_data(bytes)))
    } else if bytes.len() < 5 {
        Some((None, bytes))
    } else {
        let id = match parsed_hex(bytes.take(3)) {
            Some(value) => value as u16,
            None => 0u16,
        };
        Some((Some(id), hex_data(bytes.skip(5))))
    }
}

/// What the lines of an answer hold.
pub open spec fn lines_content(lines: Seq<Seq<char>>, framing: bool) -> Seq<
    (Option<u16>, Seq<u8>),
>
    decreases lines.len(),
{
    if lines.len() == 0 {
        Seq::empty()
    } else {
        let front = lines_content(lines.drop_last(), framing);
        match line_content(lines.last(), framing) {
            Some(content) => front.push(content),
            None => front,
        }
    }
}

/// What an answer holds, line by line.
pub open spec fn framed_content(text: Seq<char>, framing: bool) -> Seq<(Option<u16>, Seq<u8>)> {
    lines_content(cr_split(text), framing)
}

/// The bytes of hexadecimal data from a position on.
fn read_hex_data(bytes: &[u8], from: usize) -> (r: Obd2Buffer)
    requires
        from <= bytes@.len(),
    ensures
        r@ == hex_data(bytes@.skip(from as int)),
{
    let n: usize = bytes.len();
    let mut data = Obd2Buffer::new();
    let mut i: usize = from;
    let ghost all = hex_data(bytes@.skip(from as int));
    assert(data@ + hex_data(bytes@.skip(i as int)) =~= all);
    while n - i >= 2
        invariant
            from <= i <= n == bytes@.len(),
            all == hex_data(bytes@.skip(from as int)),
            data@ + hex_data(bytes@.skip(i as int)) == all,
        decreases n - i,
    {
        let pair = slice_subrange(bytes, i, i + 2);
        let ghost a = bytes@[i as int];
        let ghost b = bytes@[i + 1];
        assert(pair@ =~= seq![a, b]);
        let ghost before = data@;
        let ghost rest = hex_data(bytes@.skip(i + 2));
        assert(bytes@.skip(i as int).skip(2) =~= bytes@.skip(i + 2));
        match from_utf8(pair) {
            None => {
                data.push(0);
                assert(data@ =~= before + seq![0u8]);
            },
            Some(_) => match parse_hex(pair) {
                Some(value) => {
                    data.push(value as u8);
                    assert(data@ =~= before + seq![value as u8]);
                },
                None => {
                    assert(data@ =~= before + Seq::<u8>::empty());
                },
            },
        }
        assert(data@ =~= before + pair_data(a, b));
        assert(data@ + rest =~= before + (pair_data(a, b) + rest));
        i = i + 2;
    }
    assert(data@ + hex_data(bytes@.skip(i as int)) =~= data@);
    data
}

/// The characters that are not spaces, as one text.
fn squeeze(s: &[char]) -> (r: String)
    ensures
        r@ == squeezed(s@),
{
    let mut out: String = String::new();
    let mut i: usize = 0;
    while i < s.len()
        invariant
            i <= s@.len(),
            out@ == squeezed(s@.take(i as int)),
        decreases s@.len() - i,
    {
        assert(s@.take(i + 1).drop_last() =~= s@.take(i as int));
        if s[i] != ' ' {
            out.push(s[i]);
        }
        i = i + 1;
    }
    assert(s@.take(i as int) =~= s@);
    out
}

fn has_prompt(s: &[char]) -> (r: bool)
    ensures
        r == s@.contains('>'),
{
    let mut i: usize = 0;
    while i < s.len()
        invariant
            i <= s@.len(),
            forall|j: int| 0 <= j < i ==> s@[j] != '>',
        decreases s@.len() - i,
    {
        if s[i] == '>' {
            assert(s@[i as int] == '>');
            return true;
        }
        i = i + 1;
    }
    false
}

/// What one line of an answer holds.
fn parse_line(line: &[char], framing_enabled: bool) -> (r: Option<ParsedLine>)
    ensures
        match r {
            Some(parsed) => line_content(line@, framing_enabled) == Some(parsed@),
            None => line_content(line@, framing_enabled) is None,
        },
{
    let text: Vec<char> = trim(line);
    if text.len() == 0 || has_prompt(text.as_slice()) {
        return None;
    }
    let compact: String = squeeze(text.as_slice());
    let bytes: &[u8] = compact.as_str().as_bytes();
    if !framing_enabled {
        let data = read_hex_data(bytes, 0);
        assert(bytes@.skip(0) =~= bytes@);
        return Some(ParsedLine { ecu_id: None, data });
    }
    if bytes.len() < 5 {
        return Some(ParsedLine { ecu_id: None, data: Obd2Buffer::of(bytes) });
    }
    let id_text = slice_subrange(bytes, 0, 3);
    assert(id_text@ =~= bytes@.take(3));
    let ecu_id: u16 = match parse_hex(id_text) {
        Some(value) => value as u16,
        None => 0,
    };
    let data = read_hex_data(bytes, 5);
    Some(ParsedLine { ecu_id: Some(ecu_id), data })
}

/// Parse an answer that is already text into structured lines.
pub fn parse_lines(text: &str, framing_enabled: bool) -> (r: ParsedLines)
    ensures
        r@ == framed_content(text@, framing_enabled),
{
    let s: Vec<char> = chars_of(text);
    let mut lines = ParsedLines::new();
    let mut current: Vec<char> = Vec::new();
    let mut i: usize = 0;
    proof {
        let split = cr_split(s@.take(0));
        assert(split =~= seq![Seq::<char>::empty()]);
        assert(split.drop_last() =~= Seq::empty());
    }
    while i < s.len()
        invariant
            i <= s@.len(),
            cr_split(s@.take(i as int)).len() > 0,
            current@ == cr_split(s@.take(i as int)).last(),
            lines@ == lines_content(
                cr_split(s@.take(i as int)).drop_last(),
                framing_enabled,
            ),
        decreases s@.len() - i,
    {
        let ghost split = cr_split(s@.take(i as int));
        let ghost next = cr_split(s@.take(i + 1));
        assert(s@.take(i + 1).drop_last() =~= s@.take(i as int));
        if s[i] == '\r' {
            assert(next.drop_last() =~= split);
            finish_line(&mut lines, current.as_slice(), framing_enabled);
            current = Vec::new();
            assert(current@ =~= next.last());
        } else {
            current.push(s[i]);
            assert(next.drop_last() =~= split.drop_last());
        }
        i = i + 1;
    }
    assert(s@.take(i as int) =~= s@);
    finish_line(&mut lines, current.as_slice(), framing_enabled);
    lines
}

/// Append what one line holds, if anything.
fn finish_line(lines: &mut ParsedLines, line: &[char], framing_enabled: bool)
    ensures
        final(lines)@ == match line_content(line@, framing_enabled) {
            Some(content) => old(lines)@.push(content),
            None => old(lines)@,
        },
{
    match parse_line(line, framing_enabled) {
        Some(parsed) => {
            lines.push(parsed);
        },
        None => {},
    }
}

/// Parse a raw dongle response into structured lines.
///
/// When `framing_enabled` is true (ATH1), expects format like:
/// `7E8 03 41 0C 1A F8\r7E9 03 41 0C 1B 00\r>`
///
/// When `framing_enabled` is false (ATH0), expects format like:
/// `41 0C 1A F8\r41 0C 1B 00\r>`
pub fn parse_response_framed(response: &[u8], framing_enabled: bool) -> (r: ParsedLines)
    ensures
        r@ == framed_content(utf8_lossy(response@), framing_enabled),
{
    let text: String = from_utf8_lossy(response);
    parse_lines(text.as_str(), framing_enabled)
}

// ---------------------------------------------------------------------------
// ECU counts
// ---------------------------------------------------------------------------

/// The PIDs of all lines, one after the other.
pub open spec fn pids_of_lines(
    lines: Seq<(Option<u16>, Seq<u8>)>,
    lengths: Seq<Option<u8>>,
) -> Seq<u8>
    decreases lines.len(),
{
    if lines.len() == 0 {
        Seq::empty()
    } else {
        pids_of_lines(lines.drop_last(), lengths) + pids_in(lines.last().1, lengths)
    }
}

/// How often a value occurs.
pub open spec fn occurrences(s: Seq<u8>, value: u8) -> nat
    decreases s.len(),
{
    if s.len() == 0 {
        0
    } else if s.last() == value {
        occurrences(s.drop_last(), value) + 1
    } else {
        occurrences(s.drop_last(), value)
    }
}

/// The PIDs that an ECU reports, each with the ECU's CAN ID.
pub open spec fn tagged(pids: Seq<u8>, ecu_id: u16) -> Seq<(u8, u16)> {
    pids.map_values(|pid: u8| (pid, ecu_id))
}

/// The PIDs of all lines that carry a CAN ID, each with that ID.
pub open spec fn tagged_pids_of_lines(
    lines: Seq<(Option<u16>, Seq<u8>)>,
    lengths: Seq<Option<u8>>,
) -> Seq<(u8, u16)>
    decreases lines.len(),
{
    if lines.len() == 0 {
        Seq::empty()
    } else {
        let front = tagged_pids_of_lines(lines.drop_last(), lengths);
        match lines.last().0 {
            Some(ecu_id) => front + tagged(pids_in(lines.last().1, lengths), ecu_id),
            None => front,
        }
    }
}

/// The first occurrence of each pair, in order.
pub open spec fn distinct(s: Seq<(u8, u16)>) -> Seq<(u8, u16)>
    decreases s.len(),
{
    if s.len() == 0 {
        Seq::empty()
    } else {
        let front = distinct(s.drop_last());
        if front.contains(s.last()) {
            front
        } else {
            front.push(s.last())
        }
    }
}

/// The PIDs of tagged pairs.
pub open spec fn untagged(s: Seq<(u8, u16)>) -> Seq<u8> {
    s.map_values(|pair: (u8, u16)| pair.0)
}

/// The PIDs that are counted, once per ECU: with framing on, a PID counts once
/// for each CAN ID that reports it; without, each time that it occurs.
pub open spec fn counted_pids(
    lines: Seq<(Option<u16>, Seq<u8>)>,
    framing: bool,
    lengths: Seq<Option<u8>>,
) -> Seq<u8> {
    if framing {
        untagged(distinct(tagged_pids_of_lines(lines, lengths)))
    } else {
        pids_of_lines(lines, lengths)
    }
}

/// The map holds, for each PID that occurs, how often it does (modulo 256).
pub open spec fn counts_of(map: Map<u8, u8>, pids: Seq<u8>) -> bool {
    forall|pid: u8|
        {
            &&& #[trigger] map.contains_key(pid) <==> occurrences(pids, pid) > 0
            &&& map.contains_key(pid) ==> map[pid] == (occurrences(pids, pid) % 256) as u8
        }
}

/// Count one more occurrence of a PID.
fn count_pid(counts: &mut HashMap<u8, u8>, pid: u8, Ghost(pids): Ghost<Seq<u8>>)
    requires
        counts_of(old(counts)@, pids),
    ensures
        counts_of(final(counts)@, pids.push(pid)),
{
    let before: u8 = match counts.get(&pid) {
        Some(count) => *count,
        None => 0,
    };
    let after: u8 = before.wrapping_add(1);
    counts.insert(pid, after);
    assert(pids.push(pid).drop_last() =~= pids);
    assert forall|p: u8|
        {
            &&& #[trigger] counts@.contains_key(p) <==> occurrences(pids.push(pid), p) > 0
            &&& counts@.contains_key(p) ==> counts@[p] == (occurrences(pids.push(pid), p)
                % 256) as u8
        } by {
        assert(old(counts)@.contains_key(p) <==> occurrences(pids, p) > 0);
        assert(old(counts)@.contains_key(pid) <==> occurrences(pids, pid) > 0);
    }
}

fn contains_pair(pairs: &Vec<(u8, u16)>, pair: (u8, u16)) -> (r: bool)
    ensures
        r == pairs@.contains(pair),
{
    let mut i: usize = 0;
    while i < pairs.len()
        invariant
            i <= pairs@.len(),
            forall|j: int| 0 <= j < i ==> pairs@[j] != pair,
        decreases pairs@.len() - i,
    {
        if pairs[i].0 == pair.0 && pairs[i].1 == pair.1 {
            assert(pairs@[i as int] == pair);
            return true;
        }
        i = i + 1;
    }
    false
}

/// Count ECUs per PID from parsed response lines.
///
/// Returns a map of PID byte to ECU count. Works for both single and multi-PID
/// queries by parsing the full response data using `resolve_pid_data_length()` to
/// determine byte boundaries.
///
/// For multi-PID responses like `41 0C 0C B8 05 62`, this parses:
/// - 0x41 = mode 01 response
/// - 0x0C = PID (RPM), followed by 2 data bytes
/// - 0x05 = PID (coolant), followed by 1 data byte
///
/// When framing is enabled, also verifies unique CAN IDs per PID. Counts are
/// kept modulo 256.
pub fn count_ecus_per_pid(
    parsed: &[ParsedLine],
    framing_enabled: bool,
    pid_lengths: &PidDataLengths,
) -> (r: HashMap<u8, u8>)
    ensures
        counts_of(r@, counted_pids(line_views(parsed@), framing_enabled, pid_lengths@)),
{
    if framing_enabled {
        count_unique_ecus(parsed, pid_lengths)
    } else {
        count_all_pids(parsed, pid_lengths)
    }
}

fn count_all_pids(parsed: &[ParsedLine], pid_lengths: &PidDataLengths) -> (r: HashMap<u8, u8>)
    ensures
        counts_of(r@, pids_of_lines(line_views(parsed@), pid_lengths@)),
{
    let mut counts: HashMap<u8, u8> = HashMap::new();
    let ghost lines = line_views(parsed@);
    let mut i: usize = 0;
    while i < parsed.len()
        invariant
            i <= parsed@.len(),
            lines == line_views(parsed@),
            counts_of(counts@, pids_of_lines(lines.take(i as int), pid_lengths@)),
        decreases parsed@.len() - i,
    {
        let ghost front = pids_of_lines(lines.take(i as int), pid_lengths@);
        let group = extract_pids_from_response(parsed[i].data.bytes(), pid_lengths);
        let pids = group.bytes();
        assert(lines.take(i + 1).drop_last() =~= lines.take(i as int));
        assert(lines.take(i + 1).last() == parsed@[i as int]@);
        let mut k: usize = 0;
        assert(front + pids@.take(0) =~= front);
        while k < pids.len()
            invariant
                k <= pids@.len(),
                counts_of(counts@, front + pids@.take(k as int)),
            decreases pids@.len() - k,
        {
            count_pid(&mut counts, pids[k], Ghost(front + pids@.take(k as int)));
            assert((front + pids@.take(k as int)).push(pids@[k as int]) =~= front + pids@.take(
                k + 1,
            ));
            k = k + 1;
        }
        assert(pids@.take(k as int) =~= pids@);
        i = i + 1;
    }
    assert(lines.take(i as int) =~= lines);
    counts
}

proof fn lemma_distinct_push(s: Seq<(u8, u16)>, pair: (u8, u16))
    ensures
        distinct(s.push(pair)) == if distinct(s).contains(pair) {
            distinct(s)
        } else {
            distinct(s).push(pair)
        },
{
    assert(s.push(pair).drop_last() =~= s);
}

fn count_unique_ecus(parsed: &[ParsedLine], pid_lengths: &PidDataLengths) -> (r: HashMap<u8, u8>)
    ensures
        counts_of(
            r@,
            untagged(distinct(tagged_pids_of_lines(line_views(parsed@), pid_lengths@))),
        ),
{
    let mut counts: HashMap<u8, u8> = HashMap::new();
    let mut seen: Vec<(u8, u16)> = Vec::new();
    let ghost lines = line_views(parsed@);
    let mut i: usize = 0;
    assert(untagged(seen@) =~= Seq::<u8>::empty());
    while i < parsed.len()
        invariant
            i <= parsed@.len(),
            lines == line_views(parsed@),
            seen@ == distinct(tagged_pids_of_lines(lines.take(i as int), pid_lengths@)),
            counts_of(counts@, untagged(seen@)),
        decreases parsed@.len() - i,
    {
        let ghost front = tagged_pids_of_lines(lines.take(i as int), pid_lengths@);
        assert(lines.take(i + 1).drop_last() =~= lines.take(i as int));
        assert(lines.take(i + 1).last() == parsed@[i as int]@);
        match parsed[i].ecu_id {
            None => {},
            Some(ecu_id) => {
                let group = extract_pids_from_response(parsed[i].data.bytes(), pid_lengths);
                let pids = group.bytes();
                let ghost tags = tagged(pids@, ecu_id);
                let mut k: usize = 0;
                assert(front + tags.take(0) =~= front);
                while k < pids.len()
                    invariant
                        k <= pids@.len(),
                        tags == tagged(pids@, ecu_id),
                        seen@ == distinct(front + tags.take(k as int)),
                        counts_of(counts@, untagged(seen@)),
                    decreases pids@.len() - k,
                {
                    let pair: (u8, u16) = (pids[k], ecu_id);
                    assert((front + tags.take(k as int)).push(pair) =~= front + tags.take(k + 1));
                    proof {
                        lemma_distinct_push(front + tags.take(k as int), pair);
                    }
                    if !contains_pair(&seen, pair) {
                        count_pid(&mut counts, pids[k], Ghost(untagged(seen@)));
                        assert(untagged(seen@.push(pair)) =~= untagged(seen@).push(pair.0));
                        seen.push(pair);
                    }
                    k = k + 1;
                }
                assert(tags.take(k as int) =~= tags);
            },
        }
        i = i + 1;
    }
    assert(lines.take(i as int) =~= lines);
    counts
}

// ---------------------------------------------------------------------------
// Cache entries
// ---------------------------------------------------------------------------

/// Bytes split at each carriage return.
pub open spec fn cr_lines(s: Seq<u8>) -> Seq<Seq<u8>>
    decreases s.len(),
{
    if s.len() == 0 {
        seq![Seq::<u8>::empty()]
    } else if s.last() == CR {
        cr_lines(s.drop_last()).push(Seq::<u8>::empty())
    } else {
        let front = cr_lines(s.drop_last());
        front.drop_last().push(front.last().push(s.last()))
    }
}

/// The hexadecimal digits among bytes.
pub open spec fn hex_digits_of(s: Seq<u8>) -> Seq<u8>
    decreases s.len(),
{
    if s.len() == 0 {
        Seq::empty()
    } else if is_hex_digit(s.last()) {
        hex_digits_of(s.drop_last()).push(s.last())
    } else {
        hex_digits_of(s.drop_last())
    }
}

/// The bytes that pairs of hexadecimal digits stand for; a last odd digit is
/// dropped.
pub open spec fn digit_pairs(s: Seq<u8>) -> Seq<u8> {
    Seq::new(
        s.len() / 2,
        |i: int|
            (crate::text::hex_digit_value(s[2 * i]) * 16 + crate::text::hex_digit_value(
                s[2 * i + 1],
            )) as u8,
    )
}

/// The PIDs of an answer from a position on, each with its data. A PID of
/// unknown length takes the rest, and a last PID what there is.
pub open spec fn entries_from(bytes: Seq<u8>, i: int, lengths: Seq<Option<u8>>) -> Seq<
    (u8, Seq<u8>),
>
    decreases
        (if i < bytes.len() {
            bytes.len() - i
        } else {
            0
        }),
{
    if i < 0 || i >= bytes.len() {
        Seq::empty()
    } else {
        match lengths[bytes[i] as int] {
            None => seq![(bytes[i], bytes.skip(i + 1))],
            Some(n) => {
                let end = if i + 1 + n < bytes.len() {
                    i + 1 + n
                } else {
                    bytes.len() as int
                };
                seq![(bytes[i], bytes.subrange(i + 1, end))] + entries_from(
                    bytes,
                    i + 1 + n,
                    lengths,
                )
            },
        }
    }
}

/// What one line adds to the cache: nothing, unless it answers service 01.
pub open spec fn line_entries(line: Seq<u8>, lengths: Seq<Option<u8>>) -> Seq<(u8, Seq<u8>)> {
    let bytes = digit_pairs(hex_digits_of(line));
    if bytes.len() < 2 || bytes[0] != ANSWER_SERVICE {
        Seq::empty()
    } else {
        entries_from(bytes, 1, lengths)
    }
}

/// What lines add to the cache, in order.
pub open spec fn lines_entries(lines: Seq<Seq<u8>>, lengths: Seq<Option<u8>>) -> Seq<
    (u8, Seq<u8>),
>
    decreases lines.len(),
{
    if lines.len() == 0 {
        Seq::empty()
    } else {
        lines_entries(lines.drop_last(), lengths) + line_entries(lines.last(), lengths)
    }
}

/// What an answer adds to the cache, in order.
pub open spec fn response_entries(raw: Seq<u8>, lengths: Seq<Option<u8>>) -> Seq<(u8, Seq<u8>)> {
    lines_entries(cr_lines(raw), lengths)
}

/// The data of one PID among entries, in order: one element per ECU.
pub open spec fn data_of_pid(entries: Seq<(u8, Seq<u8>)>, pid: u8) -> Seq<Seq<u8>>
    decreases entries.len(),
{
    if entries.len() == 0 {
        Seq::empty()
    } else if entries.last().0 == pid {
        data_of_pid(entries.drop_last(), pid).push(entries.last().1)
    } else {
        data_of_pid(entries.drop_last(), pid)
    }
}

/// The map holds the entries grouped by PID.
pub open spec fn groups_entries(
    map: Map<Pid, CachedResponse>,
    entries: Seq<(u8, Seq<u8>)>,
) -> bool {
    forall|pid: u8|
        {
            &&& #[trigger] map.contains_key(pid) <==> data_of_pid(entries, pid).len() > 0
            &&& map.contains_key(pid) ==> map[pid]@ == data_of_pid(entries, pid)
        }
}

/// File one entry under its PID.
fn add_entry(
    map: &mut HashMap<Pid, CachedResponse>,
    pid: Pid,
    data: PidData,
    Ghost(entries): Ghost<Seq<(u8, Seq<u8>)>>,
)
    requires
        groups_entries(old(map)@, entries),
    ensures
        groups_entries(final(map)@, entries.push((pid, data@))),
{
    let ghost bytes = data@;
    let ghost all = entries.push((pid, bytes));
    assert(old(map)@.contains_key(pid) <==> data_of_pid(entries, pid).len() > 0);
    let mut response = match map.remove(&pid) {
        Some(response) => response,
        None => CachedResponse::new(),
    };
    assert(response@ =~= data_of_pid(entries, pid));
    response.push(data);
    map.insert(pid, response);
    assert(all.drop_last() =~= entries);
    assert forall|p: u8|
        {
            &&& #[trigger] map@.contains_key(p) <==> data_of_pid(all, p).len() > 0
            &&& map@.contains_key(p) ==> map@[p]@ == data_of_pid(all, p)
        } by {
        assert(old(map)@.contains_key(p) <==> data_of_pid(entries, p).len() > 0);
    }
}

/// The bytes that the hexadecimal digits of a line stand for.
fn line_bytes(line: &[u8]) -> (r: Vec<u8>)
    ensures
        r@ == digit_pairs(hex_digits_of(line@)),
{
    let mut digits: Vec<u8> = Vec::new();
    let mut i: usize = 0;
    while i < line.len()
        invariant
            i <= line@.len(),
            digits@ == hex_digits_of(line@.take(i as int)),
            forall|j: int| 0 <= j < digits@.len() ==> is_hex_digit(#[trigger] digits@[j]),
        decreases line@.len() - i,
    {
        assert(line@.take(i + 1).drop_last() =~= line@.take(i as int));
        if is_hex(line[i]) {
            digits.push(line[i]);
        }
        i = i + 1;
    }
    assert(line@.take(i as int) =~= line@);
    let mut bytes: Vec<u8> = Vec::new();
    let n: usize = digits.len();
    let count: usize = n / 2;
    let mut k: usize = 0;
    while k < count
        invariant
            n == digits@.len(),
            k <= count == n / 2,
            forall|j: int| 0 <= j < digits@.len() ==> is_hex_digit(#[trigger] digits@[j]),
            bytes@ == digit_pairs(digits@).take(k as int),
        decreases count - k,
    {
        let high: u8 = crate::text::hex_value(digits[2 * k]);
        let low: u8 = crate::text::hex_value(digits[2 * k + 1]);
        bytes.push(high * 16 + low);
        assert(digit_pairs(digits@).take(k + 1) =~= digit_pairs(digits@).take(k as int).push(
            (high * 16 + low) as u8,
        ));
        k = k + 1;
    }
    assert(digit_pairs(digits@).take(k as int) =~= digit_pairs(digits@));
    bytes
}

/// File what one line adds to the cache.
fn add_line(
    map: &mut HashMap<Pid, CachedResponse>,
    line: &[u8],
    pid_lengths: &PidDataLengths,
    Ghost(entries): Ghost<Seq<(u8, Seq<u8>)>>,
)
    requires
        groups_entries(old(map)@, entries),
    ensures
        groups_entries(final(map)@, entries + line_entries(line@, pid_lengths@)),
{
    let bytes: Vec<u8> = line_bytes(line);
    let n: usize = bytes.len();
    assert(entries + Seq::<(u8, Seq<u8>)>::empty() =~= entries);
    if n < 2 || bytes[0] != ANSWER_SERVICE {
        return;
    }
    let ghost lengths = pid_lengths@;
    let ghost added = line_entries(line@, lengths);
    let ghost mut done = entries;
    let mut i: usize = 1;
    loop
        invariant_except_break
            1 <= i < n == bytes@.len(),
            lengths == pid_lengths@,
            groups_entries(map@, done),
            done + entries_from(bytes@, i as int, lengths) == entries + added,
        ensures
            groups_entries(map@, entries + added),
        decreases n - i,
    {
        let pid: u8 = bytes[i];
        match resolve_pid_data_length(pid, pid_lengths) {
            None => {
                let data = PidData::of(slice_subrange(bytes.as_slice(), i + 1, n));
                assert(data@ =~= bytes@.skip(i + 1));
                add_entry(map, pid, data, Ghost(done));
                assert(done.push((pid, data@)) =~= done + entries_from(
                    bytes@,
                    i as int,
                    lengths,
                ));
                break;
            },
            Some(len) => {
                let len: usize = len as usize;
                let end: usize = if n - i > 1 + len {
                    i + 1 + len
                } else {
                    n
                };
                let data = PidData::of(slice_subrange(bytes.as_slice(), i + 1, end));
                assert(data@ =~= bytes@.subrange(i + 1, end as int));
                add_entry(map, pid, data, Ghost(done));
                let ghost rest = entries_from(bytes@, i + 1 + len, lengths);
                assert(done.push((pid, data@)) + rest =~= done + (seq![(pid, data@)] + rest));
                proof {
                    done = done.push((pid, data@));
                }
                if n - i <= 1 + len {
                    assert(done + rest =~= done);
                    break;
                }
                i = i + 1 + len;
            },
        }
    }
}

/// Parse a raw dongle response into cache entries grouped by PID.
///
/// The dongle returns responses like `410C1AF8\r410C1B00\r\r>`.
/// This splits on `\r`, parses each ECU response, and groups data by PID.
/// For multi-PID responses like `410C0CB805627D`, splits into separate entries.
///
/// Returns a map of PID to `CachedResponse` (data per ECU).
/// Only parses Mode 01 (0x41) responses.
pub fn parse_response_to_cache(
    raw: &[u8],
    pid_lengths: &PidDataLengths,
) -> (r: HashMap<Pid, CachedResponse>)
    ensures
        groups_entries(r@, response_entries(raw@, pid_lengths@)),
{
    let mut result: HashMap<Pid, CachedResponse> = HashMap::new();
    let mut line: Vec<u8> = Vec::new();
    let mut i: usize = 0;
    proof {
        let split = cr_lines(raw@.take(0));
        assert(split =~= seq![Seq::<u8>::empty()]);
        assert(split.drop_last() =~= Seq::empty());
    }
    while i < raw.len()
        invariant
            i <= raw@.len(),
            cr_lines(raw@.take(i as int)).len() > 0,
            line@ == cr_lines(raw@.take(i as int)).last(),
            groups_entries(
                result@,
                lines_entries(cr_lines(raw@.take(i as int)).drop_last(), pid_lengths@),
            ),
        decreases raw@.len() - i,
    {
        let ghost split = cr_lines(raw@.take(i as int));
        let ghost next = cr_lines(raw@.take(i + 1));
        assert(raw@.take(i + 1).drop_last() =~= raw@.take(i as int));
        if raw[i] == CR {
            assert(next.drop_last() =~= split);
            add_line(
                &mut result,
                line.as_slice(),
                pid_lengths,
                Ghost(lines_entries(split.drop_last(), pid_lengths@)),
            );
            line = Vec::new();
            assert(line@ =~= next.last());
        } else {
            line.push(raw[i]);
            assert(next.drop_last() =~= split.drop_last());
        }
        i = i + 1;
    }
    assert(raw@.take(i as int) =~= raw@);
    add_line(
        &mut result,
        line.as_slice(),
        pid_lengths,
        Ghost(lines_entries(cr_lines(raw@).drop_last(), pid_lengths@)),
    );
    result
}

// ---------------------------------------------------------------------------
// Laws
// ---------------------------------------------------------------------------

/// PIDs with their data, one behind the other.
pub open spec fn strung(entries: Seq<(u8, Seq<u8>)>) -> Seq<u8>
    decreases entries.len(),
{
    if entries.len() == 0 {
        Seq::empty()
    } else {
        seq![entries[0].0] + entries[0].1 + strung(entries.drop_first())
    }
}

/// An answer for several PIDs splits into them: each PID is found with as many data
/// bytes as its length says.
pub proof fn law_answer_splits_into_pids(
    head: Seq<u8>,
    entries: Seq<(u8, Seq<u8>)>,
    lengths: Seq<Option<u8>>,
)
    requires
        lengths.len() == 256,
        forall|i: int|
            0 <= i < entries.len() ==> lengths[(#[trigger] entries[i]).0 as int] == Some(
                entries[i].1.len() as u8,
            ) && entries[i].1.len() < 256,
    ensures
        entries_from(head + strung(entries), head.len() as int, lengths) == entries,
        pids_from(head + strung(entries), head.len() as int, lengths) == entries.map_values(
            |entry: (u8, Seq<u8>)| entry.0,
        ),
    decreases entries.len(),
{
    let bytes = head + strung(entries);
    let at = head.len() as int;
    let pids = entries.map_values(|entry: (u8, Seq<u8>)| entry.0);
    if entries.len() == 0 {
        assert(bytes =~= head);
        assert(pids =~= Seq::empty());
        assert(entries =~= Seq::empty());
    } else {
        let (pid, data) = entries[0];
        let rest = entries.drop_first();
        let next = head + seq![pid] + data;
        assert(lengths[entries[0].0 as int] == Some(data.len() as u8));
        assert forall|i: int| 0 <= i < rest.len() implies lengths[(#[trigger] rest[i]).0 as int]
            == Some(rest[i].1.len() as u8) && rest[i].1.len() < 256 by {
            assert(rest[i] == entries[i + 1]);
        }
        law_answer_splits_into_pids(next, rest, lengths);
        assert(bytes =~= next + strung(rest));
        assert(bytes[at] == pid);
        assert(next.len() == at + 1 + data.len());
        assert(bytes.subrange(at + 1, at + 1 + data.len()) =~= data);
        assert(seq![(pid, data)] + rest =~= entries);
        assert(seq![pid] + rest.map_values(|entry: (u8, Seq<u8>)| entry.0) =~= pids);
    }
}

/// Only an answer to service 01 holds PIDs, and one of a PID whose length is not known
/// holds that PID with all the rest.
pub proof fn law_answers_are_to_service_one(data: Seq<u8>, lengths: Seq<Option<u8>>)
    ensures
        data.len() < 2 || data[0] != 0x41 ==> pids_in(data, lengths) == Seq::<u8>::empty(),
        data.len() >= 2 && data[0] == 0x41 ==> pids_in(data, lengths).len() > 0 && pids_in(
            data,
            lengths,
        )[0] == data[1],
        data.len() >= 2 && data[0] == 0x41 && lengths[data[1] as int] is None ==> pids_in(
            data,
            lengths,
        ) == seq![data[1]] && entries_from(data, 1, lengths) == seq![(data[1], data.skip(2))],
{
}

/// How often a value occurs is its count in the bag of all values.
pub proof fn law_occurrences_count(s: Seq<u8>, value: u8)
    ensures
        occurrences(s, value) == s.to_multiset().count(value),
    decreases s.len(),
{
    broadcast use vstd::seq_lib::group_to_multiset_ensures;

    if s.len() > 0 {
        law_occurrences_count(s.drop_last(), value);
        assert(s =~= s.drop_last().push(s.last()));
    }
}

/// With framing on each ECU counts once for a PID: the pairs that are counted are those
/// that were seen, without repetition.
pub proof fn law_each_ecu_counts_once(s: Seq<(u8, u16)>, pair: (u8, u16))
    ensures
        distinct(s).no_duplicates(),
        distinct(s).contains(pair) <==> s.contains(pair),
    decreases s.len(),
{
    if s.len() > 0 {
        let front = s.drop_last();
        law_each_ecu_counts_once(front, pair);
        law_each_ecu_counts_once(front, s.last());
        let before = distinct(front);
        let now = distinct(s);
        if s.contains(pair) && pair != s.last() {
            let i = choose|i: int| 0 <= i < s.len() && s[i] == pair;
            assert(front[i] == pair);
        }
        if front.contains(pair) {
            let i = choose|i: int| 0 <= i < front.len() && front[i] == pair;
            assert(s[i] == pair);
        }
        assert(s[s.len() - 1] == s.last());
        if !before.contains(s.last()) {
            assert(now =~= before.push(s.last()));
            assert(now[before.len() as int] == s.last());
            if before.contains(pair) {
                let i = choose|i: int| 0 <= i < before.len() && before[i] == pair;
                assert(now[i] == pair);
            }
            if now.contains(pair) && pair != s.last() {
                let i = choose|i: int| 0 <= i < now.len() && now[i] == pair;
                assert(before[i] == pair);
            }
        }
    }
}

/// A PID's data are gathered from all entries in their order, and no other PID's.
pub proof fn law_data_are_gathered_by_pid(
    front: Seq<(u8, Seq<u8>)>,
    back: Seq<(u8, Seq<u8>)>,
    pid: u8,
    data: Seq<u8>,
    other: u8,
)
    ensures
        data_of_pid(front + back, pid) == data_of_pid(front, pid) + data_of_pid(back, pid),
        data_of_pid(seq![(pid, data)], pid) == seq![data],
        other != pid ==> data_of_pid(seq![(pid, data)], other) == Seq::<Seq<u8>>::empty(),
    decreases back.len(),
{
    assert(seq![(pid, data)].drop_last() =~= Seq::<(u8, Seq<u8>)>::empty());
    assert(data_of_pid(Seq::<(u8, Seq<u8>)>::empty(), pid) =~= Seq::empty());
    assert(data_of_pid(Seq::<(u8, Seq<u8>)>::empty(), other) =~= Seq::empty());
    assert(data_of_pid(seq![(pid, data)], pid) =~= seq![data]);
    if back.len() == 0 {
        assert(front + back =~= front);
        assert(data_of_pid(front, pid) + data_of_pid(back, pid) =~= data_of_pid(front, pid));
    } else {
        law_data_are_gathered_by_pid(front, back.drop_last(), pid, data, other);
        assert((front + back).drop_last() =~= front + back.drop_last());
        let a = data_of_pid(front, pid);
        let b = data_of_pid(back.drop_last(), pid);
        assert((a + b).push(back.last().1) =~= a + b.push(back.last().1));
    }
}

/// The line behind the last carriage return is a line of its own.
pub proof fn law_lines_end_at_carriage_returns(front: Seq<char>, line: Seq<char>)
    requires
        !line.contains('\r'),
    ensures
        cr_split(front.push('\r') + line) == cr_split(front).push(line),
        cr_split(line) == seq![line],
    decreases line.len(),
{
    if line.len() == 0 {
        assert(front.push('\r') + line =~= front.push('\r'));
        assert(front.push('\r').drop_last() =~= front);
        assert(line =~= Seq::empty());
    } else {
        let less = line.drop_last();
        assert forall|i: int| 0 <= i < less.len() implies less[i] != '\r' by {
            assert(line.contains(line[i]));
        }
        assert(line.contains(line.last()));
        law_lines_end_at_carriage_returns(front, less);
        let whole = front.push('\r') + line;
        assert(whole.drop_last() =~= front.push('\r') + less);
        assert(cr_split(front).push(less).drop_last() =~= cr_split(front));
        assert(less.push(line.last()) =~= line);
        assert(cr_split(whole) =~= cr_split(front).push(line));
        assert(seq![less].drop_last() =~= Seq::empty());
        assert(cr_split(line) =~= seq![line]);
    }
}

/// Each line is taken by itself, in order.
pub proof fn law_lines_are_taken_in_order(
    front: Seq<char>,
    line: Seq<char>,
    framing: bool,
)
    requires
        !line.contains('\r'),
    ensures
        framed_content(front.push('\r') + line, framing) == match line_content(line, framing) {
            Some(content) => framed_content(front, framing).push(content),
            None => framed_content(front, framing),
        },
{
    law_lines_end_at_carriage_returns(front, line);
    assert(cr_split(front).push(line).drop_last() =~= cr_split(front));
}

proof fn lemma_ascii_char(c: char)
    requires
        (c as u32) < 0x80,
    ensures
        '\0' <= c <= '\u{7f}',
{
}

proof fn lemma_hex_line(line: Seq<char>)
    requires
        forall|i: int|
            0 <= i < line.len() ==> (#[trigger] line[i] as u32) < 0x80 && is_hex_digit(
                line[i] as u8,
            ),
    ensures
        trimmed(line) == line,
        squeezed(line) == line,
        encode_utf8(line) == line.map_values(|c: char| c as u8),
        !line.contains('>'),
{
    if line.len() > 0 {
        let first = line[0];
        let last = line[line.len() - 1];
        assert((first as u32) < 0x80 && is_hex_digit(first as u8));
        assert((last as u32) < 0x80 && is_hex_digit(last as u8));
    }
    lemma_squeezed_keeps(line);
    assert forall|i: int| 0 <= i < line.len() implies '\0' <= #[trigger] line[i] <= '\u{7f}' by {
        lemma_ascii_char(line[i]);
    }
    assert(vstd::utf8::is_ascii_chars(line));
    vstd::utf8::is_ascii_chars_encode_utf8(line);
    assert(encode_utf8(line) =~= line.map_values(|c: char| c as u8));
    assert forall|i: int| 0 <= i < line.len() implies line[i] != '>' by {
        assert(is_hex_digit(line[i] as u8));
    }
}

proof fn lemma_squeezed_keeps(s: Seq<char>)
    requires
        forall|i: int| 0 <= i < s.len() ==> (#[trigger] s[i] as u32) < 0x80 && is_hex_digit(s[i] as u8),
    ensures
        squeezed(s) == s,
    decreases s.len(),
{
    if s.len() > 0 {
        let front = s.drop_last();
        assert forall|i: int| 0 <= i < front.len() implies (#[trigger] front[i] as u32) < 0x80
            && is_hex_digit(front[i] as u8) by {
            assert(front[i] == s[i]);
        }
        lemma_squeezed_keeps(front);
        assert(is_hex_digit(s[s.len() - 1] as u8));
        assert(front.push(s.last()) =~= s);
    }
}

/// Hexadecimal digits stand for one byte a pair.
pub proof fn law_pairs_are_bytes(s: Seq<u8>)
    requires
        forall|i: int| 0 <= i < s.len() ==> is_hex_digit(#[trigger] s[i]),
    ensures
        hex_data(s).len() == s.len() / 2,
        forall|i: int|
            0 <= i < s.len() / 2 ==> #[trigger] hex_data(s)[i] == crate::text::hex_digit_value(
                s[2 * i],
            ) * 16 + crate::text::hex_digit_value(s[2 * i + 1]),
    decreases s.len(),
{
    if s.len() >= 2 {
        let rest = s.skip(2);
        assert forall|i: int| 0 <= i < rest.len() implies is_hex_digit(#[trigger] rest[i]) by {
            assert(rest[i] == s[i + 2]);
        }
        law_pairs_are_bytes(rest);
        let pair = seq![s[0], s[1]];
        assert(is_hex_digit(s[0]) && is_hex_digit(s[1]));
        lemma_pair(s[0], s[1]);
        assert forall|i: int| 0 <= i < s.len() / 2 implies #[trigger] hex_data(s)[i]
            == crate::text::hex_digit_value(s[2 * i]) * 16 + crate::text::hex_digit_value(
            s[2 * i + 1],
        ) by {
            if i > 0 {
                assert(hex_data(s)[i] == hex_data(rest)[i - 1]);
                assert(rest[2 * (i - 1)] == s[2 * i]);
                assert(rest[2 * (i - 1) + 1] == s[2 * i + 1]);
            }
        }
    }
}

proof fn lemma_pair(a: u8, b: u8)
    requires
        is_hex_digit(a),
        is_hex_digit(b),
    ensures
        pair_data(a, b) == seq![
            (crate::text::hex_digit_value(a) * 16 + crate::text::hex_digit_value(b)) as u8,
        ],
{
    let pair = seq![a, b];
    let chars = seq![a as char, b as char];
    assert(vstd::utf8::is_ascii_chars(chars));
    vstd::utf8::is_ascii_chars_encode_utf8(chars);
    vstd::utf8::encode_utf8_valid_utf8(chars);
    assert(encode_utf8(chars) =~= pair);
    reveal_with_fuel(crate::text::hex_number, 3);
    assert(pair.drop_last() =~= seq![a]);
    assert(seq![a].drop_last() =~= Seq::<u8>::empty());
    assert(crate::text::unsigned_part(pair) == pair);
    assert(crate::text::all_hex(pair));
}

/// A line of digits with framing on is the ECU's CAN ID in three digits, a length in two,
/// and the data; with framing off it is all data.
pub proof fn law_framed_line(line: Seq<char>)
    requires
        line.len() >= 5,
        forall|i: int|
            0 <= i < line.len() ==> (#[trigger] line[i] as u32) < 0x80 && is_hex_digit(
                line[i] as u8,
            ),
    ensures
        ({
            let value = |i: int| crate::text::hex_digit_value(line[i] as u8) as int;
            let framed = line_content(line, true);
            let plain = line_content(line, false);
            &&& framed is Some && plain is Some
            &&& (framed->0).0 == Some((value(0) * 256 + value(1) * 16 + value(2)) as u16)
            &&& (framed->0).1.len() == (line.len() - 5) / 2
            &&& forall|i: int|
                0 <= i < (line.len() - 5) / 2 ==> #[trigger] (framed->0).1[i] == value(5 + 2 * i) * 16
                    + value(6 + 2 * i)
            &&& (plain->0).0 is None
            &&& (plain->0).1.len() == line.len() / 2
            &&& forall|i: int|
                0 <= i < line.len() / 2 ==> #[trigger] (plain->0).1[i] == value(2 * i) * 16 + value(
                    2 * i + 1,
                )
        }),
{
    lemma_hex_line(line);
    let bytes = line.map_values(|c: char| c as u8);
    assert forall|i: int| 0 <= i < bytes.len() implies is_hex_digit(#[trigger] bytes[i]) by {
        assert(is_hex_digit(line[i] as u8));
    }
    law_pairs_are_bytes(bytes);
    let tail = bytes.skip(5);
    assert forall|i: int| 0 <= i < tail.len() implies is_hex_digit(#[trigger] tail[i]) by {
        assert(tail[i] == bytes[i + 5]);
    }
    law_pairs_are_bytes(tail);
    let id = bytes.take(3);
    assert forall|i: int| 0 <= i < id.len() implies is_hex_digit(#[trigger] id[i]) by {
        assert(id[i] == bytes[i]);
    }
    reveal_with_fuel(crate::text::hex_number, 4);
    assert(id.drop_last() =~= bytes.take(2));
    assert(bytes.take(2).drop_last() =~= bytes.take(1));
    assert(bytes.take(1).drop_last() =~= Seq::<u8>::empty());
    assert(is_hex_digit(id[0]));
    assert(crate::text::unsigned_part(id) == id);
    assert forall|i: int| 0 <= i < (line.len() - 5) / 2 implies #[trigger] hex_data(tail)[i]
        == crate::text::hex_digit_value(line[5 + 2 * i] as u8) * 16 + crate::text::hex_digit_value(
        line[6 + 2 * i] as u8,
    ) by {
        assert(tail[2 * i] == bytes[5 + 2 * i]);
        assert(tail[2 * i + 1] == bytes[6 + 2 * i]);
    }
}

/// Blank lines and a line with the prompt hold nothing; every other line holds something.
pub proof fn law_prompt_holds_nothing(line: Seq<char>, framing: bool)
    ensures
        line_content(line, framing) is None <==> trimmed(line).len() == 0 || trimmed(line).contains(
            '>',
        ),
        line_content(Seq::empty(), framing) is None,
        line_content(seq!['>'], framing) is None,
{
    let prompt = seq!['>'];
    assert(trimmed(prompt) == prompt);
    assert(prompt[0] == '>');
    assert(trimmed(Seq::<char>::empty()) =~= Seq::<char>::empty());
}

/// Without headers each occurrence of a PID in an answer counts; with headers each ECU
/// counts once for it, and lines without an ECU do not count.
pub proof fn law_answers_are_counted(
    lines: Seq<(Option<u16>, Seq<u8>)>,
    line: (Option<u16>, Seq<u8>),
    lengths: Seq<Option<u8>>,
    pid: u8,
)
    ensures
        occurrences(counted_pids(lines.push(line), false, lengths), pid) == occurrences(
            counted_pids(lines, false, lengths),
            pid,
        ) + occurrences(pids_in(line.1, lengths), pid),
        line.0 is None ==> counted_pids(lines.push(line), true, lengths) == counted_pids(
            lines,
            true,
            lengths,
        ),
        counted_pids(Seq::empty(), false, lengths).len() == 0,
{
    assert(lines.push(line).drop_last() =~= lines);
    lemma_occurrences_add(pids_of_lines(lines, lengths), pids_in(line.1, lengths), pid);
}

proof fn lemma_occurrences_add(a: Seq<u8>, b: Seq<u8>, value: u8)
    ensures
        occurrences(a + b, value) == occurrences(a, value) + occurrences(b, value),
    decreases b.len(),
{
    if b.len() == 0 {
        assert(a + b =~= a);
    } else {
        assert((a + b).drop_last() =~= a + b.drop_last());
        lemma_occurrences_add(a, b.drop_last(), value);
    }
}

/// A map of counts has every PID that occurs, with the number of its occurrences, and no
/// other PID.
pub proof fn law_counts_are_occurrences(map: Map<u8, u8>, pids: Seq<u8>, pid: u8)
    requires
        counts_of(map, pids),
    ensures
        map.contains_key(pid) <==> pids.contains(pid),
        map.contains_key(pid) && pids.len() < 256 ==> map[pid] == occurrences(pids, pid),
{
    lemma_occurs(pids, pid);
    assert(map.contains_key(pid) <==> occurrences(pids, pid) > 0);
}

proof fn lemma_occurs(s: Seq<u8>, value: u8)
    ensures
        occurrences(s, value) > 0 <==> s.contains(value),
        occurrences(s, value) <= s.len(),
    decreases s.len(),
{
    if s.len() > 0 {
        let front = s.drop_last();
        lemma_occurs(front, value);
        if s.contains(value) && s.last() != value {
            let k = choose|k: int| 0 <= k < s.len() && s[k] == value;
            assert(front[k] == value);
        }
        if front.contains(value) {
            let k = choose|k: int| 0 <= k < front.len() && front[k] == value;
            assert(s[k] == value);
        }
        if s.last() == value {
            assert(s[s.len() - 1] == value);
        }
    }
}

/// The data of an answer are grouped by PID: each PID of an entry is there, with the data
/// of all its entries in their order, and no other PID.
pub proof fn law_entries_are_grouped(
    map: Map<Pid, CachedResponse>,
    entries: Seq<(u8, Seq<u8>)>,
    i: int,
    absent: u8,
)
    requires
        groups_entries(map, entries),
        0 <= i < entries.len(),
        forall|k: int| 0 <= k < entries.len() ==> (#[trigger] entries[k]).0 != absent,
    ensures
        map.contains_key(entries[i].0),
        map[entries[i].0]@.contains(entries[i].1),
        map[entries[i].0]@ == data_of_pid(entries, entries[i].0),
        !map.contains_key(absent),
{
    lemma_entry_is_gathered(entries, i);
    lemma_nothing_gathered(entries, absent);
    assert(map.contains_key(entries[i].0) <==> data_of_pid(entries, entries[i].0).len() > 0);
    assert(map.contains_key(absent) <==> data_of_pid(entries, absent).len() > 0);
}

proof fn lemma_entry_is_gathered(entries: Seq<(u8, Seq<u8>)>, i: int)
    requires
        0 <= i < entries.len(),
    ensures
        data_of_pid(entries, entries[i].0).contains(entries[i].1),
        data_of_pid(entries, entries[i].0).len() > 0,
    decreases entries.len(),
{
    let front = entries.drop_last();
    let pid = entries[i].0;
    let all = data_of_pid(entries, pid);
    if i < front.len() {
        lemma_entry_is_gathered(front, i);
        assert(front[i] == entries[i]);
        let before = data_of_pid(front, pid);
        let k = choose|k: int| 0 <= k < before.len() && before[k] == entries[i].1;
        assert(all[k] == entries[i].1);
    } else {
        assert(all[all.len() - 1] == entries[i].1);
    }
}

proof fn lemma_nothing_gathered(entries: Seq<(u8, Seq<u8>)>, pid: u8)
    requires
        forall|k: int| 0 <= k < entries.len() ==> (#[trigger] entries[k]).0 != pid,
    ensures
        data_of_pid(entries, pid).len() == 0,
    decreases entries.len(),
{
    if entries.len() > 0 {
        assert(entries[entries.len() - 1].0 != pid);
        assert forall|k: int| 0 <= k < entries.drop_last().len() implies (
        #[trigger] entries.drop_last()[k]).0 != pid by {
            assert(entries[k].0 != pid);
        }
        lemma_nothing_gathered(entries.drop_last(), pid);
    }
}

/// Each two digits of a line are one byte; a digit left over is dropped.
pub proof fn law_digits_pair_up(s: Seq<u8>, i: int)
    requires
        0 <= i < s.len() / 2,
    ensures
        digit_pairs(s).len() == s.len() / 2,
        digit_pairs(s)[i] == 16 * crate::text::hex_digit_value(s[2 * i])
            + crate::text::hex_digit_value(s[2 * i + 1]),
{
}

/// A line of an answer is one that starts with `41` and has a PID; no other line has
/// entries.
pub proof fn law_only_answers_have_entries(line: Seq<u8>, lengths: Seq<Option<u8>>)
    ensures
        ({
            let bytes = digit_pairs(hex_digits_of(line));
            &&& bytes.len() >= 2 && bytes[0] == 0x41 ==> line_entries(line, lengths)
                == entries_from(bytes, 1, lengths)
            &&& bytes.len() < 2 || bytes[0] != 0x41 ==> line_entries(line, lengths).len() == 0
        }),
{
}

/// A count that goes over 8 bits starts again from zero.
pub proof fn law_counts_wrap(map: Map<u8, u8>, pids: Seq<u8>, pid: u8)
    requires
        counts_of(map, pids),
        map.contains_key(pid),
    ensures
        (occurrences(pids, pid) - map[pid]) % 256 == 0,
{
}

} // verus!
