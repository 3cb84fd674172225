//! The connection to the dongle: what is sent, what is learned from the
//! answers, and what an answer or a failure means for the connection.

use crate::leds::NANOS_PER_MS;
use crate::obd2::buffers::{CachedResponse, Obd2Buffer, Pid};
use crate::obd2::parse::{
    count_ecus_per_pid, counted_pids, counts_of, data_of_pid, framed_content, groups_entries, line_views,
    occurrences, parse_response_framed, parse_response_to_cache, resolve_pid_data_length,
    response_entries, PidDataLengths, ANSWER_SERVICE,
};
use crate::obd2::wire::{pid_command, pid_to_wire_command, push_decimal};
use crate::text::{chars_of, decimal, from_utf8_lossy, utf8_lossy, CR, PROMPT, SPACE};
use std::collections::HashMap;
use vstd::prelude::*;

verus! {

/// State of the TCP connection to the dongle.
#[derive(Debug, Clone, Copy, PartialEq, Eq, Structural)]
pub enum DongleTcpState {
    /// No connection
    Disconnected,
    /// Connected, and being set up
    Initializing,
    /// Ready for commands
    Ready,
}

broadcast use vstd::std_specs::hash::group_hash_axioms;

/// How long to wait between two attempts to connect.
pub const RECONNECT_DELAY_MS: u64 = 1000;

// ---------------------------------------------------------------------------
// Errors
// ---------------------------------------------------------------------------

/// Errors from the dongle task
#[derive(Debug, Clone)]
pub enum DongleError {
    /// There is no connection to the dongle.
    NotConnected,
    /// The dongle did not answer in time.
    Timeout,
    /// The dongle closed the connection.
    Disconnected,
    /// Reading or writing failed.
    IoError(String),
}

/// The ELM327 message for an error.
pub open spec fn elm327_error(error: DongleError) -> Seq<char> {
    match error {
        DongleError::NotConnected => "UNABLE TO CONNECT"@,
        DongleError::Timeout => "NO DATA"@,
        DongleError::Disconnected => "CAN ERROR"@,
        DongleError::IoError(_) => "BUS ERROR"@,
    }
}

/// An error that ends the connection.
pub open spec fn is_fatal(error: DongleError) -> bool {
    error is Disconnected || error is IoError
}

impl DongleError {
    /// Convert to ELM327-style error message
    pub fn to_elm327_error(&self) -> (r: &'static str)
        ensures
            r@ == elm327_error(*self),
    {
        match self {
            DongleError::NotConnected => "UNABLE TO CONNECT",
            DongleError::Timeout => "NO DATA",
            DongleError::Disconnected => "CAN ERROR",
            DongleError::IoError(_) => "BUS ERROR",
        }
    }

    /// The error in words, for logs.
    pub fn message(&self) -> (r: String)
        ensures
            r@ == match *self {
                DongleError::NotConnected => "Not connected to dongle"@,
                DongleError::Timeout => "Dongle timeout"@,
                DongleError::Disconnected => "Dongle disconnected"@,
                DongleError::IoError(e) => "IO error: "@ + e@,
            },
    {
        let mut text: String = String::new();
        match self {
            DongleError::NotConnected => text.push_str("Not connected to dongle"),
            DongleError::Timeout => text.push_str("Dongle timeout"),
            DongleError::Disconnected => text.push_str("Dongle disconnected"),
            DongleError::IoError(e) => {
                text.push_str("IO error: ");
                text.push_str(e.as_str());
            },
        }
        assert(Seq::<char>::empty() + "Not connected to dongle"@ =~= "Not connected to dongle"@);
        assert(Seq::<char>::empty() + "Dongle timeout"@ =~= "Dongle timeout"@);
        assert(Seq::<char>::empty() + "Dongle disconnected"@ =~= "Dongle disconnected"@);
        assert(Seq::<char>::empty() + "IO error: "@ =~= "IO error: "@);
        text
    }
}

// ---------------------------------------------------------------------------
// Sending and receiving
// ---------------------------------------------------------------------------

/// A command with its carriage return.
pub open spec fn terminated(command: Seq<u8>) -> Seq<u8> {
    if command.len() > 0 && command.last() == CR {
        command
    } else {
        command.push(CR)
    }
}

/// A command as it is written to the dongle: with a carriage return at its end.
pub fn terminate_command(command: &[u8]) -> (r: Obd2Buffer)
    ensures
        r@ == terminated(command@),
{
    let mut buffer = Obd2Buffer::of(command);
    let n: usize = command.len();
    if !(n > 0 && command[n - 1] == CR) {
        buffer.push(CR);
    }
    buffer
}

/// What came of one attempt to read from the dongle.
pub enum ReadEvent<'a> {
    /// The dongle closed the connection.
    Closed,
    /// Bytes arrived.
    Data(&'a [u8]),
    /// Nothing was there, although the socket blocks.
    WouldBlock,
    /// The socket's own timeout ran out.
    TimedOut,
    /// Reading failed.
    Failed(String),
}

/// What to do after an attempt to read.
pub enum ReadStep {
    /// Read on.
    More,
    /// Wait a little, then read on.
    Pause,
    /// The answer is complete.
    Complete,
    /// Give up.
    Failed(DongleError),
}

/// Take in what one attempt to read brought: the answer is complete once it
/// holds a prompt.
pub fn receive_step(
    response: &mut Obd2Buffer,
    event: ReadEvent<'_>,
    waited_ns: u64,
    timeout_ms: u64,
) -> (r: ReadStep)
    ensures
        final(response)@ == match event {
            ReadEvent::Data(bytes) => old(response)@ + bytes@,
            _ => old(response)@,
        },
        match event {
            ReadEvent::Closed => r == ReadStep::Failed(DongleError::Disconnected),
            ReadEvent::Data(_) => r == if final(response)@.contains(PROMPT) {
                ReadStep::Complete
            } else {
                ReadStep::More
            },
            ReadEvent::WouldBlock => r == if waited_ns > timeout_ms * NANOS_PER_MS {
                ReadStep::Failed(DongleError::Timeout)
            } else {
                ReadStep::Pause
            },
            ReadEvent::TimedOut => r == ReadStep::Failed(DongleError::Timeout),
            ReadEvent::Failed(e) => r == ReadStep::Failed(DongleError::IoError(e)),
        },
{
    match event {
        ReadEvent::Closed => ReadStep::Failed(DongleError::Disconnected),
        ReadEvent::Data(bytes) => {
            response.extend_from_slice(bytes);
            if has_byte(response.as_slice(), PROMPT) {
                ReadStep::Complete
            } else {
                ReadStep::More
            }
        },
        ReadEvent::WouldBlock => if waited_ns as u128 > timeout_ms as u128 * NANOS_PER_MS {
            ReadStep::Failed(DongleError::Timeout)
        } else {
            ReadStep::Pause
        },
        ReadEvent::TimedOut => ReadStep::Failed(DongleError::Timeout),
        ReadEvent::Failed(e) => ReadStep::Failed(DongleError::IoError(e)),
    }
}

/// Whether a byte occurs.
pub(crate) fn has_byte(bytes: &[u8], wanted: u8) -> (r: bool)
    ensures
        r == bytes@.contains(wanted),
{
    let mut i: usize = 0;
    while i < bytes.len()
        invariant
            i <= bytes@.len(),
            forall|j: int| 0 <= j < i ==> bytes@[j] != wanted,
        decreases bytes@.len() - i,
    {
        if bytes[i] == wanted {
            assert(bytes@[i as int] == wanted);
            return true;
        }
        i = i + 1;
    }
    false
}

/// Whether two byte strings are the same.
pub(crate) fn same_bytes(a: &[u8], b: &[u8]) -> (r: bool)
    ensures
        r == (a@ == b@),
{
    if a.len() != b.len() {
        return false;
    }
    let mut i: usize = 0;
    while i < a.len()
        invariant
            i <= a@.len() == b@.len(),
            forall|j: int| 0 <= j < i ==> a@[j] == b@[j],
        decreases a@.len() - i,
    {
        if a[i] != b[i] {
            return false;
        }
        i = i + 1;
    }
    assert(a@ =~= b@);
    true
}

// ---------------------------------------------------------------------------
// Connection state
// ---------------------------------------------------------------------------

/// Tri-state for dongle/ECU feature probing.
#[derive(Debug, Clone, Copy, PartialEq, Eq, Structural)]
pub enum FeatureSupport {
    /// Not yet tested.
    Unknown,
    /// Confirmed supported.
    Yes,
    /// Confirmed unsupported.
    No,
}

/// What is known of the dongle and the ECUs behind it.
pub struct DongleState {
    /// Whether the dongle supports the repeat command
    pub supports_repeat: FeatureSupport,
    /// The repeat command to send (e.g. `1` or empty for bare CR).
    /// Only meaningful when `supports_repeat != No`.
    pub repeat_cmd: Obd2Buffer,
    /// Last wire command sent to the dongle (includes response count suffix if learned)
    pub last_command: Option<Obd2Buffer>,
    /// Learned ECU counts per PID (how many ECUs respond to each PID).
    /// On first request for a PID, we send without a count to learn it.
    /// Subsequent requests append the count for faster dongle response.
    pub response_counts: HashMap<Pid, u8>,
    /// PID to data-byte-count lookup table.
    /// Initialized from the static table; updated at runtime when
    /// single-PID query responses reveal lengths for vendor-specific PIDs.
    pub pid_lengths: PidDataLengths,
    /// Whether the ECU supports multi-PID queries.
    /// Set to `Yes` after a validated multi-PID response, `No` on failure.
    pub supports_multi_pid: FeatureSupport,
    /// Whether framing (ATH1) is enabled for CAN header parsing
    pub framing_enabled: bool,
}

/// The bytes of an optional command.
pub open spec fn command_bytes(command: Option<Obd2Buffer>) -> Option<Seq<u8>> {
    match command {
        Some(buffer) => Some(buffer@),
        None => None,
    }
}

/// The bytes of an answer, or the error.
pub open spec fn result_bytes(result: Result<Obd2Buffer, DongleError>) -> Result<
    Seq<u8>,
    DongleError,
> {
    match result {
        Ok(buffer) => Ok(buffer@),
        Err(e) => Err(e),
    }
}

/// The command for a PID, with the learned number of ECUs behind it.
pub open spec fn learned_command(pid: Pid, counts: Map<Pid, u8>) -> Seq<u8> {
    if counts.contains_key(pid) {
        pid_command(pid) + seq![SPACE] + decimal(counts[pid] as nat)
    } else {
        pid_command(pid)
    }
}

/// The repeat command may stand for this command: it was the last one, and the
/// dongle is not known to refuse repeats.
pub open spec fn may_repeat(state: DongleState, command: Seq<u8>) -> bool {
    state.supports_repeat != FeatureSupport::No && command_bytes(state.last_command) == Some(
        command,
    )
}

/// How a command is on its way to the dongle.
#[derive(Debug, Clone, Copy, PartialEq, Eq, Structural)]
pub enum ExecutePhase {
    /// The repeat command was sent in its place.
    Repeated,
    /// It was sent in full.
    Full,
}

/// What to do with the answer to a command.
pub enum ExecuteStep {
    /// This is the result.
    Done(Result<Obd2Buffer, DongleError>),
    /// The dongle refused the repeat: send the command in full.
    SendFull,
}

/// A response count as it is learned: never zero, and kept once known.
pub open spec fn counts_after_learning(
    before: Map<Pid, u8>,
    after: Map<Pid, u8>,
    pids: Seq<u8>,
) -> bool {
    forall|pid: Pid|
        {
            let learned = (occurrences(pids, pid) % 256) as u8;
            &&& #[trigger] after.contains_key(pid) <==> before.contains_key(pid) || learned > 0
            &&& before.contains_key(pid) ==> after[pid] == before[pid]
            &&& !before.contains_key(pid) && learned > 0 ==> after[pid] == learned
        }
}

/// A line that answers a query for one PID.
pub open spec fn answers_pid(line: (Option<u16>, Seq<u8>), pid: Pid) -> bool {
    line.1.len() >= 2 && line.1[0] == ANSWER_SERVICE && line.1[1] == pid
}

/// How many data bytes a line has behind service byte and PID (modulo 256).
pub open spec fn line_data_length(line: (Option<u16>, Seq<u8>)) -> u8 {
    ((line.1.len() - 2) % 256) as u8
}

/// The data length that all ECUs agree on, if any answered and none differs.
pub open spec fn agreed_length(lines: Seq<(Option<u16>, Seq<u8>)>, pid: Pid) -> Option<u8> {
    if (exists|i: int| 0 <= i < lines.len() && #[trigger] answers_pid(lines[i], pid)) && (forall|
        i: int,
        j: int,
    |
        0 <= i < lines.len() && 0 <= j < lines.len() && #[trigger] answers_pid(lines[i], pid)
            && #[trigger] answers_pid(lines[j], pid) ==> line_data_length(lines[i])
            == line_data_length(lines[j])) {
        let first = choose|i: int| 0 <= i < lines.len() && #[trigger] answers_pid(lines[i], pid);
        Some(line_data_length(lines[first]))
    } else {
        None
    }
}

/// How many of the queried PIDs an answer holds, each counted as often as it
/// was asked for.
pub open spec fn matched_pids(queried: Seq<Pid>, entries: Seq<(u8, Seq<u8>)>) -> nat
    decreases queried.len(),
{
    if queried.len() == 0 {
        0
    } else {
        matched_pids(queried.drop_last(), entries) + if data_of_pid(entries, queried.last()).len()
            > 0 {
            1nat
        } else {
            0nat
        }
    }
}

impl DongleState {
    /// Everything but the command bookkeeping is as before.
    pub open spec fn same_knowledge(&self, other: &DongleState) -> bool {
        &&& self.repeat_cmd@ == other.repeat_cmd@
        &&& self.response_counts@ == other.response_counts@
        &&& self.pid_lengths == other.pid_lengths
        &&& self.supports_multi_pid == other.supports_multi_pid
        &&& self.framing_enabled == other.framing_enabled
    }

    /// Everything but what is learned from answers is as before.
    pub open spec fn same_bookkeeping(&self, other: &DongleState) -> bool {
        &&& self.supports_repeat == other.supports_repeat
        &&& self.repeat_cmd@ == other.repeat_cmd@
        &&& command_bytes(self.last_command) == command_bytes(other.last_command)
        &&& self.framing_enabled == other.framing_enabled
    }

    /// A fresh connection: nothing learned, framing not yet set up.
    pub fn new(use_repeat: bool, repeat_string: &str, pid_lengths: PidDataLengths) -> (r: Self)
        ensures
            r.supports_repeat == if use_repeat {
                FeatureSupport::Unknown
            } else {
                FeatureSupport::No
            },
            r.repeat_cmd@ == vstd::utf8::encode_utf8(repeat_string@),
            r.last_command is None,
            r.response_counts@ == Map::<Pid, u8>::empty(),
            r.pid_lengths == pid_lengths,
            r.supports_multi_pid == FeatureSupport::Unknown,
            !r.framing_enabled,
    {
        DongleState {
            supports_repeat: if use_repeat {
                FeatureSupport::Unknown
            } else {
                FeatureSupport::No
            },
            repeat_cmd: Obd2Buffer::of(repeat_string.as_bytes()),
            last_command: None,
            response_counts: HashMap::new(),
            pid_lengths,
            supports_multi_pid: FeatureSupport::Unknown,
            framing_enabled: false,
        }
    }

    /// Build the wire command for a PID, appending the learned response count if known.
    pub fn build_wire_command(&self, pid: Pid) -> (r: Obd2Buffer)
        ensures
            r@ == learned_command(pid, self.response_counts@),
    {
        let mut cmd = pid_to_wire_command(pid);
        match self.response_counts.get(&pid) {
            Some(count) => {
                cmd.push(SPACE);
                push_decimal(&mut cmd, *count);
                assert(cmd@ =~= pid_command(pid) + seq![SPACE] + decimal(*count as nat));
            },
            None => {},
        }
        cmd
    }

    /// Start a command: what goes over the wire for it.
    ///
    /// If `wire_cmd` matches `last_command` and repeat is supported (or
    /// untested), the repeat command is sent instead of the full command.
    pub fn start_command(&self, wire_cmd: &Obd2Buffer) -> (r: (ExecutePhase, Obd2Buffer))
        ensures
            r.0 == if may_repeat(*self, wire_cmd@) {
                ExecutePhase::Repeated
            } else {
                ExecutePhase::Full
            },
            r.1@ == if may_repeat(*self, wire_cmd@) {
                self.repeat_cmd@
            } else {
                wire_cmd@
            },
    {
        let was_last: bool = match &self.last_command {
            Some(last) => same_bytes(last.as_slice(), wire_cmd.as_slice()),
            None => false,
        };
        if self.supports_repeat != FeatureSupport::No && was_last {
            (ExecutePhase::Repeated, self.repeat_cmd.duplicate())
        } else {
            (ExecutePhase::Full, wire_cmd.duplicate())
        }
    }

    /// Finish a command with the answer to what went over the wire.
    ///
    /// Falls back to a full resend when the dongle replies with `?` to a
    /// repeat. Maintains `last_command` and `supports_repeat`. Callers are
    /// responsible for running any learning logic (ECU counts, data lengths)
    /// on the returned response.
    pub fn finish_command(
        &mut self,
        wire_cmd: &Obd2Buffer,
        phase: ExecutePhase,
        result: Result<Obd2Buffer, DongleError>,
    ) -> (r: ExecuteStep)
        ensures
            final(self).same_knowledge(old(self)),
            match phase {
                ExecutePhase::Full => {
                    &&& r matches ExecuteStep::Done(done) && result_bytes(done) == result_bytes(
                        result,
                    )
                    &&& final(self).supports_repeat == old(self).supports_repeat
                    &&& command_bytes(final(self).last_command) == if result is Ok {
                        Some(wire_cmd@)
                    } else {
                        None
                    }
                },
                ExecutePhase::Repeated => match result {
                    Err(e) => {
                        &&& r matches ExecuteStep::Done(done) && done == Err::<Obd2Buffer, _>(e)
                        &&& final(self).supports_repeat == old(self).supports_repeat
                        &&& final(self).last_command is None
                    },
                    Ok(response) => if utf8_lossy(response@).contains('?') {
                        &&& r is SendFull
                        &&& final(self).supports_repeat == FeatureSupport::No
                        &&& command_bytes(final(self).last_command) == command_bytes(
                            old(self).last_command,
                        )
                    } else {
                        &&& r matches ExecuteStep::Done(done) && result_bytes(done) == Ok::<
                            _,
                            DongleError,
                        >(response@)
                        &&& final(self).supports_repeat == if old(self).supports_repeat
                            == FeatureSupport::Unknown {
                            FeatureSupport::Yes
                        } else {
                            old(self).supports_repeat
                        }
                        &&& command_bytes(final(self).last_command) == command_bytes(
                            old(self).last_command,
                        )
                    },
                },
            },
    {
        match phase {
            ExecutePhase::Full => {
                self.last_command = match &result {
                    Ok(_) => Some(wire_cmd.duplicate()),
                    Err(_) => None,
                };
                ExecuteStep::Done(result)
            },
            ExecutePhase::Repeated => match result {
                Ok(response) => {
                    if refuses(response.as_slice()) {
                        self.supports_repeat = FeatureSupport::No;
                        ExecuteStep::SendFull
                    } else {
                        if self.supports_repeat == FeatureSupport::Unknown {
                            self.supports_repeat = FeatureSupport::Yes;
                        }
                        ExecuteStep::Done(Ok(response))
                    }
                },
                Err(e) => {
                    self.last_command = None;
                    ExecuteStep::Done(Err(e))
                },
            },
        }
    }

    /// Learn ECU counts from a response, storing per-PID.
    ///
    /// Parses the response to extract per-PID ECU counts and stores them.
    /// Works for both single-PID and multi-PID responses.
    pub fn learn_response_counts(&mut self, response: &Obd2Buffer)
        ensures
            final(self).same_bookkeeping(old(self)),
            final(self).pid_lengths == old(self).pid_lengths,
            final(self).supports_multi_pid == old(self).supports_multi_pid,
            counts_after_learning(
                old(self).response_counts@,
                final(self).response_counts@,
                counted_pids(
                    framed_content(utf8_lossy(response@), old(self).framing_enabled),
                    old(self).framing_enabled,
                    old(self).pid_lengths@,
                ),
            ),
    {
        let parsed = parse_response_framed(response.as_slice(), self.framing_enabled);
        let counts: HashMap<u8, u8> = count_ecus_per_pid(
            parsed.lines(),
            self.framing_enabled,
            &self.pid_lengths,
        );
        let ghost pids = counted_pids(
            framed_content(utf8_lossy(response@), self.framing_enabled),
            self.framing_enabled,
            self.pid_lengths@,
        );
        let ghost before = self.response_counts@;
        let mut next: u16 = 0;
        while next < 256
            invariant
                next <= 256,
                counts_of(counts@, pids),
                before == old(self).response_counts@,
                self.same_bookkeeping(old(self)),
                self.pid_lengths == old(self).pid_lengths,
                self.supports_multi_pid == old(self).supports_multi_pid,
                forall|pid: Pid|
                    {
                        let learned = (occurrences(pids, pid) % 256) as u8;
                        &&& #[trigger] self.response_counts@.contains_key(pid)
                            <==> before.contains_key(pid) || (pid < next && learned > 0)
                        &&& before.contains_key(pid) ==> self.response_counts@[pid] == before[pid]
                        &&& !before.contains_key(pid) && pid < next && learned > 0
                            ==> self.response_counts@[pid] == learned
                    },
            decreases 256 - next,
        {
            let pid: u8 = next as u8;
            assert(counts@.contains_key(pid) <==> occurrences(pids, pid) > 0);
            assert(self.response_counts@.contains_key(pid) <==> before.contains_key(pid));
            match counts.get(&pid) {
                Some(count) => {
                    if !self.response_counts.contains_key(&pid) && *count > 0 {
                        self.response_counts.insert(pid, *count);
                    }
                },
                None => {},
            }
            next = next + 1;
        }
    }

    /// Learn the data byte count for a PID from a single-PID query response.
    ///
    /// For a single-PID query `01XX`, each ECU response line has format:
    /// `41 XX DD DD DD...`: the bytes after service byte + PID are data bytes.
    /// Verifies all ECU responses agree on the length before storing.
    pub fn learn_pid_data_length(&mut self, pid: Pid, response: &Obd2Buffer)
        ensures
            final(self).same_bookkeeping(old(self)),
            final(self).response_counts@ == old(self).response_counts@,
            final(self).supports_multi_pid == old(self).supports_multi_pid,
            final(self).pid_lengths@ == ({
                let lengths = old(self).pid_lengths@;
                let lines = framed_content(utf8_lossy(response@), old(self).framing_enabled);
                if lengths[pid as int] is Some || agreed_length(lines, pid) is None {
                    lengths
                } else {
                    lengths.update(pid as int, agreed_length(lines, pid))
                }
            }),
    {
        if resolve_pid_data_length(pid, &self.pid_lengths).is_some() {
            return;
        }
        let answer = parse_response_framed(response.as_slice(), self.framing_enabled);
        let parsed = answer.lines();
        let ghost lines = line_views(parsed@);
        let mut learned: Option<u8> = None;
        let ghost mut witness: int = 0;
        let mut i: usize = 0;
        while i < parsed.len()
            invariant
                i <= parsed@.len(),
                lines == line_views(parsed@),
                *self == *old(self),
                lines == framed_content(utf8_lossy(response@), old(self).framing_enabled),
                old(self).pid_lengths@[pid as int] is None,
                learned is None ==> forall|j: int|
                    0 <= j < i ==> !#[trigger] answers_pid(lines[j], pid),
                learned is Some ==> 0 <= witness < i && answers_pid(lines[witness], pid)
                    && learned == Some(line_data_length(lines[witness])) && forall|j: int|
                    0 <= j < i && #[trigger] answers_pid(lines[j], pid) ==> line_data_length(
                        lines[j],
                    ) == learned->0,
            decreases parsed@.len() - i,
        {
            let data = parsed[i].data.bytes();
            assert(lines[i as int] == parsed@[i as int]@);
            if data.len() < 2 || data[0] != ANSWER_SERVICE || data[1] != pid {
                assert(!answers_pid(lines[i as int], pid));
                i = i + 1;
                continue;
            }
            assert(answers_pid(lines[i as int], pid));
            let data_len: u8 = ((data.len() - 2) % 256) as u8;
            match learned {
                None => {
                    learned = Some(data_len);
                    proof {
                        witness = i as int;
                    }
                },
                Some(prev) => {
                    if prev != data_len {
                        assert(answers_pid(lines[witness], pid));
                        assert(agreed_length(lines, pid) is None);
                        return;
                    }
                },
            }
            i = i + 1;
        }
        match learned {
            Some(len) => {
                assert(answers_pid(lines[witness], pid));
                assert(agreed_length(lines, pid) == Some(len));
                self.pid_lengths[pid as usize] = Some(len);
            },
            None => {
                assert(agreed_length(lines, pid) is None);
            },
        }
    }

    /// Learn from the answer to a query for one PID: first its data length, then
    /// the ECU counts.
    pub fn learn_from_single(&mut self, pid: Pid, response: &Obd2Buffer)
        ensures
            final(self).same_bookkeeping(old(self)),
            final(self).supports_multi_pid == old(self).supports_multi_pid,
            ({
                let lengths = old(self).pid_lengths@;
                let framing = old(self).framing_enabled;
                let lines = framed_content(utf8_lossy(response@), framing);
                &&& final(self).pid_lengths@ == if lengths[pid as int] is Some || agreed_length(
                    lines,
                    pid,
                ) is None {
                    lengths
                } else {
                    lengths.update(pid as int, agreed_length(lines, pid))
                }
                &&& counts_after_learning(
                    old(self).response_counts@,
                    final(self).response_counts@,
                    counted_pids(lines, framing, final(self).pid_lengths@),
                )
            }),
    {
        self.learn_pid_data_length(pid, response);
        self.learn_response_counts(response);
    }

    /// Validate multi-PID support from the first multi-PID response.
    ///
    /// Checks whether at least two of the queried PIDs appear in the response.
    /// Sets `supports_multi_pid` to `Yes` or `No`; does nothing if already known.
    pub fn validate_multi_pid_support(
        &mut self,
        result: &Result<Obd2Buffer, DongleError>,
        queried_pids: &[Pid],
    )
        ensures
            final(self).same_bookkeeping(old(self)),
            final(self).pid_lengths == old(self).pid_lengths,
            final(self).response_counts@ == old(self).response_counts@,
            old(self).supports_multi_pid != FeatureSupport::Unknown
                ==> final(self).supports_multi_pid == old(self).supports_multi_pid,
            old(self).supports_multi_pid == FeatureSupport::Unknown ==> match *result {
                Err(_) => final(self).supports_multi_pid == FeatureSupport::No,
                Ok(raw) => final(self).supports_multi_pid == if matched_pids(
                    queried_pids@,
                    response_entries(raw@, old(self).pid_lengths@),
                ) >= 2 {
                    FeatureSupport::Yes
                } else {
                    FeatureSupport::No
                },
            },
    {
        if self.supports_multi_pid != FeatureSupport::Unknown {
            return;
        }
        match result {
            Ok(raw) => {
                let parsed: HashMap<Pid, CachedResponse> = parse_response_to_cache(
                    raw.as_slice(),
                    &self.pid_lengths,
                );
                let ghost entries = response_entries(raw@, self.pid_lengths@);
                let mut matched: usize = 0;
                let mut i: usize = 0;
                while i < queried_pids.len()
                    invariant
                        i <= queried_pids@.len(),
                        matched <= i,
                        groups_entries(parsed@, entries),
                        matched == matched_pids(queried_pids@.take(i as int), entries),
                    decreases queried_pids@.len() - i,
                {
                    assert(queried_pids@.take(i + 1).drop_last() =~= queried_pids@.take(i as int));
                    let pid: Pid = queried_pids[i];
                    assert(parsed@.contains_key(pid) <==> data_of_pid(entries, pid).len() > 0);
                    if parsed.contains_key(&pid) {
                        matched = matched + 1;
                    }
                    i = i + 1;
                }
                assert(queried_pids@.take(i as int) =~= queried_pids@);
                self.supports_multi_pid = if matched >= 2 {
                    FeatureSupport::Yes
                } else {
                    FeatureSupport::No
                };
            },
            Err(_) => {
                self.supports_multi_pid = FeatureSupport::No;
            },
        }
    }
}

/// The dongle answered that it does not know the command.
fn refuses(response: &[u8]) -> (r: bool)
    ensures
        r == utf8_lossy(response@).contains('?'),
{
    let text: String = from_utf8_lossy(response);
    let s: Vec<char> = chars_of(text.as_str());
    let mut i: usize = 0;
    while i < s.len()
        invariant
            i <= s@.len(),
            s@ == utf8_lossy(response@),
            forall|j: int| 0 <= j < i ==> s@[j] != '?',
        decreases s@.len() - i,
    {
        if s[i] == '?' {
            assert(s@[i as int] == '?');
            return true;
        }
        i = i + 1;
    }
    false
}

// ---------------------------------------------------------------------------
// Connecting
// ---------------------------------------------------------------------------

/// The commands that set up a dongle once it has been reset with `ATZ`: echo,
/// linefeeds and spaces off, automatic protocol, and headers as wanted.
pub open spec fn init_text(step: int, use_framing: bool) -> Option<Seq<char>> {
    if step == 0 {
        Some("ATE0"@)
    } else if step == 1 {
        Some("ATL0"@)
    } else if step == 2 {
        Some("ATS0"@)
    } else if step == 3 {
        Some("ATSP0"@)
    } else if step == 4 {
        Some(if use_framing {
            "ATH1"@
        } else {
            "ATH0"@
        })
    } else {
        None
    }
}

/// The init command of a step, until there is none left.
pub fn init_command(step: usize, use_framing: bool) -> (r: Option<&'static str>)
    ensures
        match r {
            Some(text) => init_text(step as int, use_framing) == Some(text@),
            None => init_text(step as int, use_framing) is None,
        },
{
    if step == 0 {
        Some("ATE0")
    } else if step == 1 {
        Some("ATL0")
    } else if step == 2 {
        Some("ATS0")
    } else if step == 3 {
        Some("ATSP0")
    } else if step == 4 {
        if use_framing {
            Some("ATH1")
        } else {
            Some("ATH0")
        }
    } else {
        None
    }
}

/// Whether to try to connect: at once the first time, then after each delay.
pub fn reconnect_due(since_last_attempt_ms: Option<u64>) -> (r: bool)
    ensures
        r == match since_last_attempt_ms {
            Some(elapsed) => elapsed >= RECONNECT_DELAY_MS,
            None => true,
        },
{
    match since_last_attempt_ms {
        Some(elapsed) => elapsed >= RECONNECT_DELAY_MS,
        None => true,
    }
}

/// Cached supported-PID query responses plus a readiness flag.
///
/// The `ready` flag is `false` while connecting or after a disconnect, and
/// `true` once all 8 supported-PID queries have been attempted.
pub struct SupportedPidsCache {
    /// The answer to each query, where there was one.
    pub entries: Vec<Option<Obd2Buffer>>,
    /// All queries have been attempted.
    pub ready: bool,
}

impl SupportedPidsCache {
    /// There is a place for each of the 8 queries.
    pub open spec fn well_formed(&self) -> bool {
        self.entries@.len() == 8
    }

    /// The answer to a query.
    pub open spec fn answer(&self, index: int) -> Option<Seq<u8>> {
        command_bytes(self.entries@[index])
    }

    /// Store the answer to a query; a failed one leaves its place empty. The
    /// last query makes the cache ready.
    pub fn record(&mut self, index: usize, result: Result<Obd2Buffer, DongleError>)
        requires
            old(self).well_formed(),
            index < 8,
        ensures
            final(self).well_formed(),
            final(self).answer(index as int) == match result {
                Ok(response) => Some(response@),
                Err(_) => None,
            },
            forall|i: int|
                0 <= i < 8 && i != index ==> #[trigger] final(self).answer(i) == old(self).answer(
                    i,
                ),
            final(self).ready == (old(self).ready || index == 7),
    {
        let entry: Option<Obd2Buffer> = match result {
            Ok(response) => Some(response),
            Err(_) => None,
        };
        self.entries.set(index, entry);
        if index == 7 {
            self.ready = true;
        }
    }
}

impl Default for SupportedPidsCache {
    fn default() -> (r: Self)
        ensures
            r.well_formed(),
            !r.ready,
            forall|i: int| 0 <= i < 8 ==> #[trigger] r.answer(i) is None,
    {
        let mut entries: Vec<Option<Obd2Buffer>> = Vec::new();
        while entries.len() < 8
            invariant
                entries@.len() <= 8,
                forall|i: int| 0 <= i < entries@.len() ==> #[trigger] entries@[i] is None,
            decreases 8 - entries@.len(),
        {
            entries.push(None);
        }
        SupportedPidsCache { entries, ready: false }
    }
}

// ---------------------------------------------------------------------------
// Results
// ---------------------------------------------------------------------------

/// What a result means for the tasks around the dongle.
pub enum DongleOutcome {
    /// Data for the cache manager, grouped by PID.
    Responses(HashMap<Pid, CachedResponse>),
    /// The connection is gone: drop it, and what was known of the vehicle.
    ConnectionLost,
    /// Nothing to do.
    Ignored,
}

/// Handle a dongle result: parse the response on success, tear down the
/// connection on fatal errors, and let the other errors pass.
pub fn handle_dongle_result(
    result: &Result<Obd2Buffer, DongleError>,
    pid_lengths: &PidDataLengths,
) -> (r: DongleOutcome)
    ensures
        match *result {
            Ok(raw) => r matches DongleOutcome::Responses(responses) && groups_entries(
                responses@,
                response_entries(raw@, pid_lengths@),
            ),
            Err(e) => if is_fatal(e) {
                r is ConnectionLost
            } else {
                r is Ignored
            },
        },
{
    match result {
        Ok(raw) => DongleOutcome::Responses(parse_response_to_cache(raw.as_slice(), pid_lengths)),
        Err(DongleError::Disconnected) => DongleOutcome::ConnectionLost,
        Err(DongleError::IoError(_)) => DongleOutcome::ConnectionLost,
        Err(DongleError::Timeout) => DongleOutcome::Ignored,
        Err(DongleError::NotConnected) => DongleOutcome::Ignored,
    }
}

// ---------------------------------------------------------------------------
// Laws
// ---------------------------------------------------------------------------

/// Each error has a message of its own, and only a connection that broke ends:
/// a dongle that is late, or not there yet, is asked again.
pub proof fn law_errors_tell_apart(one: DongleError, other: DongleError)
    ensures
        elm327_error(one) == elm327_error(other) <==> {
            ||| one is NotConnected && other is NotConnected
            ||| one is Timeout && other is Timeout
            ||| one is Disconnected && other is Disconnected
            ||| one is IoError && other is IoError
        },
        one is Timeout ==> elm327_error(one) =~= seq!['N', 'O', ' ', 'D', 'A', 'T', 'A'],
        one is Disconnected ==> elm327_error(one) =~= seq!['C', 'A', 'N', ' ', 'E', 'R', 'R', 'O', 'R'],
        one is IoError ==> elm327_error(one) =~= seq!['B', 'U', 'S', ' ', 'E', 'R', 'R', 'O', 'R'],
        one is NotConnected ==> elm327_error(one).take(9) =~= seq![
            'U',
            'N',
            'A',
            'B',
            'L',
            'E',
            ' ',
            'T',
            'O',
        ] && elm327_error(one).skip(9) =~= seq![' ', 'C', 'O', 'N', 'N', 'E', 'C', 'T'],
        is_fatal(one) <==> one !is NotConnected && one !is Timeout,
{
    reveal_strlit("UNABLE TO CONNECT");
    reveal_strlit("NO DATA");
    reveal_strlit("CAN ERROR");
    reveal_strlit("BUS ERROR");
    assert("NO DATA"@.len() == 7);
    assert("UNABLE TO CONNECT"@.len() == 17);
    assert("CAN ERROR"@[0] == 'C' && "BUS ERROR"@[0] == 'B');
    assert("CAN ERROR"@.len() == 9 && "BUS ERROR"@.len() == 9);
}

/// A command goes out with exactly one carriage return at its end added where
/// none stands there: ended once, it is not ended again, and what stands in
/// front is the command.
pub proof fn law_commands_end_once(command: Seq<u8>)
    requires
        command.len() == 0 || command.last() != 13,
    ensures
        terminated(command).len() == command.len() + 1,
        terminated(command).last() == 13,
        terminated(command).drop_last() =~= command,
        terminated(terminated(command)) == terminated(command),
{
}

/// A command for a PID starts as without what was learned, and what was learned
/// of other PIDs does not change it.
pub proof fn law_learned_count_follows(pid: Pid, counts: Map<Pid, u8>, count: u8, other: Pid)
    requires
        other != pid,
    ensures
        learned_command(pid, counts.remove(pid)) =~= pid_command(pid),
        learned_command(pid, counts.insert(pid, count)) =~= pid_command(pid) + seq![32u8] + decimal(
            count as nat,
        ),
        learned_command(pid, counts.insert(other, count)) == learned_command(pid, counts),
        learned_command(pid, counts.remove(other)) == learned_command(pid, counts),
{
}

/// A command is repeated only where it is the last one, letter for letter, and
/// the dongle has not refused a repeat.
pub proof fn law_only_the_last_command_repeats(state: DongleState, command: Seq<u8>)
    ensures
        state.last_command is None ==> !may_repeat(state, command),
        state.supports_repeat == FeatureSupport::No ==> !may_repeat(state, command),
        state.last_command matches Some(last) ==> (may_repeat(state, command) <==> last@ == command
            && state.supports_repeat != FeatureSupport::No),
{
}

/// Learning adds a count for each PID that answered and was not known, and
/// leaves every known count as it was: answers that come later do not change
/// it, not even by their number.
pub proof fn law_counts_are_learned_once(
    before: Map<Pid, u8>,
    between: Map<Pid, u8>,
    after: Map<Pid, u8>,
    first: Seq<u8>,
    second: Seq<u8>,
    pid: Pid,
)
    requires
        counts_after_learning(before, between, first),
        counts_after_learning(between, after, second),
        0 < occurrences(first, pid) < 256,
    ensures
        after.contains_key(pid),
        before.contains_key(pid) ==> after[pid] == before[pid],
        !before.contains_key(pid) ==> after[pid] == occurrences(first, pid),
{
    assert(between.contains_key(pid));
    assert(after.contains_key(pid));
}

/// A PID that did not answer stays unknown.
pub proof fn law_silent_pids_stay_unknown(
    before: Map<Pid, u8>,
    after: Map<Pid, u8>,
    pids: Seq<u8>,
    pid: Pid,
)
    requires
        counts_after_learning(before, after, pids),
        occurrences(pids, pid) == 0,
        !before.contains_key(pid),
    ensures
        !after.contains_key(pid),
{
    assert(!after.contains_key(pid));
}

/// A data length is learned where ECUs answered and all answers are as long:
/// it is the number of bytes behind `41` and the PID in any of them. Two
/// answers of different length teach nothing, nor does silence.
pub proof fn law_lengths_are_agreed(
    lines: Seq<(Option<u16>, Seq<u8>)>,
    pid: Pid,
    i: int,
    j: int,
)
    requires
        0 <= i < lines.len(),
        0 <= j < lines.len(),
        2 <= lines[i].1.len() < 258,
        2 <= lines[j].1.len() < 258,
        lines[i].1[0] == 0x41 && lines[i].1[1] == pid,
        lines[j].1[0] == 0x41 && lines[j].1[1] == pid,
    ensures
        lines[i].1.len() != lines[j].1.len() ==> agreed_length(lines, pid) is None,
        agreed_length(lines, pid) matches Some(length) ==> length == lines[i].1.len() - 2,
        (forall|k: int|
            0 <= k < lines.len() && (#[trigger] lines[k]).1.len() >= 2 && lines[k].1[0] == 0x41
                && lines[k].1[1] == pid ==> lines[k].1.len() == lines[i].1.len()) ==> agreed_length(
            lines,
            pid,
        ) == Some((lines[i].1.len() - 2) as u8),
{
    assert(answers_pid(lines[i], pid));
    assert(answers_pid(lines[j], pid));
    assert(line_data_length(lines[i]) == lines[i].1.len() - 2);
    assert(line_data_length(lines[j]) == lines[j].1.len() - 2);
    if agreed_length(lines, pid) is Some {
        let first = choose|k: int| 0 <= k < lines.len() && #[trigger] answers_pid(lines[k], pid);
        assert(answers_pid(lines[first], pid));
        assert(line_data_length(lines[first]) == line_data_length(lines[i]));
    }
    if forall|k: int|
        0 <= k < lines.len() && (#[trigger] lines[k]).1.len() >= 2 && lines[k].1[0] == 0x41
            && lines[k].1[1] == pid ==> lines[k].1.len() == lines[i].1.len() {
        assert forall|a: int, b: int|
            0 <= a < lines.len() && 0 <= b < lines.len() && #[trigger] answers_pid(lines[a], pid)
                && #[trigger] answers_pid(lines[b], pid) implies line_data_length(lines[a])
            == line_data_length(lines[b]) by {
            assert(lines[a].1.len() == lines[i].1.len());
            assert(lines[b].1.len() == lines[i].1.len());
        }
        let first = choose|k: int| 0 <= k < lines.len() && #[trigger] answers_pid(lines[k], pid);
        assert(answers_pid(lines[first], pid));
    }
}

/// Without an answer for a PID no length is learned.
pub proof fn law_silence_teaches_no_length(lines: Seq<(Option<u16>, Seq<u8>)>, pid: Pid)
    requires
        forall|k: int|
            0 <= k < lines.len() && (#[trigger] lines[k]).1.len() >= 2 ==> lines[k].1[0] != 0x41
                || lines[k].1[1] != pid,
    ensures
        agreed_length(lines, pid) is None,
{
}

/// Each further queried PID counts once where the answer has data for it, and
/// not at all where it has none; all of them count where all have data.
pub proof fn law_matches_count_answered_pids(
    queried: Seq<Pid>,
    entries: Seq<(u8, Seq<u8>)>,
    pid: Pid,
)
    ensures
        matched_pids(Seq::<Pid>::empty(), entries) == 0,
        matched_pids(queried.push(pid), entries) == matched_pids(queried, entries) + if data_of_pid(
            entries,
            pid,
        ).len() > 0 {
            1int
        } else {
            0int
        },
        matched_pids(queried, entries) <= queried.len(),
        (forall|i: int|
            0 <= i < queried.len() ==> data_of_pid(entries, #[trigger] queried[i]).len() > 0)
            <==> matched_pids(queried, entries) == queried.len(),
    decreases queried.len(),
{
    assert(queried.push(pid).drop_last() =~= queried);
    if queried.len() > 0 {
        let front = queried.drop_last();
        law_matches_count_answered_pids(front, entries, pid);
        assert(forall|i: int| 0 <= i < front.len() ==> front[i] == queried[i]);
        assert(queried.last() == queried[queried.len() - 1]);
        if forall|i: int|
            0 <= i < front.len() ==> data_of_pid(entries, #[trigger] front[i]).len() > 0 {
        } else {
            let k = choose|i: int|
                0 <= i < front.len() && !(data_of_pid(entries, #[trigger] front[i]).len() > 0);
            assert(queried[k] == front[k]);
        }
    }
}

/// A dongle is set up by five commands, of which the last asks for headers or
/// against them; each of the others is the same either way, and none follows.
pub proof fn law_dongle_is_set_up(step: int, use_framing: bool)
    ensures
        init_text(step, use_framing) is Some <==> 0 <= step < 5,
        0 <= step < 4 ==> init_text(step, true) == init_text(step, false),
        init_text(0, use_framing) == Some("ATE0"@),
        init_text(1, use_framing) == Some("ATL0"@),
        init_text(2, use_framing) == Some("ATS0"@),
        init_text(3, use_framing) == Some("ATSP0"@),
        init_text(4, true) == Some("ATH1"@),
        init_text(4, false) == Some("ATH0"@),
{
}

/// A command leaves what was learned alone, and learning leaves alone which command was
/// last and whether it may be repeated.
pub proof fn law_learning_and_commands_are_apart(one: DongleState, other: DongleState, pid: Pid)
    ensures
        one.same_knowledge(&other) ==> {
            &&& one.repeat_cmd@ == other.repeat_cmd@
            &&& learned_command(pid, one.response_counts@) == learned_command(
                pid,
                other.response_counts@,
            )
            &&& one.pid_lengths@ == other.pid_lengths@
            &&& one.supports_multi_pid == other.supports_multi_pid
            &&& one.framing_enabled == other.framing_enabled
        },
        one.same_bookkeeping(&other) ==> {
            &&& one.supports_repeat == other.supports_repeat
            &&& one.repeat_cmd@ == other.repeat_cmd@
            &&& forall|command: Seq<u8>|
                may_repeat(one, command) == #[trigger] may_repeat(other, command)
            &&& one.framing_enabled == other.framing_enabled
            &&& one.last_command is Some <==> other.last_command is Some
        },
{
}

/// There is one place for each of the eight queries for supported PIDs.
pub proof fn law_eight_queries_have_a_place(cache: SupportedPidsCache, index: int)
    requires
        cache.well_formed(),
        0 <= index < 8,
    ensures
        cache.entries@.len() == 8,
        cache.answer(index) is Some <==> cache.entries@[index] is Some,
        cache.entries@[index] matches Some(buffer) ==> cache.answer(index) == Some(buffer@),
{
}

} // verus!
