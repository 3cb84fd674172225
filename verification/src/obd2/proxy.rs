//! The proxy's side of a client connection: from the bytes a client sends to
//! the bytes it gets back.

use crate::elm327::{at_answer, at_applied, laid_out, prompt_reply, reply_line, ClientState};
use crate::obd2::buffers::{CachedResponse, Obd2Buffer, Pid};
use crate::obd2::cache::{fresh_data, response_data, CacheEntry, ClientCache, Waker};
use crate::obd2::dongle::{elm327_error, DongleError, SupportedPidsCache};
use crate::obd2::manager::CacheManagerMessage;
use crate::obd2::wire::{
    cached_reply, command_pid, format_cached_for_client, lemma_queries_differ,
    normalize_obd_command, normalized, pid_command, same_ignoring_case, supported_pids_index,
    supported_pids_query, wire_command_to_pid,
};
use crate::text::{
    chars_of, from_utf8_lossy, same_text, starts_with, to_uppercase, trim, trimmed, uppercase,
    utf8_lossy, CR, LF,
};
use vstd::prelude::*;
use vstd::utf8::encode_utf8;

verus! {

// ---------------------------------------------------------------------------
// Input
// ---------------------------------------------------------------------------

/// Collects what a client types until the carriage return.
pub struct CommandBuffer {
    bytes: Vec<u8>,
}

impl View for CommandBuffer {
    type V = Seq<u8>;

    closed spec fn view(&self) -> Seq<u8> {
        self.bytes@
    }
}

impl CommandBuffer {
    /// Nothing typed yet.
    pub fn new() -> (r: Self)
        ensures
            r@ == Seq::<u8>::empty(),
    {
        CommandBuffer { bytes: Vec::new() }
    }

    /// Take in one byte. A carriage return ends the command and empties the
    /// buffer; linefeeds are ignored, as an ELM327 does.
    pub fn accept(&mut self, byte: u8) -> (r: Option<Vec<u8>>)
        ensures
            match r {
                Some(command) => byte == CR && command@ == old(self)@ && final(self)@ == Seq::<
                    u8,
                >::empty(),
                None => byte != CR && final(self)@ == if byte == LF {
                    old(self)@
                } else {
                    old(self)@.push(byte)
                },
            },
    {
        if byte == CR {
            let mut command: Vec<u8> = Vec::new();
            std::mem::swap(&mut command, &mut self.bytes);
            Some(command)
        } else {
            if byte != LF {
                self.bytes.push(byte);
            }
            None
        }
    }
}

/// The command in what a client typed: as text, without white space around it;
/// nothing if only white space was typed.
pub fn command_text(typed: &[u8]) -> (r: Option<String>)
    ensures
        match r {
            Some(command) => command@ == trimmed(utf8_lossy(typed@)) && command@.len() > 0,
            None => trimmed(utf8_lossy(typed@)).len() == 0,
        },
{
    let text: String = from_utf8_lossy(typed);
    trimmed_command(text.as_str())
}

/// A command without the white space around it; nothing if there is no more to
/// it.
pub fn trimmed_command(text: &str) -> (r: Option<String>)
    ensures
        match r {
            Some(command) => command@ == trimmed(text@) && command@.len() > 0,
            None => trimmed(text@).len() == 0,
        },
{
    let chars: Vec<char> = chars_of(text);
    let kept: Vec<char> = trim(chars.as_slice());
    if kept.len() == 0 {
        return None;
    }
    let mut command: String = String::new();
    let mut i: usize = 0;
    while i < kept.len()
        invariant
            i <= kept@.len(),
            command@ == kept@.take(i as int),
        decreases kept@.len() - i,
    {
        command.push(kept[i]);
        assert(command@ =~= kept@.take(i + 1));
        i = i + 1;
    }
    assert(kept@.take(i as int) =~= kept@);
    Some(command)
}

// ---------------------------------------------------------------------------
// Commands
// ---------------------------------------------------------------------------

/// What a command is logged as.
pub enum CommandLog {
    /// Not at all.
    Nothing,
    /// An AT command, in upper case.
    At(String),
    /// An OBD2 command, in upper case.
    Obd2(String),
}

/// What to do about a command.
pub enum CommandAction {
    /// Send this to the client.
    Reply(Obd2Buffer),
    /// Look the PID up in the client's cache. The command is remembered once
    /// that succeeds.
    LookUp(Pid, String),
}

/// The bytes of a reply line followed by the prompt.
pub open spec fn reply_bytes(linefeeds: bool, text: Seq<char>) -> Seq<u8> {
    encode_utf8(prompt_reply(linefeeds, text))
}

/// The command that is meant: `1` repeats the last one.
pub open spec fn effective_command(command: Seq<char>, last: Option<String>) -> Option<Seq<char>> {
    if command == "1"@ {
        match last {
            Some(last) => Some(last@),
            None => None,
        }
    } else {
        Some(command)
    }
}

/// The bytes of the command that is meant.
pub open spec fn effective_bytes(
    command: Seq<char>,
    raw: Seq<u8>,
    last: Option<String>,
) -> Seq<u8> {
    if command == "1"@ && last is Some {
        encode_utf8(last->0@)
    } else {
        raw
    }
}

/// The number of the supported-PIDs query that a command is, if it is one.
pub open spec fn query_index(cmd: Seq<u8>) -> Option<int> {
    if exists|i: int| 0 <= i < 8 && #[trigger] same_ignoring_case(cmd, supported_pids_query(i)) {
        Some(
            choose|i: int|
                0 <= i < 8 && #[trigger] same_ignoring_case(cmd, supported_pids_query(i)),
        )
    } else {
        None
    }
}

/// What a client is told about an OBD2 command right away; nothing if its PID is
/// looked up.
pub open spec fn immediate_reply(
    cmd: Seq<u8>,
    supported: SupportedPidsCache,
    linefeeds: bool,
    spaces: bool,
) -> Option<Seq<u8>> {
    match query_index(cmd) {
        Some(index) => match supported.answer(index) {
            Some(response) => Some(laid_out(spaces, response)),
            None => Some(reply_bytes(linefeeds, "UNABLE TO CONNECT"@)),
        },
        None => if command_pid(cmd) is None {
            Some(reply_bytes(linefeeds, "?"@))
        } else {
            None
        },
    }
}

/// The reply line for a text, with the client's line endings.
fn reply(client_state: &ClientState, text: &str) -> (r: Obd2Buffer)
    ensures
        r@ == reply_bytes(client_state.linefeeds_enabled, text@),
{
    let line: String = reply_line(client_state.line_ending(), text);
    Obd2Buffer::of(line.as_str().as_bytes())
}

/// Decide about a command that is not empty.
///
/// AT commands are handled locally. Until the supported-PID queries have been
/// made, other commands are rejected; clients will see "UNABLE TO CONNECT" and
/// should retry, which is the same response they'd get from a real ELM327
/// before protocol detection. `1` repeats the last command that was answered.
pub fn process_command(
    command: &str,
    raw_command: &[u8],
    client_state: &mut ClientState,
    supported_pids: &SupportedPidsCache,
) -> (r: (CommandLog, CommandAction))
    requires
        supported_pids.well_formed(),
    ensures
        ({
            let upper = uppercase(command@);
            let linefeeds = old(client_state).linefeeds_enabled;
            let last = old(client_state).last_obd_command;
            let meant = effective_command(command@, last);
            let cmd = normalized(effective_bytes(command@, raw_command@, last));
            if "AT"@.is_prefix_of(upper) {
                &&& r.0 matches CommandLog::At(logged) && logged@ == upper
                &&& r.1 matches CommandAction::Reply(reply) && reply@ == reply_bytes(
                    upper == "ATZ"@ || linefeeds,
                    at_answer(upper),
                )
                &&& at_applied(upper, *old(client_state), *final(client_state))
            } else if !supported_pids.ready {
                &&& r.0 is Nothing
                &&& r.1 matches CommandAction::Reply(reply) && reply@ == reply_bytes(
                    linefeeds,
                    "UNABLE TO CONNECT"@,
                )
                &&& *final(client_state) == *old(client_state)
            } else if meant is None {
                &&& r.0 is Nothing
                &&& r.1 matches CommandAction::Reply(reply) && reply@ == reply_bytes(
                    linefeeds,
                    "?"@,
                )
                &&& *final(client_state) == *old(client_state)
            } else {
                &&& r.0 matches CommandLog::Obd2(logged) && logged@ == uppercase(meant->0)
                &&& match immediate_reply(
                    cmd,
                    *supported_pids,
                    linefeeds,
                    old(client_state).spaces_enabled,
                ) {
                    Some(bytes) => r.1 matches CommandAction::Reply(reply) && reply@ == bytes,
                    None => r.1 matches CommandAction::LookUp(pid, looked_up) && command_pid(cmd)
                        == Some(pid as nat) && looked_up@ == meant->0,
                }
                &&& final(client_state).echo_enabled == old(client_state).echo_enabled
                &&& final(client_state).linefeeds_enabled == linefeeds
                &&& final(client_state).spaces_enabled == old(client_state).spaces_enabled
                &&& final(client_state).headers_enabled == old(client_state).headers_enabled
                &&& (if query_index(cmd) matches Some(index) && supported_pids.answer(index)
                    is Some {
                    final(client_state).last_obd_command matches Some(now) && now@ == meant->0
                } else {
                    final(client_state).last_obd_command == last
                })
            }
        }),
{
    let upper: String = to_uppercase(command);
    if starts_with(upper.as_str(), "AT") {
        let response: String = client_state.handle_at_command(command);
        return (
            CommandLog::At(upper),
            CommandAction::Reply(Obd2Buffer::of(response.as_str().as_bytes())),
        );
    }
    if !supported_pids.ready {
        return (CommandLog::Nothing, CommandAction::Reply(reply(client_state, "UNABLE TO CONNECT")));
    }
    let repeats: bool = same_text(command, "1");
    let (effective, effective_raw): (String, Obd2Buffer) = if repeats {
        match &client_state.last_obd_command {
            Some(last) => (last.clone(), Obd2Buffer::of(last.as_str().as_bytes())),
            None => {
                return (CommandLog::Nothing, CommandAction::Reply(reply(client_state, "?")));
            },
        }
    } else {
        (command.to_owned(), Obd2Buffer::of(raw_command))
    };
    let ghost last = old(client_state).last_obd_command;
    assert(effective_raw@ == effective_bytes(command@, raw_command@, last));
    let logged: String = to_uppercase(effective.as_str());
    let normal = normalize_obd_command(effective_raw.as_slice());
    match supported_pids_index(normal.as_slice()) {
        Some(index) => {
            assert(query_index(normal@) == Some(index as int)) by {
                assert(same_ignoring_case(normal@, supported_pids_query(index as int)));
            }
            match &supported_pids.entries[index] {
                Some(cached) => {
                    let formatted: Vec<u8> = client_state.format_response(cached.as_slice());
                    client_state.last_obd_command = Some(effective);
                    (
                        CommandLog::Obd2(logged),
                        CommandAction::Reply(Obd2Buffer::of(formatted.as_slice())),
                    )
                },
                None => (
                    CommandLog::Obd2(logged),
                    CommandAction::Reply(reply(client_state, "UNABLE TO CONNECT")),
                ),
            }
        },
        None => {
            assert(query_index(normal@) is None);
            match wire_command_to_pid(normal.as_slice()) {
                None => (CommandLog::Obd2(logged), CommandAction::Reply(reply(client_state, "?"))),
                Some(pid) => (CommandLog::Obd2(logged), CommandAction::LookUp(pid, effective)),
            }
        },
    }
}

// ---------------------------------------------------------------------------
// Look-ups
// ---------------------------------------------------------------------------

/// What a look-up finds and changes: a fresh value is taken out, and the cache
/// manager is told that it was consumed without a wait; without one the client
/// waits for it with the waker, and the cache manager is told that it does.
pub open spec fn looked_up(
    before: ClientCache,
    after: ClientCache,
    pid: Pid,
    waker: Waker,
    found: Option<Seq<Seq<u8>>>,
    message: CacheManagerMessage,
) -> bool {
    &&& after.same_but_for(&before, pid)
    &&& found == fresh_data(before.entry(pid))
    &&& if found is Some {
        &&& after.entry(pid) is Empty
        &&& message == CacheManagerMessage::Consumed { pid, wait_ns: None }
    } else {
        &&& after.entry(pid) == CacheEntry::Waiting(waker)
        &&& message == CacheManagerMessage::Waiting(pid)
    }
}

/// Look a PID up in a client's cache. Returns its value, or `None` if the client
/// is to wait until it is woken, and the message for the cache manager.
pub fn look_up(cache: &mut ClientCache, pid: Pid, waker: Waker) -> (r: (
    Option<CachedResponse>,
    CacheManagerMessage,
))
    requires
        !(old(cache).entry(pid) is Waiting),
    ensures
        looked_up(*old(cache), *final(cache), pid, waker, response_data(r.0), r.1),
{
    match cache.take(pid) {
        Some(value) => (Some(value), CacheManagerMessage::Consumed { pid, wait_ns: None }),
        None => {
            cache.wait_for(pid, waker);
            (None, CacheManagerMessage::Waiting(pid))
        },
    }
}

/// What the wait for a PID leads to. A client that is woken takes the value, and
/// the cache manager is told how long the wait was; without a value the dongle is
/// not connected. A client that is not woken in time gives up, and the cache
/// manager is told nothing.
pub fn finish_wait(cache: &mut ClientCache, pid: Pid, woken_after_ns: Option<u64>) -> (r: (
    Result<CachedResponse, DongleError>,
    Option<CacheManagerMessage>,
))
    ensures
        final(cache).same_but_for(old(cache), pid),
        match woken_after_ns {
            Some(wait_ns) => {
                &&& final(cache).entry(pid) is Empty
                &&& match fresh_data(old(cache).entry(pid)) {
                    Some(data) => {
                        &&& r.0 is Ok && r.0->Ok_0@ == data
                        &&& r.1 == Some(
                            CacheManagerMessage::Consumed { pid, wait_ns: Some(wait_ns) },
                        )
                    },
                    None => {
                        &&& r.0 is Err && r.0->Err_0 == DongleError::NotConnected
                        &&& r.1 is None
                    },
                }
            },
            None => {
                &&& r.0 is Err && r.0->Err_0 == DongleError::Timeout
                &&& r.1 is None
                &&& final(cache).entry(pid) == if old(cache).entry(pid) is Waiting {
                    CacheEntry::Empty
                } else {
                    old(cache).entry(pid)
                }
            },
        },
{
    match woken_after_ns {
        Some(wait_ns) => match cache.take_after_wake(pid) {
            Ok(value) => (
                Ok(value),
                Some(CacheManagerMessage::Consumed { pid, wait_ns: Some(wait_ns) }),
            ),
            Err(e) => (Err(e), None),
        },
        None => (Err(cache.stop_waiting(pid)), None),
    }
}

/// Answer a command with what the look-up brought. Only a command that was
/// answered with data is remembered for the repeat command.
pub fn finish_look_up(
    pid: Pid,
    command: String,
    result: &Result<CachedResponse, DongleError>,
    client_state: &mut ClientState,
) -> (r: Obd2Buffer)
    ensures
        r@ == match *result {
            Ok(response) => cached_reply(
                pid,
                response@,
                old(client_state).linefeeds_enabled,
                old(client_state).spaces_enabled,
            ),
            Err(e) => reply_bytes(old(client_state).linefeeds_enabled, elm327_error(e)),
        },
        final(client_state).last_obd_command == if result is Ok {
            Some(command)
        } else {
            old(client_state).last_obd_command
        },
        final(client_state).echo_enabled == old(client_state).echo_enabled,
        final(client_state).linefeeds_enabled == old(client_state).linefeeds_enabled,
        final(client_state).spaces_enabled == old(client_state).spaces_enabled,
        final(client_state).headers_enabled == old(client_state).headers_enabled,
{
    match result {
        Ok(response) => {
            client_state.last_obd_command = Some(command);
            format_cached_for_client(pid, response, client_state)
        },
        Err(e) => reply(client_state, e.to_elm327_error()),
    }
}

// ---------------------------------------------------------------------------
// Laws
// ---------------------------------------------------------------------------

/// The repeat command stands for the last command that was answered: the same
/// command is meant, with the same bytes, as if the client had sent that one.
pub proof fn law_repeat_means_the_last_command(last: String, raw: Seq<u8>)
    requires
        last@ != "1"@,
    ensures
        effective_command("1"@, Some(last)) == effective_command(last@, Some(last)),
        effective_bytes("1"@, raw, Some(last)) == effective_bytes(
            last@,
            encode_utf8(last@),
            Some(last),
        ),
{
}

/// A value is served at most once: after a look-up has found it, the next one
/// waits for another.
pub proof fn law_value_is_served_once(
    before: ClientCache,
    between: ClientCache,
    after: ClientCache,
    pid: Pid,
    wakers: (Waker, Waker),
    found: (Option<Seq<Seq<u8>>>, Option<Seq<Seq<u8>>>),
    messages: (CacheManagerMessage, CacheManagerMessage),
)
    requires
        looked_up(before, between, pid, wakers.0, found.0, messages.0),
        looked_up(between, after, pid, wakers.1, found.1, messages.1),
        found.0 is Some,
    ensures
        found.1 is None,
        messages.1 == CacheManagerMessage::Waiting(pid),
        after.entry(pid) == CacheEntry::Waiting(wakers.1),
{
}

/// Without a command that was answered there is nothing to repeat.
pub proof fn law_nothing_to_repeat()
    ensures
        effective_command("1"@, None) is None,
{
}

/// Any command but `1` means itself, whatever came before it.
pub proof fn law_commands_mean_themselves(command: Seq<char>, raw: Seq<u8>, last: Option<String>)
    requires
        command != seq!['1'],
    ensures
        effective_command(command, last) == Some(command),
        effective_bytes(command, raw, last) == raw,
{
    reveal_strlit("1");
    assert("1"@ =~= seq!['1']);
}

/// A query for a block of supported PIDs is answered from what was learned of
/// that block when the connection was set up, whatever PID is in question and
/// however its digits are written; it is never looked up.
pub proof fn law_supported_pids_are_answered_at_once(
    cmd: Seq<u8>,
    index: int,
    supported: SupportedPidsCache,
    linefeeds: bool,
    spaces: bool,
)
    requires
        0 <= index < 8,
        same_ignoring_case(cmd, pid_command((index * 0x20) as u8)),
    ensures
        query_index(cmd) == Some(index),
        supported.answer(index) matches Some(response) ==> immediate_reply(
            cmd,
            supported,
            linefeeds,
            spaces,
        ) == Some(laid_out(spaces, response)),
        supported.answer(index) is None ==> immediate_reply(cmd, supported, linefeeds, spaces)
            == Some(reply_bytes(linefeeds, "UNABLE TO CONNECT"@)),
{
    assert(same_ignoring_case(cmd, supported_pids_query(index)));
    let chosen = choose|i: int|
        0 <= i < 8 && #[trigger] same_ignoring_case(cmd, supported_pids_query(i));
    if chosen != index {
        lemma_queries_differ(cmd, chosen, index);
    }
}

/// Any other command is looked up where it names a PID, and refused with `?`
/// where it does not, whatever is known of the vehicle.
pub proof fn law_other_commands_are_looked_up(
    cmd: Seq<u8>,
    supported: SupportedPidsCache,
    linefeeds: bool,
    spaces: bool,
)
    requires
        forall|i: int|
            0 <= i < 8 ==> !#[trigger] same_ignoring_case(cmd, supported_pids_query(i)),
    ensures
        immediate_reply(cmd, supported, linefeeds, spaces) is None <==> command_pid(cmd) is Some,
        command_pid(cmd) is None ==> immediate_reply(cmd, supported, linefeeds, spaces) == Some(
            encode_utf8(
                if linefeeds {
                    seq!['\r', '\n', '?', '\r', '\n', '>']
                } else {
                    seq!['\r', '?', '\r', '>']
                },
            ),
        ),
{
    reveal_strlit("?");
    reveal_strlit(">");
    reveal_strlit("\r\n");
    reveal_strlit("\r");
    assert(prompt_reply(true, "?"@) =~= seq!['\r', '\n', '?', '\r', '\n', '>']);
    assert(prompt_reply(false, "?"@) =~= seq!['\r', '?', '\r', '>']);
}

/// A look-up touches the PID that it is for and no other, and it tells the cache
/// manager of that PID: that its value was consumed without a wait, or that it
/// is waited for.
pub proof fn law_look_up_is_for_one_pid(
    before: ClientCache,
    after: ClientCache,
    pid: Pid,
    other: Pid,
    waker: Waker,
    found: Option<Seq<Seq<u8>>>,
    message: CacheManagerMessage,
)
    requires
        looked_up(before, after, pid, waker, found, message),
        other != pid,
    ensures
        after.entry(other) == before.entry(other),
        before.entry(pid) matches CacheEntry::Fresh(response) ==> {
            &&& found == Some(response@)
            &&& after.entry(pid) == CacheEntry::Empty
            &&& message == CacheManagerMessage::Consumed { pid, wait_ns: None }
        },
        before.entry(pid) == CacheEntry::Empty ==> {
            &&& found is None
            &&& after.entry(pid) == CacheEntry::Waiting(waker)
            &&& message == CacheManagerMessage::Waiting(pid)
        },
{
}

} // verus!
