//! The proxy of the simpler device: AT commands are answered at once, everything
//! else is asked of the dongle.

use crate::elm327::{
    at_answer, at_applied, extract_rpm_from_response, laid_out, prompt_reply, reply_line, rpm_in,
    ClientState,
};
use crate::obd2::buffers::Obd2Buffer;
use crate::obd2::dongle::{elm327_error, DongleError};
use crate::text::{same_text, starts_with, to_uppercase, uppercase};
use vstd::prelude::*;
use vstd::utf8::encode_utf8;

verus! {

/// What to do about a command.
pub enum ProxyAction {
    /// Remember the AT command, and send the reply
    Reply { log: String, reply: String },
    /// Remember the OBD2 command, and send what was typed to the dongle
    Forward { log: String },
}

/// The answer to an AT command in upper case.
pub open spec fn at_text(cmd: Seq<char>) -> Seq<char> {
    if cmd == "AT@1"@ {
        "TachTalk OBD2 Proxy"@
    } else {
        at_answer(cmd)
    }
}

/// Handle AT commands locally (per-connection state)
pub fn handle_at_command(cmd: &str, state: &mut ClientState) -> (r: String)
    ensures
        at_applied(cmd@, *old(state), *final(state)),
        r@ == prompt_reply(cmd@ == "ATZ"@ || old(state).linefeeds_enabled, at_text(cmd@)),
{
    proof {
        reveal_strlit("AT@1");
        reveal_strlit("ATZ");
        reveal_strlit("ATE0");
        reveal_strlit("ATE1");
        reveal_strlit("ATL0");
        reveal_strlit("ATL1");
        reveal_strlit("ATS0");
        reveal_strlit("ATS1");
        reveal_strlit("ATH0");
        reveal_strlit("ATH1");
    }
    if same_text(cmd, "AT@1") {
        proof {
            assert("AT@1"@[2] == '@');
            assert("ATE0"@[2] == 'E' && "ATE1"@[2] == 'E');
            assert("ATL0"@[2] == 'L' && "ATL1"@[2] == 'L');
            assert("ATS0"@[2] == 'S' && "ATS1"@[2] == 'S');
            assert("ATH0"@[2] == 'H' && "ATH1"@[2] == 'H');
            assert("ATZ"@.len() == 3);
        }
        return reply_line(state.line_ending(), "TachTalk OBD2 Proxy");
    }
    state.apply_at_command(cmd)
}

/// Process a command without white space around it.
pub fn process_command(command: &str, state: &mut ClientState) -> (r: ProxyAction)
    ensures
        ({
            let upper = uppercase(command@);
            if "AT"@.is_prefix_of(upper) {
                &&& r matches ProxyAction::Reply { log, reply } && log@ == upper && reply@
                    == prompt_reply(
                    upper == "ATZ"@ || old(state).linefeeds_enabled,
                    at_text(upper),
                )
                &&& at_applied(upper, *old(state), *final(state))
            } else {
                &&& r matches ProxyAction::Forward { log } && log@ == upper
                &&& *final(state) == *old(state)
            }
        }),
{
    let upper: String = to_uppercase(command);
    if starts_with(upper.as_str(), "AT") {
        let reply: String = handle_at_command(upper.as_str(), state);
        ProxyAction::Reply { log: upper, reply }
    } else {
        ProxyAction::Forward { log: upper }
    }
}

/// The RPM in the dongle's answer, if there is one.
pub open spec fn rpm_reported(response: Seq<u8>) -> Option<nat> {
    if vstd::utf8::valid_utf8(response) {
        rpm_in(uppercase(vstd::utf8::decode_utf8(response)))
    } else {
        None
    }
}

/// Answer the client with what the dongle said; an RPM in it is passed on.
pub fn finish_command(result: &Result<Obd2Buffer, DongleError>, state: &ClientState) -> (r: (
    Vec<u8>,
    Option<u32>,
))
    ensures
        match result {
            Ok(response) => {
                &&& r.0@ == laid_out(state.spaces_enabled, response@)
                &&& match r.1 {
                    Some(rpm) => rpm_reported(response@) == Some(rpm as nat),
                    None => rpm_reported(response@) is None,
                }
            },
            Err(e) => {
                &&& r.0@ == encode_utf8(prompt_reply(state.linefeeds_enabled, elm327_error(*e)))
                &&& r.1 is None
            },
        },
{
    match result {
        Ok(response) => {
            let bytes: &[u8] = response.bytes();
            (state.format_response(bytes), extract_rpm_from_response(bytes))
        },
        Err(e) => {
            let text: String = reply_line(state.line_ending(), e.to_elm327_error());
            let bytes: &[u8] = text.as_str().as_bytes();
            let mut reply: Vec<u8> = Vec::new();
            reply.extend_from_slice(bytes);
            assert(reply@ =~= bytes@);
            (reply, None)
        },
    }
}

/// Whatever a client's settings, it reads the dongle's answer: only spaces are
/// added.
pub proof fn law_answer_reaches_client(spaces: bool, response: Seq<u8>)
    ensures
        crate::elm327::without_spaces(laid_out(spaces, response)) == crate::elm327::without_spaces(
            response,
        ),
{
    crate::elm327::law_layout_only_adds_spaces(spaces, response);
}

/// The simpler device names itself in its own words, and answers every other AT command
/// as the other device does.
pub proof fn law_proxy_names_itself(cmd: Seq<char>)
    ensures
        cmd == "AT@1"@ ==> at_text(cmd) =~= seq!['T', 'a', 'c', 'h', 'T', 'a', 'l', 'k'] + seq![
            ' ',
            'O',
            'B',
            'D',
            '2',
        ] + seq![' ', 'P', 'r', 'o', 'x', 'y'],
        cmd != "AT@1"@ ==> at_text(cmd) == at_answer(cmd),
{
    reveal_strlit("TachTalk OBD2 Proxy");
}

/// An RPM is passed on from an answer that is text, in whatever case; other bytes hold
/// none.
pub proof fn law_rpm_is_reported_from_text(text: Seq<char>)
    ensures
        rpm_reported(encode_utf8(text)) == rpm_in(uppercase(text)),
{
    vstd::utf8::encode_utf8_valid_utf8(text);
    vstd::utf8::encode_utf8_decode_utf8(text);
}

} // verus!
