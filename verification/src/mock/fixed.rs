//! A mock ELM327 that gives fixed replies.

use crate::elm327::{at_accepted, is_at_accepted, law_accepted_commands};
use crate::text::{
    chars_of, hex_numeral, lemma_hex_numeral, push_hex_number, same_text, zero_filled,
};
use vstd::prelude::*;

verus! {

/// The text has a part in it.
pub open spec fn has_part(s: Seq<char>, part: Seq<char>) -> bool {
    exists|i: int|
        0 <= i <= s.len() - part.len() && #[trigger] s.subrange(i, i + part.len()) == part
}

/// The answer to a command in upper case, without the line ends and the prompt
/// behind it.
pub open spec fn answer(cmd: Seq<char>, rpm_raw: u32) -> Seq<char> {
    let rpm = zero_filled(hex_numeral(rpm_raw as nat), 4);
    if cmd == "ATZ"@ {
        "\r\rELM327 v1.5"@
    } else if at_accepted(cmd) {
        "OK"@
    } else if cmd == "ATI"@ {
        "ELM327 v1.5"@
    } else if cmd == "AT@1"@ {
        "Mock ELM327"@
    } else if cmd == "0100"@ {
        "4100BE3FA813"@
    } else if cmd == "0120"@ {
        "412080000001"@
    } else if cmd == "0140"@ {
        "4140FED08000"@
    } else if cmd == "0160"@ {
        "NO DATA"@
    } else if cmd == "010C"@ {
        "410C"@ + rpm
    } else if cmd == "010D"@ {
        "410D28"@
    } else if cmd == "0105"@ {
        "01054F"@
    } else if cmd == "010F"@ {
        "010F38"@
    } else if cmd == "0111"@ {
        "011145"@
    } else if cmd == "0104"@ {
        "010464"@
    } else if has_part(cmd, "010C"@) && cmd.len() > 4 {
        "410C"@ + rpm + "0D280F38"@
    } else if cmd == "03"@ {
        "4300"@
    } else if cmd == "0902"@ {
        "490213455034353637383930"@
    } else {
        "?"@
    }
}

fn contains_part(s: &[char], part: &[char]) -> (r: bool)
    ensures
        r == has_part(s@, part@),
{
    if part.len() > s.len() {
        return false;
    }
    let total: usize = s.len();
    let last: usize = total - part.len();
    let mut i: usize = 0;
    while i <= last
        invariant
            i <= last + 1,
            total == s@.len(),
            last == s@.len() - part@.len(),
            last < usize::MAX || i <= last,
            forall|k: int| 0 <= k < i ==> #[trigger] s@.subrange(k, k + part@.len()) != part@,
        decreases last + 1 - i,
    {
        let mut j: usize = 0;
        while j < part.len() && s[i + j] == part[j]
            invariant
                i <= last,
                j <= part@.len(),
                total == s@.len(),
                last == s@.len() - part@.len(),
                forall|k: int| 0 <= k < j ==> #[trigger] part@[k] == s@[i + k],
            ensures
                j <= part@.len(),
                forall|k: int| 0 <= k < j ==> #[trigger] part@[k] == s@[i + k],
                j < part@.len() ==> s@[i + j] != part@[j as int],
            decreases part@.len() - j,
        {
            j = j + 1;
        }
        let ghost here = s@.subrange(i as int, i + part@.len());
        if j == part.len() {
            assert(here =~= part@);
            return true;
        }
        assert(here[j as int] == s@[i + j]);
        if i == last {
            return false;
        }
        i = i + 1;
    }
    false
}

fn rpm_text(front: &str, rpm_raw: u32, back: &str) -> (r: String)
    ensures
        r@ == front@ + zero_filled(hex_numeral(rpm_raw as nat), 4) + back@,
{
    let mut out: String = front.to_owned();
    push_hex_number(&mut out, rpm_raw as u64, 4);
    out.push_str(back);
    out
}

fn find_answer(cmd: &str, rpm_raw: u32) -> (r: String)
    ensures
        r@ == answer(cmd@, rpm_raw),
{
    if same_text(cmd, "ATZ") {
        return "\r\rELM327 v1.5".to_owned();
    }
    if is_at_accepted(cmd) {
        return "OK".to_owned();
    }
    if same_text(cmd, "ATI") {
        return "ELM327 v1.5".to_owned();
    }
    if same_text(cmd, "AT@1") {
        return "Mock ELM327".to_owned();
    }
    if same_text(cmd, "0100") {
        return "4100BE3FA813".to_owned();
    }
    if same_text(cmd, "0120") {
        return "412080000001".to_owned();
    }
    if same_text(cmd, "0140") {
        return "4140FED08000".to_owned();
    }
    if same_text(cmd, "0160") {
        return "NO DATA".to_owned();
    }
    if same_text(cmd, "010C") {
        let text: String = rpm_text("410C", rpm_raw, "");
        proof {
            reveal_strlit("");
        }
        assert(text@ =~= "410C"@ + zero_filled(hex_numeral(rpm_raw as nat), 4));
        return text;
    }
    if same_text(cmd, "010D") {
        return "410D28".to_owned();
    }
    if same_text(cmd, "0105") {
        return "01054F".to_owned();
    }
    if same_text(cmd, "010F") {
        return "010F38".to_owned();
    }
    if same_text(cmd, "0111") {
        return "011145".to_owned();
    }
    if same_text(cmd, "0104") {
        return "010464".to_owned();
    }
    let chars: Vec<char> = chars_of(cmd);
    let rpm_request: Vec<char> = chars_of("010C");
    if contains_part(chars.as_slice(), rpm_request.as_slice()) && chars.len() > 4 {
        return rpm_text("410C", rpm_raw, "0D280F38");
    }
    if same_text(cmd, "03") {
        return "4300".to_owned();
    }
    if same_text(cmd, "0902") {
        return "490213455034353637383930".to_owned();
    }
    "?".to_owned()
}

/// Process a command in upper case.
pub fn process_command(cmd: &str, rpm_raw: u32) -> (r: String)
    ensures
        r@ == answer(cmd@, rpm_raw) + "\r\r>"@,
{
    let mut reply: String = find_answer(cmd, rpm_raw);
    reply.push_str("\r\r>");
    reply
}

// ---------------------------------------------------------------------------
// Laws
// ---------------------------------------------------------------------------

/// The answer to a request for the RPM is `410C` with the raw value behind it, in four
/// digits; a request for more PIDs with it has the data of the others behind that.
pub proof fn law_fixed_rpm_is_answered(rpm_raw: u32, more: Seq<char>)
    requires
        rpm_raw < 0x1_0000,
        more.len() > 0,
    ensures
        ({
            let digits = zero_filled(hex_numeral(rpm_raw as nat), 4);
            let cmd = seq!['0', '1', '0', 'C'];
            &&& digits.len() == 4
            &&& answer(cmd, rpm_raw) =~= seq!['4', '1', '0', 'C'] + digits
            &&& answer(cmd + more, rpm_raw) =~= seq![
                '4',
                '1',
                '0',
                'C',
            ] + digits + seq!['0', 'D', '2', '8', '0', 'F', '3', '8']
        }),
{
    reveal_strlit("ATZ");
    reveal_strlit("ATI");
    reveal_strlit("AT@1");
    reveal_strlit("410C");
    reveal_strlit("0D280F38");
    reveal_strlit("0100");
    reveal_strlit("0120");
    reveal_strlit("0140");
    reveal_strlit("0160");
    reveal_strlit("010C");
    reveal_strlit("010D");
    reveal_strlit("0105");
    reveal_strlit("010F");
    reveal_strlit("0111");
    reveal_strlit("0104");
    reveal_strlit("03");
    reveal_strlit("0902");
    assert("0100"@.len() == 4);
    assert("0120"@.len() == 4);
    assert("0140"@.len() == 4);
    assert("0160"@.len() == 4);
    assert("010C"@.len() == 4);
    assert("010D"@.len() == 4);
    assert("0105"@.len() == 4);
    assert("010F"@.len() == 4);
    assert("0111"@.len() == 4);
    assert("0104"@.len() == 4);
    assert("03"@.len() == 2);
    assert("0902"@.len() == 4);
    assert("0100"@[2] == '0' && "0120"@[2] == '2');
    assert("0100"@[2] == '0' && "0140"@[2] == '4');
    assert("0100"@[2] == '0' && "0160"@[2] == '6');
    assert("0100"@[3] == '0' && "010C"@[3] == 'C');
    assert("0100"@[3] == '0' && "010D"@[3] == 'D');
    assert("0100"@[3] == '0' && "0105"@[3] == '5');
    assert("0100"@[3] == '0' && "010F"@[3] == 'F');
    assert("0100"@[2] == '0' && "0111"@[2] == '1');
    assert("0100"@[3] == '0' && "0104"@[3] == '4');
    assert("0100"@[1] == '1' && "0902"@[1] == '9');
    assert("0120"@[2] == '2' && "0140"@[2] == '4');
    assert("0120"@[2] == '2' && "0160"@[2] == '6');
    assert("0120"@[2] == '2' && "010C"@[2] == '0');
    assert("0120"@[2] == '2' && "010D"@[2] == '0');
    assert("0120"@[2] == '2' && "0105"@[2] == '0');
    assert("0120"@[2] == '2' && "010F"@[2] == '0');
    assert("0120"@[2] == '2' && "0111"@[2] == '1');
    assert("0120"@[2] == '2' && "0104"@[2] == '0');
    assert("0120"@[1] == '1' && "0902"@[1] == '9');
    assert("0140"@[2] == '4' && "0160"@[2] == '6');
    assert("0140"@[2] == '4' && "010C"@[2] == '0');
    assert("0140"@[2] == '4' && "010D"@[2] == '0');
    assert("0140"@[2] == '4' && "0105"@[2] == '0');
    assert("0140"@[2] == '4' && "010F"@[2] == '0');
    assert("0140"@[2] == '4' && "0111"@[2] == '1');
    assert("0140"@[2] == '4' && "0104"@[2] == '0');
    assert("0140"@[1] == '1' && "0902"@[1] == '9');
    assert("0160"@[2] == '6' && "010C"@[2] == '0');
    assert("0160"@[2] == '6' && "010D"@[2] == '0');
    assert("0160"@[2] == '6' && "0105"@[2] == '0');
    assert("0160"@[2] == '6' && "010F"@[2] == '0');
    assert("0160"@[2] == '6' && "0111"@[2] == '1');
    assert("0160"@[2] == '6' && "0104"@[2] == '0');
    assert("0160"@[1] == '1' && "0902"@[1] == '9');
    assert("010C"@[3] == 'C' && "010D"@[3] == 'D');
    assert("010C"@[3] == 'C' && "0105"@[3] == '5');
    assert("010C"@[3] == 'C' && "010F"@[3] == 'F');
    assert("010C"@[2] == '0' && "0111"@[2] == '1');
    assert("010C"@[3] == 'C' && "0104"@[3] == '4');
    assert("010C"@[1] == '1' && "0902"@[1] == '9');
    assert("010D"@[3] == 'D' && "0105"@[3] == '5');
    assert("010D"@[3] == 'D' && "010F"@[3] == 'F');
    assert("010D"@[2] == '0' && "0111"@[2] == '1');
    assert("010D"@[3] == 'D' && "0104"@[3] == '4');
    assert("010D"@[1] == '1' && "0902"@[1] == '9');
    assert("0105"@[3] == '5' && "010F"@[3] == 'F');
    assert("0105"@[2] == '0' && "0111"@[2] == '1');
    assert("0105"@[3] == '5' && "0104"@[3] == '4');
    assert("0105"@[1] == '1' && "0902"@[1] == '9');
    assert("010F"@[2] == '0' && "0111"@[2] == '1');
    assert("010F"@[3] == 'F' && "0104"@[3] == '4');
    assert("010F"@[1] == '1' && "0902"@[1] == '9');
    assert("0111"@[2] == '1' && "0104"@[2] == '0');
    assert("0111"@[1] == '1' && "0902"@[1] == '9');
    assert("0104"@[1] == '1' && "0902"@[1] == '9');
    lemma_hex_numeral(rpm_raw as nat);
    let cmd = seq!['0', '1', '0', 'C'];
    assert("010C"@ =~= cmd);
    assert(cmd[0] == '0' && "ATZ"@[0] == 'A' && "ATI"@[0] == 'A' && "AT@1"@[0] == 'A');
    let long = cmd + more;
    law_accepted_commands(cmd);
    law_accepted_commands(long);
    assert(long[0] == '0');
    assert(long.subrange(0, 0int + "010C"@.len()) =~= "010C"@);
    assert(has_part(long, "010C"@));
    assert("410C"@ =~= seq!['4', '1', '0', 'C']);
    assert("0D280F38"@ =~= seq!['0', 'D', '2', '8', '0', 'F', '3', '8']);
}

/// The other data are fixed, and so are the answers without a PID.
pub proof fn law_fixed_data(cmd: Seq<char>, rpm_raw: u32)
    ensures
        cmd == "0100"@ ==> answer(cmd, rpm_raw) == "4100BE3FA813"@,
        cmd == "0120"@ ==> answer(cmd, rpm_raw) == "412080000001"@,
        cmd == "0140"@ ==> answer(cmd, rpm_raw) == "4140FED08000"@,
        cmd == "0160"@ ==> answer(cmd, rpm_raw) == "NO DATA"@,
        cmd == "010D"@ ==> answer(cmd, rpm_raw) == "410D28"@,
        cmd == "0105"@ ==> answer(cmd, rpm_raw) == "01054F"@,
        cmd == "010F"@ ==> answer(cmd, rpm_raw) == "010F38"@,
        cmd == "0111"@ ==> answer(cmd, rpm_raw) == "011145"@,
        cmd == "0104"@ ==> answer(cmd, rpm_raw) == "010464"@,
        cmd == "03"@ ==> answer(cmd, rpm_raw) == "4300"@,
        cmd == "0902"@ ==> answer(cmd, rpm_raw) == "490213455034353637383930"@,
{
    reveal_strlit("ATZ");
    reveal_strlit("ATI");
    reveal_strlit("AT@1");
    reveal_strlit("0100");
    reveal_strlit("0120");
    reveal_strlit("0140");
    reveal_strlit("0160");
    reveal_strlit("010C");
    reveal_strlit("010D");
    reveal_strlit("0105");
    reveal_strlit("010F");
    reveal_strlit("0111");
    reveal_strlit("0104");
    reveal_strlit("03");
    reveal_strlit("0902");
    assert("0100"@.len() == 4);
    assert("0120"@.len() == 4);
    assert("0140"@.len() == 4);
    assert("0160"@.len() == 4);
    assert("010C"@.len() == 4);
    assert("010D"@.len() == 4);
    assert("0105"@.len() == 4);
    assert("010F"@.len() == 4);
    assert("0111"@.len() == 4);
    assert("0104"@.len() == 4);
    assert("03"@.len() == 2);
    assert("0902"@.len() == 4);
    assert("0100"@[2] == '0' && "0120"@[2] == '2');
    assert("0100"@[2] == '0' && "0140"@[2] == '4');
    assert("0100"@[2] == '0' && "0160"@[2] == '6');
    assert("0100"@[3] == '0' && "010C"@[3] == 'C');
    assert("0100"@[3] == '0' && "010D"@[3] == 'D');
    assert("0100"@[3] == '0' && "0105"@[3] == '5');
    assert("0100"@[3] == '0' && "010F"@[3] == 'F');
    assert("0100"@[2] == '0' && "0111"@[2] == '1');
    assert("0100"@[3] == '0' && "0104"@[3] == '4');
    assert("0100"@[1] == '1' && "0902"@[1] == '9');
    assert("0120"@[2] == '2' && "0140"@[2] == '4');
    assert("0120"@[2] == '2' && "0160"@[2] == '6');
    assert("0120"@[2] == '2' && "010C"@[2] == '0');
    assert("0120"@[2] == '2' && "010D"@[2] == '0');
    assert("0120"@[2] == '2' && "0105"@[2] == '0');
    assert("0120"@[2] == '2' && "010F"@[2] == '0');
    assert("0120"@[2] == '2' && "0111"@[2] == '1');
    assert("0120"@[2] == '2' && "0104"@[2] == '0');
    assert("0120"@[1] == '1' && "0902"@[1] == '9');
    assert("0140"@[2] == '4' && "0160"@[2] == '6');
    assert("0140"@[2] == '4' && "010C"@[2] == '0');
    assert("0140"@[2] == '4' && "010D"@[2] == '0');
    assert("0140"@[2] == '4' && "0105"@[2] == '0');
    assert("0140"@[2] == '4' && "010F"@[2] == '0');
    assert("0140"@[2] == '4' && "0111"@[2] == '1');
    assert("0140"@[2] == '4' && "0104"@[2] == '0');
    assert("0140"@[1] == '1' && "0902"@[1] == '9');
    assert("0160"@[2] == '6' && "010C"@[2] == '0');
    assert("0160"@[2] == '6' && "010D"@[2] == '0');
    assert("0160"@[2] == '6' && "0105"@[2] == '0');
    assert("0160"@[2] == '6' && "010F"@[2] == '0');
    assert("0160"@[2] == '6' && "0111"@[2] == '1');
    assert("0160"@[2] == '6' && "0104"@[2] == '0');
    assert("0160"@[1] == '1' && "0902"@[1] == '9');
    assert("010C"@[3] == 'C' && "010D"@[3] == 'D');
    assert("010C"@[3] == 'C' && "0105"@[3] == '5');
    assert("010C"@[3] == 'C' && "010F"@[3] == 'F');
    assert("010C"@[2] == '0' && "0111"@[2] == '1');
    assert("010C"@[3] == 'C' && "0104"@[3] == '4');
    assert("010C"@[1] == '1' && "0902"@[1] == '9');
    assert("010D"@[3] == 'D' && "0105"@[3] == '5');
    assert("010D"@[3] == 'D' && "010F"@[3] == 'F');
    assert("010D"@[2] == '0' && "0111"@[2] == '1');
    assert("010D"@[3] == 'D' && "0104"@[3] == '4');
    assert("010D"@[1] == '1' && "0902"@[1] == '9');
    assert("0105"@[3] == '5' && "010F"@[3] == 'F');
    assert("0105"@[2] == '0' && "0111"@[2] == '1');
    assert("0105"@[3] == '5' && "0104"@[3] == '4');
    assert("0105"@[1] == '1' && "0902"@[1] == '9');
    assert("010F"@[2] == '0' && "0111"@[2] == '1');
    assert("010F"@[3] == 'F' && "0104"@[3] == '4');
    assert("010F"@[1] == '1' && "0902"@[1] == '9');
    assert("0111"@[2] == '1' && "0104"@[2] == '0');
    assert("0111"@[1] == '1' && "0902"@[1] == '9');
    assert("0104"@[1] == '1' && "0902"@[1] == '9');
    law_accepted_commands(cmd);
    assert("ATZ"@[0] == 'A' && "ATI"@[0] == 'A' && "AT@1"@[0] == 'A');
    assert("0100"@[0] == '0');
    assert("0120"@[0] == '0');
    assert("0140"@[0] == '0');
    assert("0160"@[0] == '0');
    assert("010D"@[0] == '0');
    assert("0105"@[0] == '0');
    assert("010F"@[0] == '0');
    assert("0111"@[0] == '0');
    assert("0104"@[0] == '0');
    assert("03"@[0] == '0');
    assert("0902"@[0] == '0');
    if cmd.len() <= 4 && has_part(cmd, "010C"@) {
        assert(cmd =~= "010C"@) by {
            let i = choose|i: int|
                0 <= i <= cmd.len() - "010C"@.len() && #[trigger] cmd.subrange(i, i + "010C"@.len())
                    == "010C"@;
            assert(cmd.subrange(0, 4) =~= cmd);
        }
    }
}

/// A part is found wherever it stands, and not where it is longer than the text.
pub proof fn law_parts_are_found(front: Seq<char>, part: Seq<char>, back: Seq<char>)
    ensures
        has_part(front + part + back, part),
        back.len() < part.len() ==> !has_part(back, part),
{
    let s = front + part + back;
    let i = front.len() as int;
    assert(s.subrange(i, i + part.len()) =~= part);
}

/// An AT command that an ELM327 accepts is answered with OK, but for the reset, which names
/// the device.
pub proof fn law_fixed_at_commands(cmd: Seq<char>, rpm_raw: u32)
    ensures
        at_accepted(cmd) && cmd != "ATZ"@ ==> answer(cmd, rpm_raw) =~= seq!['O', 'K'],
        cmd == "ATZ"@ ==> answer(cmd, rpm_raw) =~= seq!['\r', '\r'] + seq![
            'E',
            'L',
            'M',
            '3',
            '2',
            '7',
            ' ',
            'v',
            '1',
            '.',
            '5',
        ],
{
    reveal_strlit("OK");
    reveal_strlit("\r\rELM327 v1.5");
}

/// A command that is not known is answered with a question mark.
pub proof fn law_fixed_unknown_commands(cmd: Seq<char>, rpm_raw: u32)
    requires
        cmd.len() == 0 || cmd[0] != 'A' && cmd[0] != '0',
        !has_part(cmd, "010C"@),
    ensures
        answer(cmd, rpm_raw) =~= seq!['?'],
{
    law_accepted_commands(cmd);
    reveal_strlit("?");
    reveal_strlit("ATZ");
    reveal_strlit("ATI");
    reveal_strlit("AT@1");
    reveal_strlit("0100");
    reveal_strlit("0120");
    reveal_strlit("0140");
    reveal_strlit("0160");
    reveal_strlit("010C");
    reveal_strlit("010D");
    reveal_strlit("0105");
    reveal_strlit("010F");
    reveal_strlit("0111");
    reveal_strlit("0104");
    reveal_strlit("03");
    reveal_strlit("0902");
    assert("ATZ"@[0] == 'A' && "ATI"@[0] == 'A' && "AT@1"@[0] == 'A');
    assert("ATZ"@.len() == 3 && "ATI"@.len() == 3 && "AT@1"@.len() == 4);
    assert("0100"@[0] == '0' && "0100"@.len() == 4);
    assert("0120"@[0] == '0' && "0120"@.len() == 4);
    assert("0140"@[0] == '0' && "0140"@.len() == 4);
    assert("0160"@[0] == '0' && "0160"@.len() == 4);
    assert("010C"@[0] == '0' && "010C"@.len() == 4);
    assert("010D"@[0] == '0' && "010D"@.len() == 4);
    assert("0105"@[0] == '0' && "0105"@.len() == 4);
    assert("010F"@[0] == '0' && "010F"@.len() == 4);
    assert("0111"@[0] == '0' && "0111"@.len() == 4);
    assert("0104"@[0] == '0' && "0104"@.len() == 4);
    assert("03"@[0] == '0' && "03"@.len() == 2);
    assert("0902"@[0] == '0' && "0902"@.len() == 4);
}

} // verus!
