//! What the proxy sends to a client reads back as what was cached.

use crate::elm327::{laid_out, spaced};
use crate::obd2::buffers::Pid;
use crate::obd2::parse::{
    cr_lines, data_of_pid, digit_pairs, entries_from, hex_digits_of, law_answer_splits_into_pids,
    line_entries, lines_entries, response_entries, strung, ANSWER_SERVICE,
};
use crate::obd2::wire::{answer_text, cached_lines, cached_reply, line_end_bytes};
use crate::text::{
    all_hex, hex_digit_value, hex_pair, hex_text, is_hex_digit, lemma_hex_digit_roundtrip, CR, LF,
    PROMPT, SPACE,
};
use vstd::prelude::*;

verus! {

/// Every ECU's data has the length that is known for the PID, if one is.
pub open spec fn lengths_fit(pid: Pid, values: Seq<Seq<u8>>, lengths: Seq<Option<u8>>) -> bool {
    match lengths[pid as int] {
        None => true,
        Some(n) => forall|i: int| 0 <= i < values.len() ==> (#[trigger] values[i]).len() == n,
    }
}

/// The entries of one PID.
pub open spec fn entries_for(pid: Pid, values: Seq<Seq<u8>>) -> Seq<(u8, Seq<u8>)> {
    values.map_values(|data: Seq<u8>| (pid, data))
}

proof fn lemma_hex_text_concat(a: Seq<u8>, b: Seq<u8>)
    ensures
        hex_text(a + b) == hex_text(a) + hex_text(b),
    decreases b.len(),
{
    if b.len() == 0 {
        assert(a + b =~= a);
        assert(hex_text(a) + hex_text(b) =~= hex_text(a));
    } else {
        lemma_hex_text_concat(a, b.drop_last());
        assert((a + b).drop_last() =~= a + b.drop_last());
        assert(hex_text(a) + hex_text(b.drop_last()) + hex_pair(b.last()) =~= hex_text(a) + (
        hex_text(b.drop_last()) + hex_pair(b.last())));
    }
}

proof fn lemma_hex_text_digits(bytes: Seq<u8>)
    ensures
        hex_text(bytes).len() == 2 * bytes.len(),
        all_hex(hex_text(bytes)),
        forall|i: int|
            0 <= i < bytes.len() ==> #[trigger] hex_digit_value(hex_text(bytes)[2 * i]) * 16
                + hex_digit_value(hex_text(bytes)[2 * i + 1]) == bytes[i],
    decreases bytes.len(),
{
    if bytes.len() > 0 {
        let front = bytes.drop_last();
        let last = bytes.last();
        lemma_hex_text_digits(front);
        lemma_hex_digit_roundtrip((last / 16) as nat);
        lemma_hex_digit_roundtrip((last % 16) as nat);
        let text = hex_text(bytes);
        assert forall|i: int| 0 <= i < bytes.len() implies #[trigger] hex_digit_value(text[2 * i])
            * 16 + hex_digit_value(text[2 * i + 1]) == bytes[i] by {
            if i < front.len() {
                assert(text[2 * i] == hex_text(front)[2 * i]);
                assert(text[2 * i + 1] == hex_text(front)[2 * i + 1]);
            }
        }
    }
}

/// Bytes that are written out in hexadecimal read back as they were.
pub proof fn law_hex_text_reads_back(bytes: Seq<u8>)
    ensures
        digit_pairs(hex_text(bytes)) == bytes,
{
    lemma_hex_text_digits(bytes);
    let read = digit_pairs(hex_text(bytes));
    assert forall|i: int| 0 <= i < bytes.len() implies read[i] == bytes[i] by {
        assert(hex_digit_value(hex_text(bytes)[2 * i]) * 16 + hex_digit_value(
            hex_text(bytes)[2 * i + 1],
        ) == bytes[i]);
    }
    assert(read =~= bytes);
}

proof fn lemma_answer_text(pid: Pid, data: Seq<u8>)
    ensures
        answer_text(pid, data) == hex_text(seq![ANSWER_SERVICE, pid] + data),
        all_hex(answer_text(pid, data)),
{
    let head = seq![ANSWER_SERVICE, pid];
    lemma_hex_text_concat(head, data);
    lemma_hex_text_digits(head + data);
    assert(head.drop_last() =~= seq![ANSWER_SERVICE]);
    assert(head.drop_last().drop_last() =~= Seq::empty());
    assert(hex_text(head.drop_last()) =~= hex_pair(ANSWER_SERVICE)) by {
        assert(hex_text(head.drop_last().drop_last()) =~= Seq::empty());
    }
    assert(hex_pair(ANSWER_SERVICE) =~= seq![0x34u8, 0x31u8]);
    assert(hex_text(head) =~= seq![0x34u8, 0x31u8] + hex_pair(pid));
}

proof fn lemma_hex_digits_concat(a: Seq<u8>, b: Seq<u8>)
    ensures
        hex_digits_of(a + b) == hex_digits_of(a) + hex_digits_of(b),
    decreases b.len(),
{
    if b.len() == 0 {
        assert(a + b =~= a);
        assert(hex_digits_of(a) + hex_digits_of(b) =~= hex_digits_of(a));
    } else {
        lemma_hex_digits_concat(a, b.drop_last());
        assert((a + b).drop_last() =~= a + b.drop_last());
        assert((hex_digits_of(a) + hex_digits_of(b.drop_last())).push(b.last()) =~= hex_digits_of(a)
            + hex_digits_of(b.drop_last()).push(b.last()));
    }
}

proof fn lemma_hex_digits_of_layout(spaces: bool, text: Seq<u8>)
    ensures
        hex_digits_of(laid_out(spaces, text)) == hex_digits_of(text),
    decreases text.len(),
{
    if spaces && text.len() > 0 {
        lemma_hex_digits_of_layout(spaces, text.drop_last());
        let front = spaced(text.drop_last());
        let b = text.last();
        assert(front.push(SPACE).push(b).drop_last() =~= front.push(SPACE));
        assert(front.push(SPACE).drop_last() =~= front);
        assert(front.push(b).drop_last() =~= front);
        assert(hex_digits_of(front.push(SPACE)) == hex_digits_of(front));
    }
}

proof fn lemma_hex_digits_of_hex(text: Seq<u8>)
    requires
        all_hex(text),
    ensures
        hex_digits_of(text) == text,
    decreases text.len(),
{
    if text.len() > 0 {
        assert forall|i: int| 0 <= i < text.drop_last().len() implies is_hex_digit(
            #[trigger] text.drop_last()[i],
        ) by {
            assert(is_hex_digit(text[i]));
        }
        lemma_hex_digits_of_hex(text.drop_last());
        assert(is_hex_digit(text[text.len() - 1]));
        assert(text.drop_last().push(text.last()) =~= text);
    }
}

proof fn lemma_layout_has_no_cr(spaces: bool, text: Seq<u8>)
    requires
        all_hex(text),
    ensures
        !laid_out(spaces, text).contains(CR),
    decreases text.len(),
{
    if text.len() > 0 {
        assert forall|i: int| 0 <= i < text.drop_last().len() implies is_hex_digit(
            #[trigger] text.drop_last()[i],
        ) by {
            assert(is_hex_digit(text[i]));
        }
        assert(is_hex_digit(text[text.len() - 1]));
        if spaces {
            lemma_layout_has_no_cr(spaces, text.drop_last());
            let front = spaced(text.drop_last());
            assert forall|i: int| 0 <= i < spaced(text).len() implies spaced(text)[i] != CR by {
                if i < front.len() {
                    assert(front.contains(front[i]));
                }
            }
        } else {
            assert forall|i: int| 0 <= i < text.len() implies text[i] != CR by {
                assert(is_hex_digit(text[i]));
            }
        }
    }
}

proof fn lemma_cr_lines_nonempty(s: Seq<u8>)
    ensures
        cr_lines(s).len() > 0,
    decreases s.len(),
{
    if s.len() > 0 {
        lemma_cr_lines_nonempty(s.drop_last());
    }
}

proof fn lemma_cr_lines_extend(s: Seq<u8>, b: Seq<u8>)
    requires
        !b.contains(CR),
    ensures
        cr_lines(s).len() > 0,
        cr_lines(s + b) == cr_lines(s).drop_last().push(cr_lines(s).last() + b),
    decreases b.len(),
{
    lemma_cr_lines_nonempty(s);
    let lines = cr_lines(s);
    if b.len() == 0 {
        assert(s + b =~= s);
        assert(lines.last() + b =~= lines.last());
        assert(lines.drop_last().push(lines.last()) =~= lines);
    } else {
        assert forall|i: int| 0 <= i < b.drop_last().len() implies b.drop_last()[i] != CR by {
            assert(b.contains(b[i]));
        }
        assert(b.contains(b.last()));
        lemma_cr_lines_extend(s, b.drop_last());
        assert((s + b).drop_last() =~= s + b.drop_last());
        let front = cr_lines(s + b.drop_last());
        assert(front.drop_last() =~= lines.drop_last());
        assert((lines.last() + b.drop_last()).push(b.last()) =~= lines.last() + b);
    }
}

/// One more line behind a carriage return adds its own entries.
proof fn lemma_one_more_line(s: Seq<u8>, line: Seq<u8>, lengths: Seq<Option<u8>>)
    requires
        !line.contains(CR),
    ensures
        response_entries(s.push(CR) + line, lengths) == response_entries(s, lengths)
            + line_entries(line, lengths),
{
    let ended = s.push(CR);
    assert(ended.drop_last() =~= s);
    lemma_cr_lines_extend(ended, line);
    let lines = cr_lines(ended + line);
    assert(cr_lines(ended).drop_last() =~= cr_lines(s));
    assert(Seq::<u8>::empty() + line =~= line);
    assert(lines =~= cr_lines(s).push(line));
    assert(lines.drop_last() =~= cr_lines(s));
}

proof fn lemma_answer_line_entries(
    pid: Pid,
    data: Seq<u8>,
    linefeeds: bool,
    spaces: bool,
    lengths: Seq<Option<u8>>,
)
    requires
        lengths[pid as int] matches Some(n) ==> data.len() == n,
    ensures
        ({
            let lead = if linefeeds {
                seq![LF]
            } else {
                Seq::<u8>::empty()
            };
            line_entries(lead + laid_out(spaces, answer_text(pid, data)), lengths) == seq![
                (pid, data),
            ]
        }),
{
    let lead = if linefeeds {
        seq![LF]
    } else {
        Seq::<u8>::empty()
    };
    let text = answer_text(pid, data);
    let line = lead + laid_out(spaces, text);
    let bytes = seq![ANSWER_SERVICE, pid] + data;
    lemma_answer_text(pid, data);
    lemma_hex_digits_concat(lead, laid_out(spaces, text));
    lemma_hex_digits_of_layout(spaces, text);
    lemma_hex_digits_of_hex(text);
    assert(hex_digits_of(lead) =~= Seq::empty()) by {
        if linefeeds {
            assert(lead.drop_last() =~= Seq::empty());
            assert(hex_digits_of(lead.drop_last()) =~= Seq::empty());
        }
    }
    assert(hex_digits_of(line) =~= text);
    law_hex_text_reads_back(bytes);
    assert(digit_pairs(hex_digits_of(line)) == bytes);
    assert(bytes[1] == pid);
    assert(bytes.skip(2) =~= data);
    assert(bytes.subrange(2, bytes.len() as int) =~= data);
    match lengths[pid as int] {
        None => {},
        Some(n) => {
            assert(entries_from(bytes, 2 + n, lengths) =~= Seq::empty());
            assert(seq![(pid, data)] + Seq::<(u8, Seq<u8>)>::empty() =~= seq![(pid, data)]);
        },
    }
    assert(entries_from(bytes, 1, lengths) =~= seq![(pid, data)]);
}

/// What the proxy sends for a PID reads back, whatever the client's settings, as
/// the cached data of each ECU in order. The prompt adds nothing.
pub proof fn law_reply_reads_back(
    pid: Pid,
    values: Seq<Seq<u8>>,
    linefeeds: bool,
    spaces: bool,
    lengths: Seq<Option<u8>>,
)
    requires
        lengths_fit(pid, values, lengths),
    ensures
        response_entries(cached_reply(pid, values, linefeeds, spaces), lengths) == entries_for(
            pid,
            values,
        ),
        data_of_pid(
            response_entries(cached_reply(pid, values, linefeeds, spaces), lengths),
            pid,
        ) == values,
{
    let lines = cached_lines(pid, values, linefeeds, spaces);
    lemma_lines_read_back(pid, values, linefeeds, spaces, lengths);
    let tail = if linefeeds {
        seq![LF, PROMPT]
    } else {
        seq![PROMPT]
    };
    assert(cached_reply(pid, values, linefeeds, spaces) =~= lines.push(CR) + tail);
    assert(!tail.contains(CR));
    lemma_one_more_line(lines, tail, lengths);
    assert(hex_digits_of(tail) =~= Seq::empty()) by {
        reveal_with_fuel(hex_digits_of, 3);
    }
    assert(digit_pairs(Seq::<u8>::empty()) =~= Seq::empty());
    assert(line_entries(tail, lengths) =~= Seq::empty());
    assert(response_entries(cached_reply(pid, values, linefeeds, spaces), lengths) =~= entries_for(
        pid,
        values,
    ));
    lemma_data_of_own_pid(pid, values);
}

proof fn lemma_data_of_own_pid(pid: Pid, values: Seq<Seq<u8>>)
    ensures
        data_of_pid(entries_for(pid, values), pid) == values,
    decreases values.len(),
{
    if values.len() > 0 {
        lemma_data_of_own_pid(pid, values.drop_last());
        assert(entries_for(pid, values).drop_last() =~= entries_for(pid, values.drop_last()));
        assert(values.drop_last().push(values.last()) =~= values);
    } else {
        assert(entries_for(pid, values) =~= Seq::empty());
        assert(data_of_pid(entries_for(pid, values), pid) =~= values);
    }
}

proof fn lemma_lines_read_back(
    pid: Pid,
    values: Seq<Seq<u8>>,
    linefeeds: bool,
    spaces: bool,
    lengths: Seq<Option<u8>>,
)
    requires
        lengths_fit(pid, values, lengths),
    ensures
        response_entries(cached_lines(pid, values, linefeeds, spaces), lengths) == entries_for(
            pid,
            values,
        ),
    decreases values.len(),
{
    if values.len() == 0 {
        let empty = Seq::<u8>::empty();
        assert(cr_lines(empty) =~= seq![empty]);
        assert(cr_lines(empty).drop_last() =~= Seq::empty());
        assert(digit_pairs(hex_digits_of(empty)) =~= empty);
        assert(lines_entries(cr_lines(empty).drop_last(), lengths) + line_entries(empty, lengths)
            =~= Seq::empty());
        assert(entries_for(pid, values) =~= Seq::empty());
    } else {
        let front = values.drop_last();
        let data = values.last();
        assert(lengths_fit(pid, front, lengths)) by {
            match lengths[pid as int] {
                None => {},
                Some(n) => {
                    assert forall|i: int| 0 <= i < front.len() implies (#[trigger] front[i]).len()
                        == n by {
                        assert(front[i] == values[i]);
                    }
                },
            }
        }
        lemma_lines_read_back(pid, front, linefeeds, spaces, lengths);
        assert(values[values.len() - 1] == data);
        lemma_answer_line_entries(pid, data, linefeeds, spaces, lengths);
        let before = cached_lines(pid, front, linefeeds, spaces);
        let lead = if linefeeds {
            seq![LF]
        } else {
            Seq::<u8>::empty()
        };
        let line = lead + laid_out(spaces, answer_text(pid, data));
        assert(before + line_end_bytes(linefeeds) + laid_out(spaces, answer_text(pid, data))
            =~= before.push(CR) + line);
        lemma_answer_text(pid, data);
        lemma_layout_has_no_cr(spaces, answer_text(pid, data));
        assert(!line.contains(CR)) by {
            assert forall|i: int| 0 <= i < line.len() implies line[i] != CR by {
                if i >= lead.len() {
                    let out = laid_out(spaces, answer_text(pid, data));
                    assert(out.contains(out[i - lead.len()]));
                }
            }
        }
        lemma_one_more_line(before, line, lengths);
        assert(entries_for(pid, values) =~= entries_for(pid, front) + seq![(pid, data)]);
    }
}

/// Each line of an answer adds its own entries, behind those of the lines before it.
pub proof fn law_each_line_adds_its_entries(
    front: Seq<u8>,
    line: Seq<u8>,
    lengths: Seq<Option<u8>>,
)
    requires
        !line.contains(0x0du8),
    ensures
        response_entries(front.push(0x0du8) + line, lengths) == response_entries(front, lengths)
            + line_entries(line, lengths),
{
    lemma_one_more_line(front, line, lengths);
}

/// The bytes of an answer for several PIDs, written in digits with or without spaces,
/// are filed PID by PID.
pub proof fn law_multi_pid_line_is_split(
    entries: Seq<(u8, Seq<u8>)>,
    spaces: bool,
    lengths: Seq<Option<u8>>,
)
    requires
        entries.len() > 0,
        lengths.len() == 256,
        forall|i: int|
            0 <= i < entries.len() ==> lengths[(#[trigger] entries[i]).0 as int] == Some(
                entries[i].1.len() as u8,
            ) && entries[i].1.len() < 256,
    ensures
        line_entries(laid_out(spaces, hex_text(seq![0x41u8] + strung(entries))), lengths)
            == entries,
{
    let bytes = seq![0x41u8] + strung(entries);
    let text = hex_text(bytes);
    lemma_hex_text_digits(bytes);
    lemma_hex_digits_of_layout(spaces, text);
    lemma_hex_digits_of_hex(text);
    law_hex_text_reads_back(bytes);
    law_answer_splits_into_pids(seq![0x41u8], entries, lengths);
    assert(bytes[1] == entries[0].0);
}

} // verus!
