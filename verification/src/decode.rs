//! Human-readable output of capture files.

use crate::capture_format::{
    after_record, data_length, read_record, read_records, CaptureHeader, CaptureRecord, RecordError, RecordIter,
    RecordType, FLAG_NTP_SYNCED, FLAG_OVERFLOW,
};
use crate::text::{
    chars_of, decimal_text, lower_hex_pair, lowercase, push_chars, push_lower_hex, push_number,
    same_text, texts_of, to_lowercase,
};
use crate::web::{ip_text, ip_text_of};
use vstd::prelude::*;
use vstd::slice::slice_subrange;

verus! {

// ---------------------------------------------------------------------------
// Data
// ---------------------------------------------------------------------------

/// A byte as text; one that cannot be printed is escaped.
pub open spec fn shown_byte(b: u8) -> Seq<char> {
    if b == 0x0d {
        seq!['\\', 'r']
    } else if b == 0x0a {
        seq!['\\', 'n']
    } else if b == 0x09 {
        seq!['\\', 't']
    } else if 0x20 <= b <= 0x7e {
        seq![b as char]
    } else {
        seq!['\\', 'x'] + lower_hex_pair(b)
    }
}

/// Bytes as text, with those that cannot be printed escaped.
pub open spec fn shown_text(data: Seq<u8>) -> Seq<char>
    decreases data.len(),
{
    if data.len() == 0 {
        Seq::empty()
    } else {
        shown_text(data.drop_last()) + shown_byte(data.last())
    }
}

/// Bytes in hexadecimal, with spaces between them.
pub open spec fn shown_hex(data: Seq<u8>) -> Seq<char>
    decreases data.len(),
{
    if data.len() == 0 {
        Seq::empty()
    } else if data.len() == 1 {
        lower_hex_pair(data[0])
    } else {
        shown_hex(data.drop_last()) + seq![' '] + lower_hex_pair(data.last())
    }
}

/// The data of a record as it is shown.
pub open spec fn data_text(data: Seq<u8>, hex: bool) -> Seq<char> {
    if data.len() == 0 {
        "(no data)"@
    } else if hex {
        shown_hex(data)
    } else {
        shown_text(data)
    }
}

/// The data of a record as it is shown: as text, or as a hex dump.
pub fn format_data(data: &[u8], hex: bool) -> (r: String)
    ensures
        r@ == data_text(data@, hex),
{
    if data.len() == 0 {
        return "(no data)".to_owned();
    }
    let mut out: String = "".to_owned();
    proof {
        reveal_strlit("");
    }
    let mut i: usize = 0;
    assert(out@ =~= Seq::empty());
    assert(data@.take(0) =~= Seq::empty());
    while i < data.len()
        invariant
            i <= data@.len(),
            out@ == if hex {
                shown_hex(data@.take(i as int))
            } else {
                shown_text(data@.take(i as int))
            },
        decreases data@.len() - i,
    {
        let b: u8 = data[i];
        let ghost before = out@;
        let ghost upto = data@.take(i + 1);
        assert(upto.drop_last() =~= data@.take(i as int));
        assert(upto.last() == b);
        if hex {
            if i > 0 {
                out.push(' ');
            }
            push_lower_hex(&mut out, b);
            proof {
                if i == 0 {
                    assert(before =~= Seq::empty());
                    assert(out@ =~= lower_hex_pair(b));
                } else {
                    assert(out@ =~= before + seq![' '] + lower_hex_pair(b));
                }
            }
        } else {
            if b == 0x0d {
                out.push('\\');
                out.push('r');
            } else if b == 0x0a {
                out.push('\\');
                out.push('n');
            } else if b == 0x09 {
                out.push('\\');
                out.push('t');
            } else if 0x20 <= b && b <= 0x7e {
                out.push(b as char);
            } else {
                out.push('\\');
                out.push('x');
                push_lower_hex(&mut out, b);
            }
            assert(out@ =~= before + shown_byte(b));
        }
        i = i + 1;
    }
    assert(data@.take(i as int) =~= data@);
    out
}

// ---------------------------------------------------------------------------
// Columns
// ---------------------------------------------------------------------------

/// A text moved to the right end of a column.
pub open spec fn padded(text: Seq<char>, width: nat) -> Seq<char> {
    if text.len() < width {
        Seq::new((width - text.len()) as nat, |i: int| ' ') + text
    } else {
        text
    }
}

fn push_padded(out: &mut String, text: &str, width: usize)
    ensures
        final(out)@ == old(out)@ + padded(text@, width as nat),
{
    let chars: Vec<char> = chars_of(text);
    let missing: usize = if chars.len() < width {
        width - chars.len()
    } else {
        0
    };
    let ghost spaces = Seq::new(missing as nat, |i: int| ' ');
    let mut i: usize = 0;
    assert(out@ =~= old(out)@ + spaces.take(0));
    while i < missing
        invariant
            i <= missing,
            spaces == Seq::new(missing as nat, |i: int| ' '),
            out@ == old(out)@ + spaces.take(i as int),
        decreases missing - i,
    {
        out.push(' ');
        i = i + 1;
        assert(out@ =~= old(out)@ + spaces.take(i as int));
    }
    push_chars(out, chars.as_slice());
    assert(spaces.take(missing as int) =~= spaces);
    assert(out@ =~= old(out)@ + padded(text@, width as nat));
}

fn push_padded_number(out: &mut String, n: u64, width: usize)
    ensures
        final(out)@ == old(out)@ + padded(decimal_text(n as nat), width as nat),
{
    let mut digits: String = "".to_owned();
    proof {
        reveal_strlit("");
    }
    push_number(&mut digits, n);
    assert(digits@ =~= decimal_text(n as nat));
    push_padded(out, digits.as_str(), width);
}

/// The heading of the list of records.
pub open spec fn heading_text() -> Seq<char> {
    padded("#"@, 8) + "  "@ + padded("Time (ms)"@, 10) + "  "@ + padded("Type"@, 12) + "  "@
        + padded("Bytes"@, 6) + "  Data"@
}

/// The heading of the list of records.
pub fn heading() -> (r: String)
    ensures
        r@ == heading_text(),
{
    let mut out: String = "".to_owned();
    proof {
        reveal_strlit("");
    }
    push_padded(&mut out, "#", 8);
    out.push_str("  ");
    push_padded(&mut out, "Time (ms)", 10);
    out.push_str("  ");
    push_padded(&mut out, "Type", 12);
    out.push_str("  ");
    push_padded(&mut out, "Bytes", 6);
    out.push_str("  Data");
    assert(out@ =~= heading_text());
    out
}

/// The label of a record type.
pub open spec fn label_of(record_type: RecordType) -> Seq<char> {
    match record_type {
        RecordType::ClientToDongle => "TX"@,
        RecordType::DongleToClient => "RX"@,
        RecordType::Connect => "CONNECT"@,
        RecordType::Disconnect => "DISCONNECT"@,
    }
}

/// A record in the list.
pub open spec fn record_text(
    count: nat,
    record: (u32, RecordType, Seq<u8>),
    hex: bool,
) -> Seq<char> {
    padded(decimal_text(count), 8) + "  "@ + padded(decimal_text(record.0 as nat), 10) + "  "@
        + padded(label_of(record.1), 12) + "  "@ + padded(decimal_text(record.2.len()), 6) + "  "@
        + data_text(record.2, hex)
}

fn record_line(count: u32, record: &CaptureRecord, hex: bool) -> (r: String)
    ensures
        r@ == record_text(count as nat, record@, hex),
{
    let mut out: String = "".to_owned();
    proof {
        reveal_strlit("");
    }
    push_padded_number(&mut out, count as u64, 8);
    out.push_str("  ");
    push_padded_number(&mut out, record.timestamp_ms as u64, 10);
    out.push_str("  ");
    push_padded(&mut out, record.record_type.label(), 12);
    out.push_str("  ");
    push_padded_number(&mut out, record.data.len() as u64, 6);
    out.push_str("  ");
    let data: String = format_data(record.data.as_slice(), hex);
    out.push_str(data.as_str());
    assert(out@ =~= record_text(count as nat, record@, hex));
    out
}

// ---------------------------------------------------------------------------
// The list
// ---------------------------------------------------------------------------

/// The record type that a filter names, in lower case.
pub open spec fn filter_named(lower: Seq<char>) -> Option<RecordType> {
    if lower == "tx"@ || lower == "client"@ || lower == "send"@ {
        Some(RecordType::ClientToDongle)
    } else if lower == "rx"@ || lower == "dongle"@ || lower == "recv"@ {
        Some(RecordType::DongleToClient)
    } else if lower == "connect"@ || lower == "conn"@ {
        Some(RecordType::Connect)
    } else if lower == "disconnect"@ || lower == "disc"@ {
        Some(RecordType::Disconnect)
    } else {
        None
    }
}

/// The record type that a filter names; None for an unknown filter.
pub fn parse_filter(s: &str) -> (r: Option<RecordType>)
    ensures
        r == filter_named(lowercase(s@)),
{
    let lower: String = to_lowercase(s);
    filter_type(lower.as_str())
}

/// The record type that a filter in lower case names; None for an unknown one.
pub fn filter_type(lower: &str) -> (r: Option<RecordType>)
    ensures
        r == filter_named(lower@),
{
    if same_text(lower, "tx") || same_text(lower, "client") || same_text(lower, "send") {
        Some(RecordType::ClientToDongle)
    } else if same_text(lower, "rx") || same_text(lower, "dongle") || same_text(lower, "recv") {
        Some(RecordType::DongleToClient)
    } else if same_text(lower, "connect") || same_text(lower, "conn") {
        Some(RecordType::Connect)
    } else if same_text(lower, "disconnect") || same_text(lower, "disc") {
        Some(RecordType::Disconnect)
    } else {
        None
    }
}

/// How a list ends.
#[derive(Debug, Clone, Copy, PartialEq, Eq, Structural)]
pub enum ListEnd {
    /// With the last record
    Complete,
    /// At the limit, with more records behind it
    Truncated,
    /// At a record that could not be read
    Failed(RecordError),
}

/// A list of records.
#[derive(Debug)]
pub struct Listing {
    pub lines: Vec<String>,
    /// How many records were taken up
    pub count: u32,
    pub end: ListEnd,
}

/// The list of the records in some data: its lines, how many records were taken
/// up, and how it ends. The record that goes over the limit is taken up, but not
/// shown.
pub open spec fn listed(
    rest: Seq<u8>,
    offset: u64,
    count: nat,
    filter: Option<RecordType>,
    limit: Option<usize>,
    hex: bool,
) -> (Seq<Seq<char>>, nat, ListEnd)
    decreases rest.len(),
{
    match read_record(rest, offset) {
        None => (Seq::empty(), count, ListEnd::Complete),
        Some(Err(e)) => (Seq::empty(), count, ListEnd::Failed(e)),
        Some(Ok(record)) => {
            let next = after_record(rest);
            let next_offset = (offset + 7 + data_length(rest)) as u64;
            if filter is Some && record.1 != filter->0 {
                listed(next, next_offset, count, filter, limit, hex)
            } else if limit is Some && count + 1 > limit->0 {
                (Seq::empty(), count + 1, ListEnd::Truncated)
            } else {
                let later = listed(next, next_offset, count + 1, filter, limit, hex);
                (seq![record_text(count + 1, record, hex)] + later.0, later.1, later.2)
            }
        },
    }
}

/// The records that are taken up can be counted: there is no room for more of them
/// in the data, as each takes seven bytes at least, or the limit comes first.
pub open spec fn countable(length: nat, limit: Option<usize>) -> bool {
    length <= 7 * u32::MAX || (limit is Some && limit->0 < u32::MAX)
}

/// Whether the records that are taken up can be counted.
pub fn can_count(length: usize, limit: Option<usize>) -> (r: bool)
    ensures
        r == countable(length as nat, limit),
{
    if length as u128 <= 7 * u32::MAX as u128 {
        return true;
    }
    match limit {
        Some(max) => (max as u128) < u32::MAX as u128,
        None => false,
    }
}

/// List the records in the data behind the file header.
pub fn list_records(data: &[u8], filter: Option<RecordType>, limit: Option<usize>, hex: bool) -> (r:
    Listing)
    requires
        countable(data@.len(), limit),
    ensures
        (texts_of(r.lines@), r.count as nat, r.end) == listed(data@, 0, 0, filter, limit, hex),
{
    let mut iter = RecordIter::new(data);
    let mut lines: Vec<String> = Vec::new();
    let mut count: u32 = 0;
    let ghost whole = listed(data@, 0, 0, filter, limit, hex);
    assert(texts_of(lines@) =~= Seq::empty());
    proof {
        let now = listed(iter.rest(), iter.consumed(), count as nat, filter, limit, hex);
        assert(texts_of(lines@) + now.0 =~= now.0);
    }
    loop
        invariant
            iter.well_formed(),
            whole == listed(data@, 0, 0, filter, limit, hex),
            countable(data@.len(), limit),
            7 * count + iter.rest().len() <= data@.len(),
            limit is Some ==> count <= limit->0,
            ({
                let now = listed(iter.rest(), iter.consumed(), count as nat, filter, limit, hex);
                whole == (texts_of(lines@) + now.0, now.1, now.2)
            }),
        decreases iter.rest().len(),
    {
        let ghost rest = iter.rest();
        let ghost offset = iter.consumed();
        let ghost front = texts_of(lines@);
        let ghost now = listed(rest, offset, count as nat, filter, limit, hex);
        match iter.next() {
            None => {
                assert(front + Seq::empty() =~= front);
                return Listing { lines, count, end: ListEnd::Complete };
            },
            Some(Err(e)) => {
                assert(front + Seq::empty() =~= front);
                return Listing { lines, count, end: ListEnd::Failed(e) };
            },
            Some(Ok(record)) => {
                let wanted = match filter {
                    Some(record_type) => record.record_type == record_type,
                    None => true,
                };
                if !wanted {
                    continue;
                }
                count = count + 1;
                if let Some(max) = limit {
                    if count as u64 > max as u64 {
                        assert(front + Seq::empty() =~= front);
                        return Listing { lines, count, end: ListEnd::Truncated };
                    }
                }
                let line: String = record_line(count, &record, hex);
                lines.push(line);
                proof {
                    let later = listed(
                        iter.rest(),
                        iter.consumed(),
                        count as nat,
                        filter,
                        limit,
                        hex,
                    );
                    assert(texts_of(lines@) =~= front.push(line@));
                    assert(front + (seq![line@] + later.0) =~= texts_of(lines@) + later.0);
                }
            },
        }
    }
}

/// No more records are shown than the limit allows.
pub proof fn law_list_keeps_limit(
    rest: Seq<u8>,
    offset: u64,
    count: nat,
    filter: Option<RecordType>,
    limit: usize,
    hex: bool,
)
    requires
        count <= limit,
    ensures
        count + listed(rest, offset, count, filter, Some(limit), hex).0.len() <= limit,
    decreases rest.len(),
{
    if let Some(Ok(record)) = read_record(rest, offset) {
        let next_offset = (offset + 7 + data_length(rest)) as u64;
        if filter is Some && record.1 != filter->0 {
            law_list_keeps_limit(after_record(rest), next_offset, count, filter, limit, hex);
        } else if count + 1 <= limit {
            law_list_keeps_limit(after_record(rest), next_offset, count + 1, filter, limit, hex);
        }
    }
}

/// Without a filter and a limit, the list of well-formed data holds one line for
/// each record, in their order.
pub proof fn law_list_is_complete(rest: Seq<u8>, offset: u64, count: nat, hex: bool)
    requires
        read_records(rest, offset) is Ok,
    ensures
        ({
            let records = read_records(rest, offset)->Ok_0;
            let list = listed(rest, offset, count, None, None, hex);
            &&& list.0 == Seq::new(
                records.len(),
                |i: int| record_text((count + 1 + i) as nat, records[i], hex),
            )
            &&& list.1 == count + records.len()
            &&& list.2 == ListEnd::Complete
        }),
    decreases rest.len(),
{
    let records = read_records(rest, offset)->Ok_0;
    let list = listed(rest, offset, count, None, None, hex);
    let lines = Seq::new(
        records.len(),
        |i: int| record_text((count + 1 + i) as nat, records[i], hex),
    );
    if let Some(Ok(record)) = read_record(rest, offset) {
        let next_offset = (offset + 7 + data_length(rest)) as u64;
        law_list_is_complete(after_record(rest), next_offset, count + 1, hex);
        let later = read_records(after_record(rest), next_offset)->Ok_0;
        assert(records =~= seq![record] + later);
        assert forall|i: int| 0 <= i < lines.len() implies list.0[i] == lines[i] by {
            if i > 0 {
                assert(records[i] == later[i - 1]);
                assert(count + 1 + 1 + (i - 1) == count + 1 + i);
            }
        }
    }
    assert(list.0 =~= lines);
}

// ---------------------------------------------------------------------------
// The file header
// ---------------------------------------------------------------------------

/// How many bytes of a larger header follow the known ones.
pub fn extra_header_bytes(header: &CaptureHeader) -> (r: usize)
    ensures
        r == if header.header_size > 64 {
            header.header_size - 64
        } else {
            0
        },
{
    if header.header_size > 64 {
        header.header_size as usize - 64
    } else {
        0
    }
}

/// The records in a file: all that follows its header.
pub fn record_data<'a>(file: &'a [u8], header: &CaptureHeader) -> (r: &'a [u8])
    ensures
        ({
            let front = if header.header_size > 64 {
                header.header_size as int
            } else {
                64
            };
            r@ == if front <= file@.len() {
                file@.skip(front)
            } else {
                Seq::empty()
            }
        }),
{
    let front: usize = 64 + extra_header_bytes(header);
    if front <= file.len() {
        slice_subrange(file, front, file.len())
    } else {
        slice_subrange(file, file.len(), file.len())
    }
}

/// The lines about a file header, but for that of the firmware version.
pub open spec fn header_text(h: CaptureHeader, file_size: Option<u64>, firmware: Seq<char>) -> Seq<
    Seq<char>,
> {
    let overflow = h.flags & FLAG_OVERFLOW != 0;
    let synced = h.flags & FLAG_NTP_SYNCED != 0;
    seq![
        "=== TachTalk Capture File ==="@,
        match file_size {
            Some(size) => "File size:        "@ + decimal_text(size as nat) + " bytes"@,
            None => "File size:        (unknown)"@,
        },
        "Format version:   "@ + decimal_text(h.version as nat),
        "Header size:      "@ + decimal_text(h.header_size as nat) + " bytes"@,
        "Record count:     "@ + decimal_text(h.record_count as nat),
        "Data length:      "@ + decimal_text(h.data_length as nat) + " bytes"@,
        "Firmware:         "@ + firmware,
        "Dongle:           "@ + ip_text_of(h.dongle_ip@) + ":"@ + decimal_text(
            h.dongle_port as nat,
        ),
        if h.capture_start_ms > 0 {
            "Capture start:    "@ + decimal_text(h.capture_start_ms as nat) + " (epoch ms)"@
        } else {
            "Capture start:    (no NTP)"@
        },
        "Flags:            "@ + if overflow && synced {
            "OVERFLOW, NTP_SYNCED"@
        } else if overflow {
            "OVERFLOW"@
        } else if synced {
            "NTP_SYNCED"@
        } else {
            "(none)"@
        },
    ]
}

fn numbered(front: &str, n: u64, back: &str) -> (r: String)
    ensures
        r@ == front@ + decimal_text(n as nat) + back@,
{
    let mut out: String = front.to_owned();
    push_number(&mut out, n);
    out.push_str(back);
    out
}

/// The lines about a file header.
pub fn header_lines(header: &CaptureHeader, file_size: Option<u64>) -> (r: Vec<String>)
    ensures
        exists|firmware: Seq<char>|
            texts_of(r@) == #[trigger] header_text(*header, file_size, firmware)
                && header.is_version_text(firmware),
{
    proof {
        reveal_strlit("");
    }
    let firmware: &str = header.firmware_version_str();
    let mut lines: Vec<String> = Vec::new();
    lines.push("=== TachTalk Capture File ===".to_owned());
    lines.push(
        match file_size {
            Some(size) => numbered("File size:        ", size, " bytes"),
            None => "File size:        (unknown)".to_owned(),
        },
    );
    lines.push(numbered("Format version:   ", header.version as u64, ""));
    lines.push(numbered("Header size:      ", header.header_size as u64, " bytes"));
    lines.push(numbered("Record count:     ", header.record_count as u64, ""));
    lines.push(numbered("Data length:      ", header.data_length as u64, " bytes"));
    let mut version: String = "Firmware:         ".to_owned();
    version.push_str(firmware);
    lines.push(version);
    let mut dongle: String = "Dongle:           ".to_owned();
    let ip: String = ip_text(header.dongle_ip);
    dongle.push_str(ip.as_str());
    dongle.push_str(":");
    push_number(&mut dongle, header.dongle_port as u64);
    lines.push(dongle);
    lines.push(
        if header.capture_start_ms > 0 {
            numbered("Capture start:    ", header.capture_start_ms, " (epoch ms)")
        } else {
            "Capture start:    (no NTP)".to_owned()
        },
    );
    let mut flags: String = "Flags:            ".to_owned();
    let overflow = header.overflow();
    let synced = header.ntp_synced();
    if overflow && synced {
        flags.push_str("OVERFLOW, NTP_SYNCED");
    } else if overflow {
        flags.push_str("OVERFLOW");
    } else if synced {
        flags.push_str("NTP_SYNCED");
    } else {
        flags.push_str("(none)");
    }
    lines.push(flags);
    proof {
        let v = decimal_text(header.version as nat);
        let c = decimal_text(header.record_count as nat);
        assert("Format version:   "@ + v + ""@ =~= "Format version:   "@ + v);
        assert("Record count:     "@ + c + ""@ =~= "Record count:     "@ + c);
        assert(texts_of(lines@) =~= header_text(*header, file_size, firmware@));
    }
    lines
}

// ---------------------------------------------------------------------------
// Laws
// ---------------------------------------------------------------------------

/// What can be printed is shown as it is; every other byte is shown as an escape, the
/// ends of lines and tabs by their letters and the rest by two digits.
pub proof fn law_unprintable_bytes_are_escaped(b: u8)
    ensures
        32 <= b < 127 ==> shown_byte(b) =~= seq![b as char],
        b == 13 ==> shown_byte(b) =~= seq!['\\', 'r'],
        b == 10 ==> shown_byte(b) =~= seq!['\\', 'n'],
        b == 9 ==> shown_byte(b) =~= seq!['\\', 't'],
        (b < 32 || b >= 127) && b != 13 && b != 10 && b != 9 ==> shown_byte(b).take(2) =~= seq![
            '\\',
            'x',
        ] && shown_byte(b).skip(2) =~= lower_hex_pair(b),
{
}

/// Bytes are shown one after another; in hexadecimal there is a space between each two.
pub proof fn law_bytes_are_shown_in_order(data: Seq<u8>, b: u8)
    ensures
        shown_text(data.push(b)) =~= shown_text(data) + shown_byte(b),
        shown_hex(seq![b]) =~= lower_hex_pair(b),
        data.len() > 0 ==> shown_hex(data.push(b)) =~= shown_hex(data) + seq![' '] + lower_hex_pair(
            b,
        ),
        data_text(data.push(b), true) == shown_hex(data.push(b)),
        data_text(data.push(b), false) == shown_text(data.push(b)),
        data_text(Seq::empty(), true) == data_text(Seq::empty(), false),
        data_text(Seq::empty(), true) =~= seq!['(', 'n', 'o', ' ', 'd', 'a', 't', 'a', ')'],
{
    reveal_strlit("(no data)");
    assert(data.push(b).drop_last() =~= data);
}

/// A column is as wide as asked for, or as its text where that is wider; the text is at
/// its right end, behind spaces.
pub proof fn law_columns_are_filled(text: Seq<char>, width: nat, i: int)
    ensures
        text.len() <= width ==> padded(text, width).len() == width,
        text.len() > width ==> padded(text, width) == text,
        padded(text, width).skip(padded(text, width).len() - text.len()) =~= text,
        0 <= i < padded(text, width).len() - text.len() ==> padded(text, width)[i] == ' ',
{
}

/// What went to the dongle is labelled TX, what came from it RX, and the ends of the
/// connection by their names.
pub proof fn law_labels()
    ensures
        label_of(RecordType::ClientToDongle) =~= seq!['T', 'X'],
        label_of(RecordType::DongleToClient) =~= seq!['R', 'X'],
        label_of(RecordType::Connect) =~= seq!['C', 'O', 'N', 'N', 'E', 'C', 'T'],
        label_of(RecordType::Disconnect) =~= seq!['D', 'I', 'S'] + label_of(RecordType::Connect),
{
    reveal_strlit("TX");
    reveal_strlit("RX");
    reveal_strlit("CONNECT");
    reveal_strlit("DISCONNECT");
}

/// A filter names a record type by its label, by who sent it, or in short; no word
/// stands for two types, and other words for none.
pub proof fn law_filters_name_types(lower: Seq<char>)
    ensures
        filter_named(lower) == Some(RecordType::ClientToDongle) <==> lower == "tx"@ || lower
            == "client"@ || lower == "send"@,
        filter_named(lower) == Some(RecordType::DongleToClient) <==> lower == "rx"@ || lower
            == "dongle"@ || lower == "recv"@,
        filter_named(lower) == Some(RecordType::Connect) <==> lower == "connect"@ || lower
            == "conn"@,
        filter_named(lower) == Some(RecordType::Disconnect) <==> lower == "disconnect"@ || lower
            == "disc"@,
{
    reveal_strlit("tx");
    reveal_strlit("client");
    reveal_strlit("send");
    reveal_strlit("rx");
    reveal_strlit("dongle");
    reveal_strlit("recv");
    reveal_strlit("connect");
    reveal_strlit("conn");
    reveal_strlit("disconnect");
    reveal_strlit("disc");
    assert("tx"@.len() == 2 && "rx"@.len() == 2);
    assert("tx"@[0] == 't' && "rx"@[0] == 'r');
    assert("client"@.len() == 6 && "dongle"@.len() == 6);
    assert("client"@[0] == 'c' && "dongle"@[0] == 'd');
    assert("send"@.len() == 4 && "recv"@.len() == 4 && "conn"@.len() == 4 && "disc"@.len() == 4);
    assert("send"@[0] == 's' && "recv"@[0] == 'r' && "conn"@[0] == 'c' && "disc"@[0] == 'd');
    assert("connect"@.len() == 7 && "disconnect"@.len() == 10);
}

/// The records of one type, in their order.
pub open spec fn of_type(
    records: Seq<(u32, RecordType, Seq<u8>)>,
    record_type: RecordType,
) -> Seq<(u32, RecordType, Seq<u8>)>
    decreases records.len(),
{
    if records.len() == 0 {
        Seq::empty()
    } else {
        let later = of_type(records.drop_first(), record_type);
        if records[0].1 == record_type {
            seq![records[0]] + later
        } else {
            later
        }
    }
}

/// A filter lists the records of its type, numbered among themselves, and no others.
pub proof fn law_filter_lists_its_type(
    rest: Seq<u8>,
    offset: u64,
    count: nat,
    record_type: RecordType,
    hex: bool,
)
    requires
        read_records(rest, offset) is Ok,
    ensures
        ({
            let records = of_type(read_records(rest, offset)->Ok_0, record_type);
            let list = listed(rest, offset, count, Some(record_type), None, hex);
            &&& list.0 =~= Seq::new(
                records.len(),
                |i: int| record_text((count + 1 + i) as nat, records[i], hex),
            )
            &&& list.1 == count + records.len()
            &&& list.2 == ListEnd::Complete
        }),
    decreases rest.len(),
{
    let all = read_records(rest, offset)->Ok_0;
    let records = of_type(all, record_type);
    let list = listed(rest, offset, count, Some(record_type), None, hex);
    let lines = Seq::new(
        records.len(),
        |i: int| record_text((count + 1 + i) as nat, records[i], hex),
    );
    if let Some(Ok(record)) = read_record(rest, offset) {
        let next_offset = (offset + 7 + data_length(rest)) as u64;
        let later = read_records(after_record(rest), next_offset)->Ok_0;
        assert(all =~= seq![record] + later);
        assert(all.drop_first() =~= later);
        let behind = of_type(later, record_type);
        if record.1 == record_type {
            law_filter_lists_its_type(
                after_record(rest),
                next_offset,
                count + 1,
                record_type,
                hex,
            );
            assert forall|i: int| 0 <= i < lines.len() implies list.0[i] == lines[i] by {
                if i > 0 {
                    assert(records[i] == behind[i - 1]);
                    assert(count + 1 + 1 + (i - 1) == count + 1 + i);
                }
            }
        } else {
            law_filter_lists_its_type(after_record(rest), next_offset, count, record_type, hex);
        }
    }
    assert(list.0 =~= lines);
}

/// A list is cut at its limit exactly where one more record would go over it: that one
/// is counted and not shown. A record that cannot be read ends it too.
pub proof fn law_list_counts_what_it_takes_up(
    rest: Seq<u8>,
    offset: u64,
    count: nat,
    filter: Option<RecordType>,
    limit: Option<usize>,
    hex: bool,
)
    requires
        limit is Some ==> count <= limit->0,
    ensures
        ({
            let list = listed(rest, offset, count, filter, limit, hex);
            &&& list.1 == count + list.0.len() + if list.2 == ListEnd::Truncated {
                1int
            } else {
                0
            }
            &&& list.2 == ListEnd::Truncated ==> limit is Some && count + list.0.len() == limit->0
            &&& list.2 is Failed ==> exists|at: Seq<u8>, position: u64| #[trigger]
                read_record(at, position) == Some(
                    Err::<(u32, RecordType, Seq<u8>), RecordError>(list.2->Failed_0),
                )
        }),
    decreases rest.len(),
{
    match read_record(rest, offset) {
        Some(Ok(record)) => {
            let next_offset = (offset + 7 + data_length(rest)) as u64;
            if filter is Some && record.1 != filter->0 {
                law_list_counts_what_it_takes_up(
                    after_record(rest),
                    next_offset,
                    count,
                    filter,
                    limit,
                    hex,
                );
            } else if !(limit is Some && count + 1 > limit->0) {
                law_list_counts_what_it_takes_up(
                    after_record(rest),
                    next_offset,
                    count + 1,
                    filter,
                    limit,
                    hex,
                );
            }
        },
        _ => {},
    }
}

/// A record's line starts with its number in the list and ends with its data.
pub proof fn law_record_lines(count: nat, record: (u32, RecordType, Seq<u8>), hex: bool)
    ensures
        ({
            let line = record_text(count, record, hex);
            let size = decimal_text(record.2.len());
            &&& padded(decimal_text(count), 8).is_prefix_of(line)
            &&& (padded(size, 6) + seq![' ', ' '] + data_text(record.2, hex)).is_suffix_of(line)
            &&& line =~= padded(decimal_text(count), 8) + seq![' ', ' '] + padded(
                decimal_text(record.0 as nat),
                10,
            ) + seq![' ', ' '] + padded(label_of(record.1), 12) + seq![' ', ' '] + padded(size, 6)
                + seq![' ', ' '] + data_text(record.2, hex)
        }),
{
    reveal_strlit("  ");
    assert("  "@ =~= seq![' ', ' ']);
    let line = record_text(count, record, hex);
    let head = padded(decimal_text(count), 8);
    let tail = padded(decimal_text(record.2.len()), 6) + seq![' ', ' '] + data_text(record.2, hex);
    assert(line.subrange(0, head.len() as int) =~= head);
    assert(line.subrange(line.len() - tail.len(), line.len() as int) =~= tail);
}

/// The records can be counted in 32 bits where the data have no room for more of them,
/// at seven bytes each, or where the limit is below that.
pub proof fn law_countable(length: nat, limit: usize)
    ensures
        countable(length, None) <==> length <= 7 * 0xffff_ffff,
        limit < 0xffff_ffff ==> countable(length, Some(limit)),
        countable(length, None) ==> countable(length, Some(limit)),
{
}

/// The header is told in ten lines, each with its own number; its last line tells the
/// flags that are set.
pub proof fn law_header_is_told(h: CaptureHeader, size: u64, firmware: Seq<char>)
    ensures
        ({
            let lines = header_text(h, Some(size), firmware);
            &&& lines.len() == 10
            &&& lines[2].skip(18) =~= decimal_text(h.version as nat)
            &&& lines[4].skip(18) =~= decimal_text(h.record_count as nat)
            &&& lines[6].skip(18) =~= firmware
            &&& lines[7].skip(18) =~= ip_text_of(h.dongle_ip@) + seq![':'] + decimal_text(
                h.dongle_port as nat,
            )
            &&& (lines[9] == "Flags:            "@ + "(none)"@) <==> h.flags & 1 == 0 && h.flags
                & 2 == 0
            &&& h.flags & 1 != 0 && h.flags & 2 == 0 ==> lines[9] == "Flags:            "@
                + "OVERFLOW"@
            &&& h.flags & 1 == 0 && h.flags & 2 != 0 ==> lines[9] == "Flags:            "@
                + "NTP_SYNCED"@
        }),
{
    reveal_strlit("Format version:   ");
    reveal_strlit("Record count:     ");
    reveal_strlit("Firmware:         ");
    reveal_strlit("Dongle:           ");
    reveal_strlit("Flags:            ");
    reveal_strlit(":");
    reveal_strlit("(none)");
    reveal_strlit("OVERFLOW");
    reveal_strlit("NTP_SYNCED");
    reveal_strlit("OVERFLOW, NTP_SYNCED");
    let lines = header_text(h, Some(size), firmware);
    assert("Format version:   "@.len() == 18);
    assert("Flags:            "@.len() == 18);
    assert(("Flags:            "@ + "(none)"@)[18] == '(');
    assert(("Flags:            "@ + "OVERFLOW"@)[18] == 'O');
    assert(("Flags:            "@ + "NTP_SYNCED"@)[18] == 'N');
    assert(("Flags:            "@ + "OVERFLOW, NTP_SYNCED"@)[18] == 'O');
}

} // verus!
