use tachtalk::benchmark::{
    init_commands, parse_rpm_response, value_is_cut, Benchmark, Outcome, ReplyBuffer, Stats,
};
use tachtalk::capture_format::{CaptureBuffer, CaptureHeader, RecordError, RecordType};
use tachtalk::decode::{
    can_count, filter_type, format_data, header_lines, heading, list_records, parse_filter, record_data,
    ListEnd,
};
use tachtalk::elm327::ClientState;
use tachtalk::mock::{fixed, server};

#[test]
fn data_is_shown_as_text_or_hex() {
    assert_eq!(format_data(b"", false), "(no data)");
    assert_eq!(format_data(b"", true), "(no data)");
    assert_eq!(format_data(b"010C\r\n\t", false), "010C\\r\\n\\t");
    assert_eq!(format_data(&[0x41, 0x00, 0x7f, 0xff], false), "A\\x00\\x7f\\xff");
    assert_eq!(format_data(b"010C\r", true), "30 31 30 43 0d");
}

#[test]
fn filters_are_named_in_any_case() {
    assert_eq!(parse_filter("TX"), Some(RecordType::ClientToDongle));
    assert_eq!(parse_filter("Recv"), Some(RecordType::DongleToClient));
    assert_eq!(parse_filter("CONN"), Some(RecordType::Connect));
    assert_eq!(parse_filter("disc"), Some(RecordType::Disconnect));
    assert_eq!(parse_filter("both"), None);
    assert_eq!(filter_type("TX"), None);
}

fn sample() -> CaptureBuffer {
    let mut buffer = CaptureBuffer::default();
    buffer.record_event(0, RecordType::Connect, &[], 10_000);
    buffer.record_event(12, RecordType::ClientToDongle, b"010C\r", 10_000);
    buffer.record_event(34, RecordType::DongleToClient, b"410C1AF8\r\r>", 10_000);
    buffer
}

#[test]
fn records_are_listed_in_columns() {
    assert_eq!(
        heading(),
        "       #   Time (ms)          Type   Bytes  Data"
    );
    let list = list_records(&sample().bytes, None, None, false);
    assert_eq!(list.count, 3);
    assert_eq!(list.end, ListEnd::Complete);
    assert_eq!(
        list.lines[0],
        "       1           0       CONNECT       0  (no data)"
    );
    assert_eq!(
        list.lines[1],
        "       2          12            TX       5  010C\\r"
    );
}

#[test]
fn lists_stop_at_the_limit() {
    assert!(can_count(sample().bytes.len(), None));
    assert!(can_count(7 * u32::MAX as usize, None));
    assert!(!can_count(7 * u32::MAX as usize + 1, None));
    assert!(can_count(usize::MAX, Some(2)));
    assert!(!can_count(usize::MAX, Some(u32::MAX as usize)));
    let list = list_records(&sample().bytes, None, Some(2), true);
    assert_eq!(list.lines.len(), 2);
    // The record that goes over the limit is counted.
    assert_eq!(list.count, 3);
    assert_eq!(list.end, ListEnd::Truncated);

    let list = list_records(
        &sample().bytes,
        Some(RecordType::DongleToClient),
        Some(2),
        true,
    );
    assert_eq!(list.lines.len(), 1);
    assert_eq!(list.end, ListEnd::Complete);
}

#[test]
fn lists_stop_at_an_error() {
    let mut bytes = sample().bytes;
    bytes.push(1);
    let list = list_records(&bytes, None, None, false);
    assert_eq!(list.lines.len(), 3);
    assert!(matches!(list.end, ListEnd::Failed(RecordError::Io(_))));
}

#[test]
fn headers_are_described() {
    let mut header = CaptureHeader {
        dongle_ip: [192, 168, 0, 10],
        dongle_port: 35000,
        record_count: 7,
        ..CaptureHeader::default()
    };
    header.set_firmware_version("v3");
    let lines = header_lines(&header, Some(123));
    assert_eq!(lines.len(), 10);
    assert_eq!(lines[1], "File size:        123 bytes");
    assert_eq!(lines[4], "Record count:     7");
    assert_eq!(lines[6], "Firmware:         v3");
    assert_eq!(lines[7], "Dongle:           192.168.0.10:35000");
    assert_eq!(lines[8], "Capture start:    (no NTP)");
    assert_eq!(lines[9], "Flags:            (none)");
    header.flags = 3;
    let lines = header_lines(&header, None);
    assert_eq!(lines[1], "File size:        (unknown)");
    assert_eq!(lines[9], "Flags:            OVERFLOW, NTP_SYNCED");
}

#[test]
fn larger_headers_are_skipped() {
    let mut header = CaptureHeader::default();
    let mut file = header.to_bytes().to_vec();
    file.extend_from_slice(&[9, 9, 1, 2, 3]);
    assert_eq!(record_data(&file, &header), [9, 9, 1, 2, 3]);
    header.header_size = 66;
    assert_eq!(record_data(&file, &header), [1, 2, 3]);
    header.header_size = 1000;
    assert!(record_data(&file, &header).is_empty());
}

#[test]
fn statistics_describe_the_run() {
    let mut stats = Stats::new(100);
    assert_eq!(stats.average_latency(), None);
    stats.record_success(30, 1000);
    stats.record_success(10, 1001);
    stats.record_error();
    stats.record_success(21, 1002);
    assert_eq!((stats.min_latency, stats.max_latency), (10, 30));
    assert_eq!(stats.average_latency(), Some(20));
    assert_eq!((stats.requests, stats.errors), (3, 1));
    assert_eq!(stats.last_rpm, Some(1002));
    assert!(!stats.interval_over(149, 50));
    assert!(stats.interval_over(150, 50));
    assert_eq!(stats.next_interval(150), (3, 1, 50));
    assert_eq!((stats.interval_requests, stats.requests), (0, 3));
}

#[test]
fn replies_end_at_the_prompt() {
    let mut buffer = ReplyBuffer::new();
    for byte in b"410C1AF8\r\r" {
        assert_eq!(buffer.accept(*byte), None);
    }
    assert_eq!(buffer.accept(b'>').as_deref(), Some("410C1AF8\r\r>"));
    assert_eq!(buffer.accept(0xff), None);
    assert_eq!(buffer.accept(b'>').as_deref(), Some("\u{fffd}>"));
}

#[test]
fn rpm_is_read_from_replies() {
    assert_eq!(parse_rpm_response("410C1AF8\r\r>"), Some(1726));
    assert_eq!(parse_rpm_response("  410C0004 >> "), Some(1));
    assert_eq!(parse_rpm_response("41 0C 1A F8\r\r>"), None);
    assert_eq!(parse_rpm_response("NO DATA\r\r>"), None);
    assert_eq!(parse_rpm_response("410C1AZZ"), None);
    // A plus sign is part of a number.
    assert_eq!(parse_rpm_response("410C+1AF"), Some(0x1af / 4));
    assert!(value_is_cut("410C123\u{e9}"));
    assert!(!value_is_cut("410C1234\u{e9}"));
}

#[test]
fn benchmark_repeats_once_it_was_answered() {
    assert_eq!(init_commands(), ["ATZ\r", "ATE0\r", "ATS0\r", "ATL0\r"]);
    let mut run = Benchmark::new(true, 0);
    assert_eq!(run.stats, Stats::new(0));
    assert_eq!(run.command(), "010C\r");
    assert_eq!(run.finish_request("?\r\r>", 5), Outcome::Invalid);
    assert_eq!(run.command(), "010C\r");
    assert_eq!(run.finish_request("410C1AF8\r\r>", 7), Outcome::Rpm(1726));
    assert_eq!(run.command(), "1\r");
    assert_eq!(
        run.finish_request("410C123\u{e9}>", 7),
        Outcome::Unreadable
    );
    assert_eq!((run.stats.requests, run.stats.errors), (1, 1));
    assert!(!Benchmark::is_over(0, u128::MAX));
    assert!(!Benchmark::is_over(2, 1_999_999_999));
    assert!(Benchmark::is_over(2, 2_000_000_000));
}

#[test]
fn mock_server_answers_like_an_adapter() {
    let mut state = ClientState::new();
    assert_eq!(
        server::process_command("AT@1", 0, &mut state),
        "\r\nMock ELM327\r\n>"
    );
    assert_eq!(
        server::process_command("0100", 0, &mut state),
        "41 00 BE 3F A8 13\r\n\r\n>"
    );
    assert_eq!(
        server::process_command("ATH1", 0, &mut state),
        "\r\nOK\r\n>"
    );
    assert_eq!(
        server::process_command("010C0D", 6904, &mut state),
        "7E8 06 41 0C 1A F8 0D 28\r\n\r\n>"
    );
    server::process_command("ATS0", 0, &mut state);
    server::process_command("ATL0", 0, &mut state);
    assert_eq!(
        server::process_command("010C 1", 6904, &mut state),
        "7E804410C1AF8\r\r>"
    );
    assert_eq!(server::process_command("0199", 0, &mut state), "NO DATA\r\r>");
    assert_eq!(server::process_command("010", 0, &mut state), "?\r\r>");
    assert_eq!(server::process_command("22F190", 0, &mut state), "?\r\r>");
    assert_eq!(server::process_command("03", 0, &mut state), "7E8024300\r\r>");
    assert_eq!(
        server::process_command("010C", 7, &mut ClientState::new()),
        "41 0C 00 07\r\n\r\n>"
    );
}

#[test]
fn mock_server_keeps_its_clients_apart() {
    let mut client = server::ServerClient::new();
    let mut other = server::ServerClient::new();
    for byte in b"ate0" {
        let step = client.accept(*byte, 0);
        assert!(step.echo && step.exchange.is_none());
    }
    let (command, reply) = client.accept(b'\r', 0).exchange.unwrap();
    assert_eq!((command.as_str(), reply.as_str()), ("ATE0", "\r\nOK\r\n>"));
    assert!(!client.accept(b'\n', 0).echo);
    assert!(client.accept(b'\r', 0).exchange.is_none());
    assert!(other.accept(b' ', 0).echo);
}

#[test]
fn benchmark_reads_what_the_mock_server_sends() {
    let mut state = ClientState::new();
    for command in ["ATZ", "ATE0", "ATS0", "ATL0"] {
        server::process_command(command, 0, &mut state);
    }
    let reply = server::process_command("010C", 6904, &mut state);
    assert_eq!(parse_rpm_response(&reply), Some(1726));
}

#[test]
fn fixed_mock_gives_fixed_replies() {
    assert_eq!(fixed::process_command("ATZ", 0), "\r\rELM327 v1.5\r\r>");
    assert_eq!(fixed::process_command("ATST32", 0), "OK\r\r>");
    assert_eq!(fixed::process_command("010C", 6904), "410C1AF8\r\r>");
    assert_eq!(
        fixed::process_command("010C0D0F", 6904),
        "410C1AF80D280F38\r\r>"
    );
    assert_eq!(fixed::process_command("0160", 0), "NO DATA\r\r>");
    assert_eq!(fixed::process_command("0199", 0), "?\r\r>");
    assert_eq!(fixed::process_command("X010", 0), "?\r\r>");
    assert_eq!(fixed::process_command("010C", 0x12345), "410C12345\r\r>");
}
