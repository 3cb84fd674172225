use tachtalk::elm327::{extract_rpm_from_response, ClientState};

#[test]
fn test_default_state() {
    let state = ClientState::default();
    assert!(state.echo_enabled);
    assert!(state.linefeeds_enabled);
    assert!(state.spaces_enabled);
    assert!(!state.headers_enabled);
}

#[test]
fn test_line_ending() {
    let mut state = ClientState::default();
    assert_eq!(state.line_ending(), "\r\n");

    state.linefeeds_enabled = false;
    assert_eq!(state.line_ending(), "\r");
}

#[test]
fn test_at_commands() {
    let mut state = ClientState::default();

    // Test echo off
    let resp = state.handle_at_command("ATE0");
    assert!(resp.contains("OK"));
    assert!(!state.echo_enabled);

    // Test spaces off
    let resp = state.handle_at_command("ATS0");
    assert!(resp.contains("OK"));
    assert!(!state.spaces_enabled);

    // Test reset
    let resp = state.handle_at_command("ATZ");
    assert!(resp.contains("ELM327"));
    assert!(state.echo_enabled);
    assert!(state.spaces_enabled);
}

#[test]
fn test_extract_rpm() {
    // Test with spaces
    let data = b"41 0C 1A F8\r\r>";
    assert_eq!(extract_rpm_from_response(data), Some(1726));

    // Test without spaces
    let data = b"410C1AF8\r\r>";
    assert_eq!(extract_rpm_from_response(data), Some(1726));

    // Test no RPM data
    let data = b"41 0D 28\r\r>";
    assert_eq!(extract_rpm_from_response(data), None);
}

#[test]
fn test_format_response_with_spaces() {
    let state = ClientState::default();
    let input = b"410C1AF8\r\r>";
    let output = state.format_response(input);
    assert_eq!(&output, b"41 0C 1A F8\r\r>");
}

#[test]
fn laid_out_responses_stay_as_they_are() {
    let state = ClientState::default();
    for input in ["410C1AF8\r\r>", "41 0C 1A F8\r\r>", "7E8 04 41", "ABC"] {
        let once = state.format_response(input.as_bytes());
        assert_eq!(state.format_response(&once), once);
    }
    assert_eq!(state.format_response(b"ABC"), b"AB C");
}

#[test]
fn test_format_response_without_spaces() {
    let mut state = ClientState::default();
    state.spaces_enabled = false;
    let input = b"410C1AF8\r\r>";
    let output = state.format_response(input);
    assert_eq!(&output, b"410C1AF8\r\r>");
}

#[test]
fn lower_case_commands_are_understood() {
    let mut state = ClientState::new();
    assert_eq!(state.handle_at_command("ath1"), "\r\nOK\r\n>");
    assert!(state.headers_enabled);
    assert_eq!(state.handle_at_command("atl0"), "\r\nOK\r\n>");
    assert_eq!(state.handle_at_command("ati"), "\rELM327 v1.5\r>");
    assert_eq!(state.handle_at_command("ATXX"), "\r?\r>");
    assert_eq!(state.handle_at_command("ATSP6"), "\rOK\r>");
}

#[test]
fn lower_case_answers_are_understood() {
    assert_eq!(extract_rpm_from_response(b"410c1af8>"), Some(1726));
    assert_eq!(extract_rpm_from_response(&[0xff, 0xfe]), None);
    assert_eq!(extract_rpm_from_response(b"410C1A"), None);
    // A header without a space comes first, wherever it stands
    assert_eq!(
        extract_rpm_from_response(b"41 0C 10 00\r410C1AF8\r\r>"),
        Some(1726)
    );
    assert_eq!(
        extract_rpm_from_response(b"41 0C 1A F8\r41 0C 10 00\r\r>"),
        Some(1726)
    );
}
