use tachtalk::auth::{
    clear_session_cookie, constant_time_eq, extract_session_token, format_password_hash,
    parse_password_hash, session_cookie, verify_password, SessionStore,
};
use tachtalk::capture_format::{CaptureBuffer, CaptureHeader, RecordType};
use tachtalk::config::Config;
use tachtalk::dns::{build_dns_response, parse_dns_name, queried_name};
use tachtalk::error::Error;
use tachtalk::obd2::dongle::DongleTcpState;
use tachtalk::ota::{
    check_download, download_percent, firmware_info, OtaProgress, OTA_STATUS_DOWNLOADING,
    OTA_STATUS_ERROR, OTA_STATUS_IDLE,
};
use tachtalk::sse::{heartbeat, welcome, SseClients, SseMessage};
use tachtalk::web::{
    ap_hostname, captive_portal, capture_download, capture_status, check_config,
    connection_status, driver_ssid, index_page, log_sockets, network_status, networks_to_show,
    ota_download_reply, ota_status_reply, ota_upload_refused, ota_upload_reply, route, rpm_reply,
    socket_type, sorted_log, update_brightness, update_config, BrightnessRequest, Method, Network,
    Route, SocketInfo, SocketType,
};

const MAC: [u8; 6] = [1, 2, 3, 4, 0xab, 0xcd];

#[test]
fn sessions_come_and_go() {
    let mut store = SessionStore::default();
    for i in 0..6u8 {
        store.insert([i; 16]);
    }
    // There is room for five: the oldest is gone.
    assert!(!store.contains(&[0; 16]));
    for i in 1..6u8 {
        assert!(store.contains(&[i; 16]));
    }
    store.remove(&[3; 16]);
    assert!(!store.contains(&[3; 16]) && store.contains(&[4; 16]));
    store.clear();
    assert!(!store.contains(&[4; 16]));
}

#[test]
fn passwords_are_stored_as_hashes() {
    let text = format_password_hash(10_000, &[0xde, 0xad], &[0xbe, 0xef]);
    assert_eq!(text, "10000:dead:beef");
    let stored = parse_password_hash(&text).unwrap();
    assert_eq!(stored.iterations, 10_000);
    assert_eq!(stored.salt, [0xde, 0xad]);
    assert_eq!(stored.hash, [0xbe, 0xef]);
    assert!(verify_password(&text, Some(&[0xbe, 0xef])));
    assert!(!verify_password(&text, Some(&[0xbe, 0xee])));
    assert!(!verify_password(&text, None));
    for bad in ["", "10000:dead", "x:dead:beef", "1:dea:beef", "1:zz:beef"] {
        assert!(parse_password_hash(bad).is_none(), "{bad}");
    }
    assert!(constant_time_eq(b"abc", b"abc"));
    assert!(!constant_time_eq(b"abc", b"abcd"));
}

#[test]
fn cookies_carry_the_session() {
    let token = [0xa5; 16];
    let cookie = session_cookie(&token);
    assert!(cookie.starts_with("session=a5a5"));
    assert!(cookie.contains("HttpOnly"));
    let value = cookie.split(';').next().unwrap();
    assert_eq!(extract_session_token(value), Some(token));
    let header = format!("theme=dark; {value}; other=1");
    assert_eq!(extract_session_token(&header), Some(token));
    assert_eq!(extract_session_token("session=zz"), None);
    assert_eq!(extract_session_token("theme=dark"), None);
    assert!(clear_session_cookie().contains("Max-Age=0"));
}

fn query(labels: &[&str], qtype: u16) -> Vec<u8> {
    let mut packet = vec![0x12, 0x34, 0x01, 0x00, 0, 1, 0, 0, 0, 0, 0, 0];
    for label in labels {
        packet.push(u8::try_from(label.len()).unwrap());
        packet.extend_from_slice(label.as_bytes());
    }
    packet.push(0);
    packet.extend_from_slice(&qtype.to_be_bytes());
    packet.extend_from_slice(&[0, 1]);
    packet
}

#[test]
fn every_name_leads_to_the_device() {
    let packet = query(&["example", "com"], 1);
    let answer = build_dns_response(&packet, [10, 15, 25, 1]).unwrap();
    assert_eq!(answer[0..2], [0x12, 0x34]);
    assert_eq!(answer[answer.len() - 4..], [10, 15, 25, 1]);
    assert_eq!(parse_dns_name(&packet[12..]).as_deref(), Some("example.com"));
    assert_eq!(queried_name(&packet), "example.com");
    assert_eq!(build_dns_response(&packet[..11], [0; 4]), None);
    assert_eq!(parse_dns_name(&[5, b'a']), None);
}

#[test]
fn downloads_are_checked() {
    assert_eq!(check_download(200, Some("1000")).unwrap(), 1000);
    assert!(matches!(
        check_download(404, Some("1000")),
        Err(Error::OtaHttpStatus(404))
    ));
    assert!(check_download(200, None).is_err());
    assert!(check_download(200, Some("many")).is_err());
    assert_eq!(download_percent(1, 3), 33);
    assert_eq!(download_percent(3, 3), 100);
    let mut progress = OtaProgress::new(1000);
    assert!(progress.finish().is_err());
    let mut shown = Vec::new();
    for _ in 0..10 {
        shown.extend(progress.record(100));
    }
    assert_eq!(shown.last(), Some(&100));
    assert_eq!(progress.finish().unwrap(), 1000);
    assert!(Error::OtaHttpStatus(404).message().contains("404"));
    assert_eq!(firmware_info("v1", "s3").version, "v1");
}

#[test]
fn update_states_are_served() {
    assert_eq!(ota_upload_refused(0).unwrap().status, 400);
    assert!(ota_upload_refused(1).is_none());
    assert_eq!(ota_upload_reply(None).body, "{\"success\":true}");
    let failed = ota_upload_reply(Some("flash"));
    assert_eq!(failed.status, 500);
    assert_eq!(failed.body, "{\"success\":false,\"error\":\"flash\"}");
    let (reply, start) = ota_download_reply(OTA_STATUS_DOWNLOADING);
    assert_eq!((reply.status, start), (409, false));
    let (reply, start) = ota_download_reply(OTA_STATUS_IDLE);
    assert_eq!((reply.status, start), (200, true));
    assert_eq!(
        ota_status_reply(OTA_STATUS_DOWNLOADING, 40, "old").body,
        "{\"status\":1,\"progress\":40}"
    );
    assert_eq!(
        ota_status_reply(OTA_STATUS_ERROR, 40, "a \"b\\").body,
        "{\"status\":255,\"progress\":40,\"error\":\"a \\\"b\\\\\"}"
    );
}

#[test]
fn clients_of_the_stream_are_kept() {
    assert_eq!(heartbeat(), ": heartbeat\n\n");
    assert!(welcome(b"GET / HTTP/1.1\r\n").unwrap().starts_with("HTTP/1.1 200 OK\r\n"));
    assert!(welcome(b"POST / HTTP/1.1\r\n").is_none());
    let mut clients = SseClients::new(0);
    assert_eq!(clients.first_event(), None);
    clients.join(1);
    clients.join(2);
    let event = clients.publish(SseMessage::RpmUpdate(1726));
    assert_eq!(event, "data: {\"rpm\":1726}\n\n");
    assert_eq!(clients.first_event(), Some(event));
    clients.keep(&[true, false]);
    assert_eq!(clients.clients, [1]);
    assert!(!clients.heartbeat_due(14_999_999_999));
    assert!(clients.heartbeat_due(15_000_000_000));
    clients.heartbeat_sent(&[false], 15_000_000_000);
    assert!(clients.clients.is_empty());
    assert!(!clients.heartbeat_due(u64::MAX));
}

#[test]
fn requests_find_their_route() {
    assert_eq!(route(Method::Get, "/", true), Some(Route::Index));
    assert_eq!(route(Method::Get, "/api/rpm", false), Some(Route::Rpm));
    assert_eq!(route(Method::Post, "/api/rpm", true), None);
    assert_eq!(route(Method::Get, "/nothing", true), Some(Route::CaptivePortal));
    assert_eq!(route(Method::Get, "/nothing", false), None);
    assert_eq!(route(Method::Post, "/api/config/check", false), Some(Route::CheckConfig));
    assert_eq!(index_page("<a>", "<b>").body, "<a>8081<b>");
    assert_eq!(rpm_reply(Some(900)).body, "{\"rpm\":900}");
    assert_eq!(rpm_reply(None).body, "{\"rpm\":null}");
}

#[test]
fn foreign_hosts_lead_to_the_portal() {
    let ip = [10, 15, 25, 1];
    let hostname = ap_hostname("TachTalk-ABCD");
    assert_eq!(hostname, "tachtalk-abcd");
    for own in ["TachTalk-abcd", "tachtalk-abcd.local:80", "10.15.25.1"] {
        assert_eq!(captive_portal(own, &hostname, ip).status, 404, "{own}");
    }
    let reply = captive_portal("connectivitycheck.gstatic.com", &hostname, ip);
    assert_eq!(reply.status, 302);
    assert_eq!(
        reply.headers[0],
        ("Location".to_string(), "http://10.15.25.1/".to_string())
    );
    assert!(reply.body.contains("url=http://10.15.25.1/\""));
}

#[test]
fn restarts_are_announced() {
    let current = Config::new_default(MAC);
    assert_eq!(check_config(&current, None, MAC).status, 400);
    let same = Config::new_default(MAC);
    assert_eq!(
        check_config(&current, Some(same), MAC).body,
        "{\"restart\":false}"
    );
    let mut moved = Config::new_default(MAC);
    moved.led_gpio = current.led_gpio + 1;
    assert_eq!(
        check_config(&current, Some(moved), MAC).body,
        "{\"restart\":true}"
    );
    let mut config = Config::new_default(MAC);
    let mut named = Config::new_default(MAC);
    named.wifi.ssid = "other".to_string();
    let update = update_config(&mut config, Some(named), MAC);
    assert!(update.accepted && update.restart);
    assert_eq!(config.wifi.ssid, "other");
    let refused = update_config(&mut config, None, MAC);
    assert!(!refused.accepted && refused.reply.status == 400);
}

#[test]
fn brightness_is_taken_over() {
    let mut config = Config::new_default(MAC);
    let request = BrightnessRequest {
        brightness: 7,
        save: false,
    };
    let update = update_brightness(&mut config, Some(request));
    assert_eq!((update.show, update.save), (Some(7), false));
    assert_eq!(config.brightness, 255);
    let request = BrightnessRequest {
        brightness: 9,
        save: true,
    };
    assert!(update_brightness(&mut config, Some(request)).save);
    assert_eq!(config.brightness, 9);
    let update = update_brightness(&mut config, None);
    assert_eq!((update.show, update.reply.status), (None, 400));
}

#[test]
fn networks_are_shown_once() {
    let network = |ssid: &str, rssi: i8| Network {
        ssid: ssid.to_string(),
        rssi,
    };
    let found = [
        network("a", -70),
        network("b", -40),
        network("a", -50),
        network("", -10),
    ];
    let shown = networks_to_show(&found);
    let names: Vec<_> = shown.iter().map(|n| (n.ssid.as_str(), n.rssi)).collect();
    assert!(names.contains(&("a", -50)) && names.contains(&("b", -40)));
    assert!(!names.contains(&("a", -70)));
    assert_eq!(driver_ssid(b"home\0\0\0"), "home");
}

#[test]
fn statuses_are_texts() {
    let status = network_status(Some((b"home\0", -60)), Some(([10, 0, 0, 2], 24)), MAC);
    assert_eq!(status.ssid.as_deref(), Some("home"));
    assert_eq!(status.ip.as_deref(), Some("10.0.0.2/24"));
    assert_eq!(status.mac, "01:02:03:04:AB:CD");
    assert_eq!(status.rssi, Some(-60));
    let status = connection_status(None, DongleTcpState::Initializing, 2);
    assert!(!status.wifi_connected && status.dongle_tcp_connected);
}

#[test]
fn captures_are_served() {
    let mut buffer = CaptureBuffer::default();
    assert!(capture_download(&buffer, [0; 4], 1, "v1").is_none());
    buffer.record_event(1, RecordType::Connect, &[], 100);
    let download = capture_download(&buffer, [1, 2, 3, 4], 35000, "v1").unwrap();
    let header = CaptureHeader::from_bytes(&download.file_header).unwrap().unwrap();
    assert_eq!((header.record_count, header.data_length), (1, 7));
    assert!(download.headers.iter().any(|h| h.1 == "71"));
    let status = capture_status(&buffer, 100, true);
    assert_eq!((status.buffer_bytes, status.records), (7, 1));
}

#[test]
fn sockets_are_listed() {
    assert_eq!(socket_type(1, 1, 2), SocketType::Tcp);
    assert_eq!(socket_type(2, 1, 2), SocketType::Udp);
    assert_eq!(socket_type(9, 1, 2), SocketType::Unknown(9));
    let sockets = [SocketInfo {
        fd: 54,
        socket_type: SocketType::Tcp,
        local: Some("10.0.0.2:80".to_string()),
        remote: None,
    }];
    let lines = log_sockets(&sockets, 16);
    assert!(lines.iter().any(|l| l == "  fd=54: TCP 10.0.0.2:80 -> -"));
    let sorted = sorted_log(vec!["ATZ".into(), "ATE0".into(), "AT".into()]);
    assert_eq!(sorted, ["AT", "ATE0", "ATZ"]);
}
