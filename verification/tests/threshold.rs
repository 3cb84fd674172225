use tachtalk::colors::RGB8;
use tachtalk::elm327::ClientState;
use tachtalk::obd2::buffers::Obd2Buffer;
use tachtalk::obd2::dongle::DongleError;
use tachtalk::threshold::config::{Config, RGB8Color, WifiConfig};
use tachtalk::threshold::dongle::{init_commands, DongleLink};
use tachtalk::threshold::leds::{boot_animation, LedController, Threshold};
use tachtalk::threshold::proxy::{finish_command, process_command, ProxyAction};
use tachtalk::threshold::rpm_task::{RpmEvent, RpmStep, RpmTask};
use tachtalk::threshold::web::{
    captive_portal, mode_reply, network_status, route, stream_reply, update_config, update_wifi,
    wifi_reply, IpConfigRequest, IpInfo, Route, SseManager, WifiMode, WifiRequest,
};
use tachtalk::web::Method;

const MS: u64 = 1_000_000;

fn threshold(rpm: u32, start_led: usize, end_led: usize, red: u8, blink: bool) -> Threshold {
    Threshold {
        name: format!("at {rpm}"),
        rpm,
        start_led,
        end_led,
        color: RGB8Color { r: red, g: 0, b: 0 },
        blink,
        blink_ms: 100,
    }
}

#[test]
fn fresh_threshold_config_has_three_steps() {
    let config = Config::load_or_default(None);
    assert_eq!(config.wifi.ssid, "V-LINK");
    assert!(config.wifi.is_configured());
    assert!(!WifiConfig::default().is_configured());
    let steps: Vec<_> = config
        .thresholds
        .iter()
        .map(|t| (t.rpm, t.num_leds))
        .collect();
    assert_eq!(steps, [(3000, 2), (4000, 4), (5000, 6)]);
    assert_eq!((config.blink_rpm, config.total_leds), (6000, 8));
    assert!(config.ip_config.use_dhcp);
    let color = RGB8::from(config.thresholds[1].color);
    assert_eq!(color, RGB8::new(255, 255, 0));
    assert_eq!(RGB8Color::from(color), config.thresholds[1].color);
}

#[test]
fn last_threshold_reached_shows() {
    let thresholds = [
        threshold(1000, 0, 1, 10, false),
        threshold(2000, 1, 2, 20, false),
    ];
    let mut leds = LedController::new(0);
    let dark = RGB8::default();
    assert_eq!(leds.update(500, &thresholds, 4, 0), [dark; 4]);
    let low = RGB8::new(10, 0, 0);
    assert_eq!(leds.update(1500, &thresholds, 4, 0), [low, low, dark, dark]);
    let high = RGB8::new(20, 0, 0);
    assert_eq!(
        leds.update(2500, &thresholds, 4, 0),
        [dark, high, high, dark]
    );
    // The range is cut at the end of the strip.
    assert_eq!(leds.update(2500, &thresholds, 2, 0), [dark, high]);
}

#[test]
fn blinking_shows_the_threshold_underneath() {
    let thresholds = [
        threshold(1000, 0, 0, 10, false),
        threshold(2000, 0, 1, 20, true),
    ];
    let mut leds = LedController::new(0);
    let (low, high, dark) = (RGB8::new(10, 0, 0), RGB8::new(20, 0, 0), RGB8::default());
    assert_eq!(leds.update(2500, &thresholds, 2, 99 * MS), [low, dark]);
    assert_eq!(leds.update(2500, &thresholds, 2, 100 * MS), [high, high]);
    assert_eq!(leds.update(2500, &thresholds, 2, 199 * MS), [high, high]);
    assert_eq!(leds.update(2500, &thresholds, 2, 200 * MS), [low, dark]);
    let only = [threshold(2000, 0, 1, 20, true)];
    assert_eq!(leds.update(2500, &only, 2, 200 * MS), [dark, dark]);
}

#[test]
fn reversed_ranges_cannot_be_drawn() {
    let thresholds = [threshold(0, 3, 1, 10, false)];
    let leds = LedController::new(0);
    assert!(!leds.can_update(10, &thresholds, 8, 0));
    assert!(leds.can_update(10, &thresholds, 2, 0));
    assert!(leds.can_update(10, &[threshold(0, 2, 1, 10, false)], 8, 0));
}

#[test]
fn threshold_device_boots_in_purple() {
    let frames = boot_animation(3);
    assert_eq!(frames.len(), 6);
    assert_eq!(frames[0], [RGB8::new(128, 0, 128); 3]);
    assert_eq!(frames[5], [RGB8::default(); 3]);
}

#[test]
fn rpm_is_polled_while_clients_are_idle() {
    let thresholds = [threshold(1000, 0, 1, 10, true)];
    let mut task = RpmTask::new();
    assert_eq!(task.timeout(&thresholds, 0), 0);
    assert_eq!(task.receive(RpmEvent::Timeout, 0), RpmStep::Poll);
    assert_eq!(task.finish_poll(Some(b"410C1AF8\r\r>")), Some(1726));
    assert_eq!(task.finish_poll(Some(b"NO DATA\r\r>")), Some(1726));
    assert_eq!(task.finish_poll(None), Some(1726));
    assert_eq!(task.timeout(&thresholds, 30 * MS), 70 * MS);
    assert_eq!(
        task.receive(RpmEvent::Timeout, 99 * MS),
        RpmStep::Show(Some(1726))
    );
    assert_eq!(task.receive(RpmEvent::Timeout, 100 * MS), RpmStep::Poll);
    // A client's RPM makes the task hold back.
    assert_eq!(
        task.receive(RpmEvent::Client(900), 150 * MS),
        RpmStep::Show(Some(900))
    );
    assert_eq!(
        task.receive(RpmEvent::Timeout, 649 * MS),
        RpmStep::Show(Some(900))
    );
    assert_eq!(task.receive(RpmEvent::Timeout, 650 * MS), RpmStep::Poll);
    assert_eq!(task.receive(RpmEvent::Disconnected, 650 * MS), RpmStep::Exit);
    assert_eq!(RpmTask::poll_command(), "010C");
}

#[test]
fn blinking_shortens_the_wait() {
    let mut fast = threshold(1000, 0, 1, 10, true);
    fast.blink_ms = 20;
    let mut task = RpmTask::new();
    task.receive(RpmEvent::Timeout, 0);
    task.receive(RpmEvent::Client(1500), 0);
    assert_eq!(task.timeout(&[fast.clone()], 10 * MS), 20 * MS);
    assert_eq!(task.timeout(&[fast], 90 * MS), 10 * MS);
}

#[test]
fn threshold_proxy_answers_at_commands() {
    let mut state = ClientState::default();
    match process_command("at@1", &mut state) {
        ProxyAction::Reply { log, reply } => {
            assert_eq!(log, "AT@1");
            assert_eq!(reply, "\r\nTachTalk OBD2 Proxy\r\n>");
        }
        ProxyAction::Forward { .. } => panic!("not forwarded"),
    }
    match process_command("ATS0", &mut state) {
        ProxyAction::Reply { reply, .. } => assert_eq!(reply, "\r\nOK\r\n>"),
        ProxyAction::Forward { .. } => panic!("not forwarded"),
    }
    assert!(!state.spaces_enabled);
    assert!(matches!(
        process_command("010c", &mut state),
        ProxyAction::Forward { log } if log == "010C"
    ));
}

#[test]
fn threshold_proxy_passes_answers_on() {
    let state = ClientState::default();
    let answer = Ok(Obd2Buffer::of(b"410C1AF8\r\r>"));
    let (reply, rpm) = finish_command(&answer, &state);
    assert_eq!(reply, b"41 0C 1A F8\r\r>");
    assert_eq!(rpm, Some(1726));
    for (error, text) in [
        (DongleError::NotConnected, "UNABLE TO CONNECT"),
        (DongleError::Timeout, "NO DATA"),
        (DongleError::Disconnected, "CAN ERROR"),
        (DongleError::IoError("x".to_string()), "BUS ERROR"),
    ] {
        let (reply, rpm) = finish_command(&Err(error), &state);
        assert_eq!(reply, format!("\r\n{text}\r\n>").as_bytes());
        assert_eq!(rpm, None);
    }
}

#[test]
fn broken_links_are_tried_again_after_a_second() {
    assert_eq!(
        init_commands(),
        ["ATZ\r", "ATE0\r", "ATL0\r", "ATS0\r", "ATSP0\r"]
    );
    let mut link = DongleLink::new();
    assert!(link.finish_request(None).is_err());
    assert!(link.try_now(5));
    link.tried(false);
    assert!(!link.try_now(999 * MS));
    assert!(link.try_now(1000 * MS + 5));
    link.tried(true);
    assert!(!link.try_now(9000 * MS));
    let timeout = link.finish_request(Some(Err(DongleError::Timeout)));
    assert!(timeout.is_err() && link.connected);
    let lost = link.finish_request(Some(Err(DongleError::Disconnected)));
    assert!(lost.is_err() && !link.connected);
}

#[test]
fn modes_decide_what_runs() {
    assert!(WifiMode::at_start(false, false, false) == WifiMode::AccessPoint);
    assert!(WifiMode::at_start(true, true, true) == WifiMode::Client);
    assert!(WifiMode::at_start(true, true, false) == WifiMode::Mixed);
    assert!(WifiMode::at_start(true, false, false) == WifiMode::Mixed);
    assert!(WifiMode::Client.runs_proxy() && !WifiMode::Client.runs_captive_portal());
    assert!(!WifiMode::Mixed.runs_proxy() && WifiMode::Mixed.runs_captive_portal());
    assert_eq!(mode_reply(WifiMode::Client).body, "{\"mode\":\"client\"}");
    assert_eq!(mode_reply(WifiMode::AccessPoint).body, "{\"mode\":\"ap\"}");
}

#[test]
fn threshold_routes_are_found() {
    assert_eq!(route(Method::Get, "/"), Some(Route::Index));
    assert_eq!(route(Method::Get, "/gen_204"), Some(Route::CaptivePortal));
    assert_eq!(route(Method::Post, "/gen_204"), None);
    assert_eq!(route(Method::Post, "/api/wifi"), Some(Route::PostWifi));
    assert_eq!(route(Method::Get, "/api/rpm/stream"), Some(Route::RpmStream));
    let redirect = captive_portal();
    assert_eq!(redirect.status, 302);
    assert_eq!(redirect.headers[0].1, "http://192.168.4.1/");
}

#[test]
fn wifi_requests_are_taken_over() {
    let mut config = Config::default();
    assert!(!update_wifi(&mut config, None));
    assert_eq!(config.wifi.ssid, "V-LINK");
    let request = WifiRequest {
        ssid: "home".to_string(),
        password: Some(String::new()),
        ip_config: Some(IpConfigRequest {
            use_dhcp: false,
            ip: Some("10.0.0.2".to_string()),
            gateway: Some(String::new()),
            subnet: None,
            dns: Some("10.0.0.1".to_string()),
        }),
    };
    assert!(update_wifi(&mut config, Some(request)));
    assert_eq!(config.wifi.ssid, "home");
    assert_eq!(config.wifi.password, None);
    assert_eq!(config.ip_config.ip.as_deref(), Some("10.0.0.2"));
    assert_eq!(config.ip_config.gateway, None);
    assert_eq!(config.thresholds.len(), 3);
    assert_eq!((wifi_reply(false, true).0.status, wifi_reply(false, true).1), (400, false));
    assert_eq!((wifi_reply(true, false).0.status, wifi_reply(true, false).1), (500, false));
    assert_eq!((wifi_reply(true, true).0.status, wifi_reply(true, true).1), (200, true));
    assert_eq!(update_config(&mut config, None).status, 400);
    assert_eq!(config.wifi.ssid, "home");
    assert_eq!(update_config(&mut config, Some(Config::default())).status, 200);
    assert_eq!(config.wifi.ssid, "V-LINK");
}

#[test]
fn threshold_network_status_is_text() {
    let status = network_status(
        Some(IpInfo {
            ip: [10, 0, 0, 2],
            gateway: [10, 0, 0, 1],
            mask: "24".to_string(),
            dns: None,
        }),
        [1, 2, 3, 0xaa, 0xbb, 0xcc],
    );
    assert_eq!(status.ip.as_deref(), Some("10.0.0.2"));
    assert_eq!(status.gateway.as_deref(), Some("10.0.0.1"));
    assert_eq!(status.dns, None);
    assert_eq!(status.mac, "01:02:03:AA:BB:CC");
    assert!(network_status(None, [0; 6]).ip.is_none());
}

#[test]
fn streams_get_the_current_rpm() {
    assert_eq!(stream_reply().body, "data: {\"rpm\":null}\n\n");
    let mut manager = SseManager::new();
    assert_eq!(manager.first_event(), None);
    assert!(manager.connect(3, false));
    assert_eq!(manager.publish(900), "data: {\"rpm\":900}\n\n");
    assert!(!manager.connect(4, false));
    assert!(manager.connect(5, true));
    assert_eq!(manager.retain(&[false, true]), [3]);
    assert_eq!(manager.connections, [5]);
}
