use tachtalk::colors::{ColorStops, RGB8};
use tachtalk::config::{
    check_restart_needed, default_ap_ssid, mode01_pid_data_lengths, Config, IpConfig, LevelFilter,
    LogLevel,
};
use tachtalk::controls::{
    cycle_to_next_normal_profile, process_encoder_delta, ControlsAction, ControlsInput,
    ControlsState, PolledEncoder, TriggeredButtons,
};
use tachtalk::led_display::{
    gcd_u64, DisplayConfig, DisplayProfile, LedDisplayTaskState, LedTaskAction, LedTaskEvent,
    LedTaskMessage, ProfileType,
};
use tachtalk::leds::{
    blink_phase_on, stale_timeout_from_config, time_until_next_deadline, Clock, LedController,
};
use tachtalk::obd2::dongle::DongleTcpState;
use tachtalk::ota::OtaState;
use tachtalk::rpm_leds::{RpmLedTaskState, RpmTaskAction, RpmTaskEvent, RpmTaskMessage};
use tachtalk::shift_lights::{compute_render_interval, default_colors, is_blink_on, LedRule};
use tachtalk::status_leds::{boot_animation, LedTaskState, StatusLedMessage, StatusOutputs};
use tachtalk::tasks::{background_tasks, encoder_enabled, StackMemory, StackRegistry};
use tachtalk::wifi::{
    auth_method, connection_state, sta_address, AuthMethod, StaAddress, StaConnectionState,
    WifiAction, WifiManager, WifiNews, WifiStaState,
};

const MAC: [u8; 6] = [1, 2, 3, 4, 0xab, 0xcd];
const MS: u64 = 1_000_000;

fn rule(rpm_lower: u32, red: u8, blink_ms: u32) -> LedRule {
    LedRule {
        name: String::new(),
        rpm_lower,
        rpm_upper: None,
        start_led: 0,
        end_led: 1,
        colors: ColorStops::of(&[RGB8::new(red, 0, 0)]),
        blink: blink_ms > 0,
        blink_ms,
    }
}

#[test]
fn fresh_config_is_the_documented_one() {
    let config = Config::load_or_default(None, MAC);
    assert_eq!(config.ap_ssid, "TachTalk-ABCD");
    assert_eq!(default_ap_ssid(MAC), "TachTalk-ABCD");
    assert_eq!(config.ap_ip, [10, 15, 25, 1]);
    assert_eq!(config.obd2.dongle_ip, "192.168.0.10");
    let names: Vec<_> = config.profiles.iter().map(|p| p.name.as_str()).collect();
    assert_eq!(names[0], "Default");
    let rules = config.active_rules();
    let steps: Vec<_> = rules.iter().map(|r| (r.rpm_lower, r.start_led)).collect();
    assert_eq!(
        steps,
        [(0, 0), (1000, 0), (1500, 3), (2000, 6), (2500, 9), (3000, 0), (3000, 0)]
    );
    assert!(rules[6].blink);
    assert_eq!(default_colors().colors(), [RGB8::new(255, 0, 0)]);
    assert_eq!(mode01_pid_data_lengths()[0x0c], Some(2));
    assert_eq!(LogLevel::Debug.as_level_filter(), LevelFilter::Debug);
}

#[test]
fn validating_twice_changes_nothing_more() {
    let mut config = Config::new_default(MAC);
    config.obd2_timeout_ms = u64::MAX;
    config.ap_ssid = String::new();
    config.wifi.ssid = String::new();
    config.ip.ip = String::new();
    config.obd2.capture_buffer_size = 1;
    config.validate(MAC);
    assert_eq!(config.ap_ssid, "TachTalk-ABCD");
    assert_eq!(config.wifi.ssid, "V-LINK");
    assert_eq!(config.ip.ip, "192.168.0.20");
    assert_eq!(config.obd2.capture_buffer_size, 16 * 1024);
    let timeout = config.obd2_timeout_ms;
    assert!(timeout < u64::MAX);
    config.validate(MAC);
    assert_eq!(config.obd2_timeout_ms, timeout);
    assert_eq!(config.obd2.capture_buffer_size, 16 * 1024);
}

#[test]
fn moved_pins_take_a_restart() {
    let config = Config::new_default(MAC);
    let (pins, restart) = check_restart_needed(&config, &config);
    assert!(pins.pins().is_empty() && !restart);
    let mut moved = Config::new_default(MAC);
    moved.led_gpio = config.led_gpio + 1;
    let (pins, restart) = check_restart_needed(&config, &moved);
    assert!(restart);
    assert!(pins.pins().contains(&config.led_gpio));
}

#[test]
fn render_interval_hits_every_transition() {
    let rules = [rule(0, 1, 300), rule(0, 1, 200), rule(0, 1, 0)];
    assert_eq!(compute_render_interval(&rules), Some(100));
    assert_eq!(compute_render_interval(&rules[2..]), None);
    assert_eq!(compute_render_interval(&[rule(0, 1, 7), rule(0, 1, 9)]), Some(10));
    assert_eq!(gcd_u64(300, 200), 100);
    assert!(is_blink_on(199, 100) != is_blink_on(200, 100));
}

#[test]
fn colors_are_corrected_and_dimmed() {
    let full = LedController::new(255);
    let colors = [RGB8::new(255, 128, 0), RGB8::default()];
    let sent = full.write_leds(&colors);
    // Gamma correction lowers the middle of the range.
    assert_eq!(sent[0].r, 255);
    assert!(sent[0].g > 0 && sent[0].g < 128);
    assert_eq!(sent[1], RGB8::default());
    let mut dim = LedController::new(127);
    let half = dim.write_leds(&colors);
    assert_eq!(half[0].r, 127);
    dim.set_brightness(0);
    assert_eq!(dim.write_leds(&colors)[0].g, 0);
    let frames = full.boot_animation(2);
    assert_eq!(frames.len(), 6);
    assert_eq!(frames[1], [RGB8::default(); 2]);
}

#[test]
fn deadlines_follow_the_wall_clock() {
    assert_eq!(time_until_next_deadline(250, 100), 50);
    assert_eq!(time_until_next_deadline(300, 100), 100);
    assert!(blink_phase_on(199, 200));
    assert!(!blink_phase_on(200, 200));
    assert_eq!(stale_timeout_from_config(0), None);
    assert_eq!(stale_timeout_from_config(700), Some(700));
}

fn rpm_config() -> Config {
    let mut config = Config::new_default(MAC);
    config.profiles[0].rules = vec![rule(1000, 200, 0)];
    config.active_profile = 0;
    config.total_leds = 2;
    config.rpm_stale_timeout_ms = 1000;
    config
}

#[test]
fn rpm_is_shown_until_it_is_stale() {
    let config = rpm_config();
    let blends = vec![Vec::new()];
    let mut task = RpmLedTaskState::new(&config, &blends);
    let clock = Clock {
        now_ns: 0,
        wall_ms: 0,
    };
    let event = RpmTaskEvent::Message(RpmTaskMessage::Rpm(1500));
    match task.step(event, &config, &blends, clock) {
        RpmTaskAction::Show { leds, publish } => {
            assert_eq!(leds, [RGB8::new(200, 0, 0); 2]);
            assert_eq!(publish, Some(1500));
        }
        _ => panic!("shown"),
    }
    let later = Clock {
        now_ns: 2000 * MS,
        wall_ms: 2000,
    };
    let event = RpmTaskEvent::Timeout { render: false };
    let action = task.step(event, &config, &blends, later);
    assert!(matches!(action, RpmTaskAction::TurnOff));
    let action = task.step(RpmTaskEvent::Disconnected, &config, &blends, later);
    assert!(matches!(action, RpmTaskAction::Exit));
}

#[test]
fn brightness_is_previewed() {
    let config = rpm_config();
    let blends = vec![Vec::new()];
    let mut task = RpmLedTaskState::new(&config, &blends);
    let clock = Clock {
        now_ns: 0,
        wall_ms: 0,
    };
    let event = RpmTaskEvent::Message(RpmTaskMessage::Brightness(10));
    let action = task.step(event, &config, &blends, clock);
    assert!(matches!(action, RpmTaskAction::Show { publish: None, .. }));
}

fn profile(name: &str, profile_type: ProfileType, pid: u8, red: u8) -> DisplayProfile {
    DisplayProfile {
        name: name.to_string(),
        profile_type,
        pid,
        rules: vec![rule(10, red, 0)],
        preview_value: 50,
        button_pin: 5,
    }
}

fn display() -> DisplayConfig {
    DisplayConfig {
        profiles: vec![
            profile("rpm", ProfileType::Normal, 0x0c, 100),
            profile("hot", ProfileType::Triggered, 0x05, 200),
            profile("speed", ProfileType::Normal, 0x0d, 50),
        ],
        active_profile: 0,
        total_leds: 2,
        rpm_stale_timeout_ms: 0,
        preview_duration_ms: 500,
        brightness: 100,
    }
}

#[test]
fn triggered_profiles_take_over() {
    let cfg = display();
    let enabled = [false, true, false];
    let blends = vec![vec![Vec::new()]; 3];
    assert!(cfg.any_triggered(&enabled));
    let mut task = LedDisplayTaskState::new(&cfg, &enabled, &blends);
    let clock = Clock {
        now_ns: 0,
        wall_ms: 0,
    };
    let mut shown = Vec::new();
    for (pid, value) in [(0x0c, 2000), (0x05, 90)] {
        let event = LedTaskEvent::Message(LedTaskMessage::PidValue { pid, value });
        if let LedTaskAction::Show { leds, .. } =
            task.step(event, &cfg, &enabled, &blends, clock)
        {
            shown = leds;
        }
    }
    assert_eq!(shown, [RGB8::new(200, 0, 0); 2]);
}

#[test]
fn encoders_turn_the_brightness() {
    let mut last = None;
    assert_eq!(process_encoder_delta(100, 0, &mut last, 0, 50, 20), None);
    let up = process_encoder_delta(100, 1, &mut last, 0, 50, 20).unwrap();
    assert!(up > 100);
    let fast = process_encoder_delta(100, 1, &mut last, 10 * MS, 50, 20).unwrap();
    assert!(fast > up);
    assert_eq!(process_encoder_delta(250, 1000, &mut last, 20 * MS, 0, 0), Some(255));
    let mut polled = PolledEncoder::new(100, 0);
    assert_eq!(polled.read(0, 0), None);
    assert!(polled.read(4, 0).is_some());
    assert_eq!(polled.take_save(1), None);
    assert!(polled.take_save(10_000 * MS).is_some());
    assert!(encoder_enabled(1, 2) && !encoder_enabled(0, 2) && !encoder_enabled(1, 0));
}

#[test]
fn buttons_switch_profiles() {
    let mut cfg = display();
    assert_eq!(cycle_to_next_normal_profile(&mut cfg), 2);
    assert_eq!(cycle_to_next_normal_profile(&mut cfg), 0);
    let mut buttons = TriggeredButtons::new();
    let candidate = buttons.next_candidate(&cfg, 0).unwrap();
    assert_eq!(candidate, 1);
    buttons.add(candidate);
    assert_eq!(buttons.next_candidate(&cfg, candidate + 1), None);
    let mut controls = ControlsState::new(100, 50, 20, 0);
    let mut enabled = vec![false; 3];
    let press = |main: bool, triggered: u32| ControlsInput {
        main_pressed: main,
        triggered_pressed: triggered,
        encoder_delta: 0,
    };
    let bit = 1 << buttons.buttons[0].bit;
    controls.step(press(false, bit), &mut cfg, &mut enabled, &buttons, 1000 * MS);
    assert_eq!(enabled, [false, true, false]);
    // A bounce is ignored; a second press switches it off again.
    controls.step(press(false, bit), &mut cfg, &mut enabled, &buttons, 1050 * MS);
    assert_eq!(enabled, [false, true, false]);
    controls.step(press(false, bit), &mut cfg, &mut enabled, &buttons, 1300 * MS);
    assert_eq!(enabled, [false, false, false]);
    let actions = controls.step(press(true, 0), &mut cfg, &mut enabled, &buttons, 2000 * MS);
    assert_eq!(cfg.active_profile, 2);
    assert!(!actions.is_empty());
    let actions = controls.step(press(false, 0), &mut cfg, &mut enabled, &buttons, 9000 * MS);
    assert!(actions.iter().any(|a| matches!(a, ControlsAction::Save)));
}

#[test]
fn status_leds_show_the_connections() {
    let mut state = LedTaskState::new(100, 0);
    let dark = StatusOutputs {
        red: false,
        yellow: false,
        green: false,
    };
    assert_eq!(state.drive_leds(), dark);
    let messages = [
        StatusLedMessage::WifiState(WifiStaState::Connected),
        StatusLedMessage::DongleState(DongleTcpState::Ready),
        StatusLedMessage::ClientCount(1),
    ];
    let lit = state.step(&messages, MS);
    assert!(lit.red && lit.yellow && lit.green);
    // Activity flickers, and ends lit.
    state.step(&[StatusLedMessage::DongleActivity], 2 * MS);
    let lit = state.step(&[], 1000 * MS);
    assert!(lit.yellow);
    // During an update one LED is lit at a time.
    let chase = state.step(&[StatusLedMessage::OtaStatus(OtaState::Updating)], 1001 * MS);
    let count = [chase.red, chase.yellow, chase.green];
    assert_eq!(count.iter().filter(|on| **on).count(), 1);
    assert!(boot_animation().len() >= 3);
}

#[test]
fn wifi_is_watched() {
    assert_eq!(auth_method(&None), AuthMethod::Open);
    assert_eq!(auth_method(&Some(String::new())), AuthMethod::Open);
    assert_eq!(auth_method(&Some("pw".to_string())), AuthMethod::WPA2Personal);
    let config = IpConfig {
        use_dhcp: false,
        ip: "x".to_string(),
        prefix_len: 24,
    };
    assert!(sta_address(&config, None).is_err());
    assert!(matches!(
        sta_address(&config, Some([10, 0, 0, 2])),
        Ok(StaAddress::Static {
            ip: [10, 0, 0, 2],
            prefix_len: 24
        })
    ));
    let up = connection_state(Some(true), Some([10, 0, 0, 2]));
    assert_eq!(up, StaConnectionState::Connected([10, 0, 0, 2]));
    assert_eq!(connection_state(Some(true), Some([0; 4])), StaConnectionState::Connecting);
    assert_eq!(connection_state(None, None), StaConnectionState::Disconnected);
    let (mut manager, _) = WifiManager::new("net");
    let step = manager.step(up);
    assert_eq!(step.news, Some(WifiNews::Connected));
    assert_eq!(step.update, Some(WifiStaState::Connected));
    let step = manager.step(up);
    assert_eq!((step.news, step.update), (None, None));
    let step = manager.step(StaConnectionState::Disconnected);
    assert_eq!(step.news, Some(WifiNews::Lost));
    assert_eq!(step.action, WifiAction::Connect);
}

#[test]
fn tasks_have_stacks() {
    let tasks = background_tasks(true);
    assert_eq!(tasks.len(), 8);
    assert_eq!(background_tasks(false).len(), 7);
    let mut registry = StackRegistry::default();
    for task in &tasks {
        registry.register_stack_size(task.name, task.stack_size);
    }
    assert_eq!(registry.get_stack_size("dongle"), Some(8192));
    registry.register_stack_size("dongle", 9000);
    assert_eq!(registry.get_stack_size("dongle"), Some(9000));
    assert_eq!(registry.get_stack_size("main"), None);
    let led = tasks.iter().find(|t| t.name == "rpm_led").unwrap();
    assert_eq!((led.core, led.memory), (Some(1), StackMemory::Internal));
    assert!(StackMemory::SpiRam.to_caps().spiram);
}
