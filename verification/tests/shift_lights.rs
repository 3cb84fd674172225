use tachtalk::colors::{ColorStops, RGB8};
use tachtalk::shift_lights::{bake_led_rules, compute_led_state, covered_leds, LedRule, LedState};

fn lerp_u8(a: u8, b: u8, t: f32) -> u8 {
    (f32::from(a) + (f32::from(b) - f32::from(a)) * t).round() as u8
}

/// The colors between the stops of a gradient, one for each position.
fn blend(colors: &[RGB8], positions: usize) -> Vec<RGB8> {
    if colors.len() < 2 || positions < 2 {
        return Vec::new();
    }
    let segments = colors.len() - 1;
    (0..positions)
        .map(|i| {
            let place = i as f32 / (positions - 1) as f32 * segments as f32;
            let segment = (place as usize).min(segments - 1);
            let t = (place - segment as f32).clamp(0.0, 1.0);
            let (from, to) = (colors[segment], colors[segment + 1]);
            RGB8::new(
                lerp_u8(from.r, to.r, t),
                lerp_u8(from.g, to.g, t),
                lerp_u8(from.b, to.b, t),
            )
        })
        .collect()
}

fn compute_led_state_simple(
    rpm: u32,
    rules: &[LedRule],
    total_leds: usize,
    timestamp_ms: u64,
) -> LedState {
    let blends: Vec<Vec<RGB8>> = rules
        .iter()
        .map(|rule| blend(rule.colors.colors(), covered_leds(rule, total_leds)))
        .collect();
    let baked = bake_led_rules(rules, total_leds, &blends);
    compute_led_state(rpm, &baked, timestamp_ms)
}

#[test]
fn baked_rules_hold_a_color_for_each_led() {
    let rules = make_rules();
    for total_leds in [0, 1, 3, 8] {
        let blends: Vec<Vec<RGB8>> = rules
            .iter()
            .map(|rule| blend(rule.colors.colors(), covered_leds(rule, total_leds)))
            .collect();
        let baked = bake_led_rules(&rules, total_leds, &blends);
        for rule in &baked.rules {
            assert_eq!(rule.gradient.colors().len(), rule.led_count);
            assert!(rule.start < total_leds || rule.start == 0);
            assert!(rule.end < total_leds || rule.end == 0);
        }
    }
}

fn make_rules() -> Vec<LedRule> {
    vec![
        LedRule {
            name: "Green".to_string(),
            rpm_lower: 3000,
            rpm_upper: None,
            start_led: 0,
            end_led: 2,
            colors: ColorStops::of(&[RGB8::new(0, 255, 0)]),
            blink: false,
            blink_ms: 500,
        },
        LedRule {
            name: "Yellow".to_string(),
            rpm_lower: 5000,
            rpm_upper: None,
            start_led: 0,
            end_led: 4,
            colors: ColorStops::of(&[RGB8::new(255, 255, 0)]),
            blink: false,
            blink_ms: 500,
        },
        LedRule {
            name: "Red".to_string(),
            rpm_lower: 6500,
            rpm_upper: None,
            start_led: 0,
            end_led: 7,
            colors: ColorStops::of(&[RGB8::new(255, 0, 0)]),
            blink: false,
            blink_ms: 500,
        },
        LedRule {
            name: "Blink".to_string(),
            rpm_lower: 7000,
            rpm_upper: None,
            start_led: 0,
            end_led: 7,
            colors: ColorStops::of(&[RGB8::new(255, 0, 0)]),
            blink: true,
            blink_ms: 100,
        },
    ]
}

#[test]
fn test_no_rule_active() {
    let rules = make_rules();
    let state = compute_led_state_simple(2000, &rules, 8, 0);

    assert!(!state.has_blinking);
    assert!(state.leds.iter().all(|&led| led == RGB8::default()));
}

#[test]
fn test_first_rule() {
    let rules = make_rules();
    let state = compute_led_state_simple(3500, &rules, 8, 0);

    assert!(!state.has_blinking);
    
    // LEDs 0-2 should be green
    assert_eq!(state.leds[0], RGB8::new(0, 255, 0));
    assert_eq!(state.leds[1], RGB8::new(0, 255, 0));
    assert_eq!(state.leds[2], RGB8::new(0, 255, 0));
    // LEDs 3-7 should be off
    assert_eq!(state.leds[3], RGB8::default());
}

#[test]
fn test_higher_rule_cumulative_with_lower() {
    let rules = make_rules();
    let state = compute_led_state_simple(5500, &rules, 8, 0);

    // LEDs 0-4 should be yellow (Yellow overrides Green for 0-2, adds 3-4)
    assert_eq!(state.leds[0], RGB8::new(255, 255, 0));
    assert_eq!(state.leds[4], RGB8::new(255, 255, 0));
    // LEDs 5-7 should be off
    assert_eq!(state.leds[5], RGB8::default());
}

#[test]
fn test_blink_on_phase() {
    let rules = make_rules();
    // timestamp 0 with blink_ms 100: (0 / 100) % 2 == 0 -> ON
    let state = compute_led_state_simple(7500, &rules, 8, 0);

    assert!(state.has_blinking);
    
    // During blink ON, all LEDs should be red
    assert_eq!(state.leds[0], RGB8::new(255, 0, 0));
    assert_eq!(state.leds[7], RGB8::new(255, 0, 0));
}

#[test]
fn test_blink_off_shows_underneath() {
    let rules = make_rules();
    // timestamp 100 with blink_ms 100: (100 / 100) % 2 == 1 -> OFF
    let state = compute_led_state_simple(7500, &rules, 8, 100);

    assert!(state.has_blinking);
    
    // During blink OFF, should show Red rule underneath (LEDs 0-7)
    assert_eq!(state.leds[0], RGB8::new(255, 0, 0));
    assert_eq!(state.leds[7], RGB8::new(255, 0, 0));
}

#[test]
fn test_blink_timing() {
    let rules = vec![LedRule {
        name: "Blink".to_string(),
        rpm_lower: 1000,
        rpm_upper: None,
        start_led: 0,
        end_led: 0,
        colors: ColorStops::of(&[RGB8::new(255, 0, 0)]),
        blink: true,
        blink_ms: 100,
    }];

    // t=0: ON (0/100 % 2 == 0)
    let state = compute_led_state_simple(1500, &rules, 1, 0);
    assert_eq!(state.leds[0], RGB8::new(255, 0, 0));

    // t=50: still ON (50/100 % 2 == 0)
    let state = compute_led_state_simple(1500, &rules, 1, 50);
    assert_eq!(state.leds[0], RGB8::new(255, 0, 0));

    // t=100: OFF (100/100 % 2 == 1)
    let state = compute_led_state_simple(1500, &rules, 1, 100);
    assert_eq!(state.leds[0], RGB8::default());

    // t=150: still OFF (150/100 % 2 == 1)
    let state = compute_led_state_simple(1500, &rules, 1, 150);
    assert_eq!(state.leds[0], RGB8::default());

    // t=200: ON again (200/100 % 2 == 0)
    let state = compute_led_state_simple(1500, &rules, 1, 200);
    assert_eq!(state.leds[0], RGB8::new(255, 0, 0));
}

#[test]
fn test_led_bounds_clamping() {
    let rules = vec![LedRule {
        name: "OutOfBounds".to_string(),
        rpm_lower: 1000,
        rpm_upper: None,
        start_led: 5,
        end_led: 100, // Way beyond total LEDs
        colors: ColorStops::of(&[RGB8::new(255, 0, 0)]),
        blink: false,
        blink_ms: 500,
    }];
    let state = compute_led_state_simple(1500, &rules, 8, 0);

    // Should clamp to available LEDs (5-7)
    assert_eq!(state.leds[5], RGB8::new(255, 0, 0));
    assert_eq!(state.leds[7], RGB8::new(255, 0, 0));
    assert_eq!(state.leds.len(), 8);
}

/// Test cumulative rules with non-overlapping LED ranges (progressive shift light)
#[test]
fn test_cumulative_non_overlapping_ranges() {
    // Simulate a progressive shift light: blue 0-2, green 3-5, yellow 6-8, red 9-11
    let rules = vec![
        LedRule {
            name: "Off".to_string(),
            rpm_lower: 0,
            rpm_upper: None,
            start_led: 0,
            end_led: 11,
            colors: ColorStops::of(&[RGB8::new(0, 0, 0)]),
            blink: false,
            blink_ms: 500,
        },
        LedRule {
            name: "Blue".to_string(),
            rpm_lower: 1000,
            rpm_upper: None,
            start_led: 0,
            end_led: 2,
            colors: ColorStops::of(&[RGB8::new(0, 0, 255)]),
            blink: false,
            blink_ms: 500,
        },
        LedRule {
            name: "Green".to_string(),
            rpm_lower: 1500,
            rpm_upper: None,
            start_led: 3,
            end_led: 5,
            colors: ColorStops::of(&[RGB8::new(0, 255, 0)]),
            blink: false,
            blink_ms: 500,
        },
        LedRule {
            name: "Yellow".to_string(),
            rpm_lower: 2000,
            rpm_upper: None,
            start_led: 6,
            end_led: 8,
            colors: ColorStops::of(&[RGB8::new(255, 255, 0)]),
            blink: false,
            blink_ms: 500,
        },
        LedRule {
            name: "Red".to_string(),
            rpm_lower: 2500,
            rpm_upper: None,
            start_led: 9,
            end_led: 11,
            colors: ColorStops::of(&[RGB8::new(255, 0, 0)]),
            blink: false,
            blink_ms: 500,
        },
    ];

    // At 1200 RPM: only blue should be on
    let state = compute_led_state_simple(1200, &rules, 12, 0);
    assert_eq!(state.leds[0], RGB8::new(0, 0, 255)); // blue
    assert_eq!(state.leds[2], RGB8::new(0, 0, 255)); // blue
    assert_eq!(state.leds[3], RGB8::default()); // off
    assert_eq!(state.leds[11], RGB8::default()); // off

    // At 1700 RPM: blue AND green should be on
    let state = compute_led_state_simple(1700, &rules, 12, 0);
    assert_eq!(state.leds[0], RGB8::new(0, 0, 255)); // blue stays on
    assert_eq!(state.leds[2], RGB8::new(0, 0, 255)); // blue stays on
    assert_eq!(state.leds[3], RGB8::new(0, 255, 0)); // green
    assert_eq!(state.leds[5], RGB8::new(0, 255, 0)); // green
    assert_eq!(state.leds[6], RGB8::default()); // off

    // At 2200 RPM: blue, green, AND yellow should be on
    let state = compute_led_state_simple(2200, &rules, 12, 0);
    assert_eq!(state.leds[0], RGB8::new(0, 0, 255)); // blue
    assert_eq!(state.leds[3], RGB8::new(0, 255, 0)); // green
    assert_eq!(state.leds[6], RGB8::new(255, 255, 0)); // yellow
    assert_eq!(state.leds[8], RGB8::new(255, 255, 0)); // yellow
    assert_eq!(state.leds[9], RGB8::default()); // off

    // At 3000 RPM: all colors should be on
    let state = compute_led_state_simple(3000, &rules, 12, 0);
    assert_eq!(state.leds[0], RGB8::new(0, 0, 255)); // blue
    assert_eq!(state.leds[3], RGB8::new(0, 255, 0)); // green
    assert_eq!(state.leds[6], RGB8::new(255, 255, 0)); // yellow
    assert_eq!(state.leds[9], RGB8::new(255, 0, 0)); // red
    assert_eq!(state.leds[11], RGB8::new(255, 0, 0)); // red
}

/// Test progressive single-LED rules within a color zone
#[test]
fn test_progressive_single_led_rules() {
    // Each LED lights up at a different RPM
    let rules = vec![
        LedRule {
            name: "Off".to_string(),
            rpm_lower: 0,
            rpm_upper: None,
            start_led: 0,
            end_led: 2,
            colors: ColorStops::of(&[RGB8::new(0, 0, 0)]),
            blink: false,
            blink_ms: 500,
        },
        LedRule {
            name: "Blue 1".to_string(),
            rpm_lower: 1000,
            rpm_upper: None,
            start_led: 0,
            end_led: 0,
            colors: ColorStops::of(&[RGB8::new(0, 0, 255)]),
            blink: false,
            blink_ms: 500,
        },
        LedRule {
            name: "Blue 2".to_string(),
            rpm_lower: 1167,
            rpm_upper: None,
            start_led: 1,
            end_led: 1,
            colors: ColorStops::of(&[RGB8::new(0, 0, 255)]),
            blink: false,
            blink_ms: 500,
        },
        LedRule {
            name: "Blue 3".to_string(),
            rpm_lower: 1333,
            rpm_upper: None,
            start_led: 2,
            end_led: 2,
            colors: ColorStops::of(&[RGB8::new(0, 0, 255)]),
            blink: false,
            blink_ms: 500,
        },
    ];

    // At 1100 RPM: only LED 0
    let state = compute_led_state_simple(1100, &rules, 3, 0);
    assert_eq!(state.leds[0], RGB8::new(0, 0, 255));
    assert_eq!(state.leds[1], RGB8::default());
    assert_eq!(state.leds[2], RGB8::default());

    // At 1200 RPM: LEDs 0 and 1
    let state = compute_led_state_simple(1200, &rules, 3, 0);
    assert_eq!(state.leds[0], RGB8::new(0, 0, 255));
    assert_eq!(state.leds[1], RGB8::new(0, 0, 255));
    assert_eq!(state.leds[2], RGB8::default());

    // At 1400 RPM: all three LEDs
    let state = compute_led_state_simple(1400, &rules, 3, 0);
    assert_eq!(state.leds[0], RGB8::new(0, 0, 255));
    assert_eq!(state.leds[1], RGB8::new(0, 0, 255));
    assert_eq!(state.leds[2], RGB8::new(0, 0, 255));
}

/// Test blink OFF shows all rules underneath (cumulative)
#[test]
fn test_blink_off_shows_all_underneath() {
    let rules = vec![
        LedRule {
            name: "Blue".to_string(),
            rpm_lower: 1000,
            rpm_upper: None,
            start_led: 0,
            end_led: 2,
            colors: ColorStops::of(&[RGB8::new(0, 0, 255)]),
            blink: false,
            blink_ms: 500,
        },
        LedRule {
            name: "Green".to_string(),
            rpm_lower: 1500,
            rpm_upper: None,
            start_led: 3,
            end_led: 5,
            colors: ColorStops::of(&[RGB8::new(0, 255, 0)]),
            blink: false,
            blink_ms: 500,
        },
        LedRule {
            name: "Shift".to_string(),
            rpm_lower: 2000,
            rpm_upper: None,
            start_led: 0,
            end_led: 5,
            colors: ColorStops::of(&[RGB8::new(255, 0, 0)]),
            blink: true,
            blink_ms: 100,
        },
    ];

    // Blink ON (t=0): all red
    let state = compute_led_state_simple(2500, &rules, 6, 0);
    assert!(state.has_blinking);
    assert_eq!(state.leds[0], RGB8::new(255, 0, 0));
    assert_eq!(state.leds[5], RGB8::new(255, 0, 0));

    // Blink OFF (t=100): should show blue AND green underneath
    let state = compute_led_state_simple(2500, &rules, 6, 100);
    assert!(state.has_blinking);
    // Blue LEDs 0-2
    assert_eq!(state.leds[0], RGB8::new(0, 0, 255));
    assert_eq!(state.leds[2], RGB8::new(0, 0, 255));
    // Green LEDs 3-5
    assert_eq!(state.leds[3], RGB8::new(0, 255, 0));
    assert_eq!(state.leds[5], RGB8::new(0, 255, 0));
}

/// Test that a "Black" rule at the same RPM as Shift clears LEDs during blink OFF
#[test]
fn test_blink_off_with_black_underneath() {
    let rules = vec![
        LedRule {
            name: "Blue".to_string(),
            rpm_lower: 1000,
            rpm_upper: None,
            start_led: 0,
            end_led: 2,
            colors: ColorStops::of(&[RGB8::new(0, 0, 255)]),
            blink: false,
            blink_ms: 500,
        },
        LedRule {
            name: "Green".to_string(),
            rpm_lower: 1500,
            rpm_upper: None,
            start_led: 3,
            end_led: 5,
            colors: ColorStops::of(&[RGB8::new(0, 255, 0)]),
            blink: false,
            blink_ms: 500,
        },
        LedRule {
            name: "Black".to_string(),
            rpm_lower: 2000,
            rpm_upper: None,
            start_led: 0,
            end_led: 5,
            colors: ColorStops::of(&[RGB8::new(0, 0, 0)]), // All off
            blink: false,
            blink_ms: 500,
        },
        LedRule {
            name: "Shift".to_string(),
            rpm_lower: 2000,
            rpm_upper: None,
            start_led: 0,
            end_led: 5,
            colors: ColorStops::of(&[RGB8::new(255, 0, 0)]),
            blink: true,
            blink_ms: 100,
        },
    ];

    // Blink ON (t=0): all red
    let state = compute_led_state_simple(2500, &rules, 6, 0);
    assert!(state.has_blinking);
    assert_eq!(state.leds[0], RGB8::new(255, 0, 0));
    assert_eq!(state.leds[5], RGB8::new(255, 0, 0));

    // Blink OFF (t=100): Black rule should override blue/green, all LEDs off
    let state = compute_led_state_simple(2500, &rules, 6, 100);
    assert!(state.has_blinking);
    // All LEDs should be black (off)
    for i in 0..6 {
        assert_eq!(state.leds[i], RGB8::new(0, 0, 0), "LED {i} should be off");
    }
}

/// Test multiple independent blinking rules
#[test]
fn test_multiple_independent_blinks() {
    let rules = vec![
        LedRule {
            name: "Slow Blink".to_string(),
            rpm_lower: 1000,
            rpm_upper: None,
            start_led: 0,
            end_led: 2,
            colors: ColorStops::of(&[RGB8::new(0, 0, 255)]),
            blink: true,
            blink_ms: 200, // 200ms period
        },
        LedRule {
            name: "Fast Blink".to_string(),
            rpm_lower: 1000,
            rpm_upper: None,
            start_led: 3,
            end_led: 5,
            colors: ColorStops::of(&[RGB8::new(255, 0, 0)]),
            blink: true,
            blink_ms: 100, // 100ms period
        },
    ];

    // t=0: both ON (0/200 % 2 == 0, 0/100 % 2 == 0)
    let state = compute_led_state_simple(1500, &rules, 6, 0);
    assert_eq!(state.leds[0], RGB8::new(0, 0, 255)); // slow blink on
    assert_eq!(state.leds[3], RGB8::new(255, 0, 0)); // fast blink on

    // t=100: slow ON, fast OFF (100/200 % 2 == 0, 100/100 % 2 == 1)
    let state = compute_led_state_simple(1500, &rules, 6, 100);
    assert_eq!(state.leds[0], RGB8::new(0, 0, 255)); // slow blink still on
    assert_eq!(state.leds[3], RGB8::default()); // fast blink off

    // t=200: slow OFF, fast ON (200/200 % 2 == 1, 200/100 % 2 == 0)
    let state = compute_led_state_simple(1500, &rules, 6, 200);
    assert_eq!(state.leds[0], RGB8::default()); // slow blink off
    assert_eq!(state.leds[3], RGB8::new(255, 0, 0)); // fast blink on

    // t=300: slow OFF, fast OFF (300/200 % 2 == 1, 300/100 % 2 == 1)
    let state = compute_led_state_simple(1500, &rules, 6, 300);
    assert_eq!(state.leds[0], RGB8::default()); // slow blink off
    assert_eq!(state.leds[3], RGB8::default()); // fast blink off
}

/// Test proportional LED lighting with `rpm_upper`
#[test]
fn test_proportional_leds_forward() {
    // 4 LEDs (0-3) with RPM range 1000-2000
    let rules = vec![LedRule {
        name: "Progressive".to_string(),
        rpm_lower: 1000,
        rpm_upper: Some(2000),
        start_led: 0,
        end_led: 3,
        colors: ColorStops::of(&[RGB8::new(0, 255, 0)]),
        blink: false,
        blink_ms: 500,
    }];

    // At 1000 RPM: 1 LED (LED 0) - bucket 0-249
    let state = compute_led_state_simple(1000, &rules, 4, 0);
    assert_eq!(state.leds[0], RGB8::new(0, 255, 0));
    assert_eq!(state.leds[1], RGB8::default());
    assert_eq!(state.leds[2], RGB8::default());
    assert_eq!(state.leds[3], RGB8::default());

    // At 1249 RPM: still 1 LED - progress=249, bucket 0-249
    let state = compute_led_state_simple(1249, &rules, 4, 0);
    assert_eq!(state.leds[0], RGB8::new(0, 255, 0));
    assert_eq!(state.leds[1], RGB8::default());

    // At 1250 RPM: 2 LEDs (0-1) - progress=250, bucket 250-499
    let state = compute_led_state_simple(1250, &rules, 4, 0);
    assert_eq!(state.leds[0], RGB8::new(0, 255, 0));
    assert_eq!(state.leds[1], RGB8::new(0, 255, 0));
    assert_eq!(state.leds[2], RGB8::default());
    assert_eq!(state.leds[3], RGB8::default());

    // At 1500 RPM: 3 LEDs (0-2) - progress=500, bucket 500-749
    let state = compute_led_state_simple(1500, &rules, 4, 0);
    assert_eq!(state.leds[0], RGB8::new(0, 255, 0));
    assert_eq!(state.leds[1], RGB8::new(0, 255, 0));
    assert_eq!(state.leds[2], RGB8::new(0, 255, 0));
    assert_eq!(state.leds[3], RGB8::default());

    // At 1750 RPM: 4 LEDs - progress=750, bucket 750-1000
    let state = compute_led_state_simple(1750, &rules, 4, 0);
    assert_eq!(state.leds[0], RGB8::new(0, 255, 0));
    assert_eq!(state.leds[1], RGB8::new(0, 255, 0));
    assert_eq!(state.leds[2], RGB8::new(0, 255, 0));
    assert_eq!(state.leds[3], RGB8::new(0, 255, 0));

    // At 2000 RPM: all 4 LEDs
    let state = compute_led_state_simple(2000, &rules, 4, 0);
    assert_eq!(state.leds[0], RGB8::new(0, 255, 0));
    assert_eq!(state.leds[1], RGB8::new(0, 255, 0));
    assert_eq!(state.leds[2], RGB8::new(0, 255, 0));
    assert_eq!(state.leds[3], RGB8::new(0, 255, 0));

    // Above 2000 RPM: still all 4 LEDs (capped)
    let state = compute_led_state_simple(3000, &rules, 4, 0);
    assert_eq!(state.leds[0], RGB8::new(0, 255, 0));
    assert_eq!(state.leds[3], RGB8::new(0, 255, 0));
}

/// Test proportional LED lighting with reversed range (mirror effect)
#[test]
fn test_proportional_leds_reverse() {
    // LEDs 3->0 (reversed) with RPM range 1000-2000
    let rules = vec![LedRule {
        name: "Mirror".to_string(),
        rpm_lower: 1000,
        rpm_upper: Some(2000),
        start_led: 3,
        end_led: 0,
        colors: ColorStops::of(&[RGB8::new(255, 0, 0)]),
        blink: false,
        blink_ms: 500,
    }];

    // At 1000 RPM: 1 LED (LED 3 - starts from the "outside")
    let state = compute_led_state_simple(1000, &rules, 4, 0);
    assert_eq!(state.leds[0], RGB8::default());
    assert_eq!(state.leds[1], RGB8::default());
    assert_eq!(state.leds[2], RGB8::default());
    assert_eq!(state.leds[3], RGB8::new(255, 0, 0));

    // At 1250 RPM: 2 LEDs (3, 2)
    let state = compute_led_state_simple(1250, &rules, 4, 0);
    assert_eq!(state.leds[0], RGB8::default());
    assert_eq!(state.leds[1], RGB8::default());
    assert_eq!(state.leds[2], RGB8::new(255, 0, 0));
    assert_eq!(state.leds[3], RGB8::new(255, 0, 0));

    // At 1500 RPM: 3 LEDs (3, 2, 1)
    let state = compute_led_state_simple(1500, &rules, 4, 0);
    assert_eq!(state.leds[0], RGB8::default());
    assert_eq!(state.leds[1], RGB8::new(255, 0, 0));
    assert_eq!(state.leds[2], RGB8::new(255, 0, 0));
    assert_eq!(state.leds[3], RGB8::new(255, 0, 0));

    // At 2000 RPM: all 4 LEDs
    let state = compute_led_state_simple(2000, &rules, 4, 0);
    assert_eq!(state.leds[0], RGB8::new(255, 0, 0));
    assert_eq!(state.leds[1], RGB8::new(255, 0, 0));
    assert_eq!(state.leds[2], RGB8::new(255, 0, 0));
    assert_eq!(state.leds[3], RGB8::new(255, 0, 0));
}

/// Test mirror effect for symmetric shift light (both sides light toward center)
#[test]
fn test_symmetric_mirror_shift_light() {
    // 8 LEDs: left side (0-3) lights right, right side (7-4) lights left
    let rules = vec![
        LedRule {
            name: "Left".to_string(),
            rpm_lower: 1000,
            rpm_upper: Some(2000),
            start_led: 0,
            end_led: 3,
            colors: ColorStops::of(&[RGB8::new(0, 255, 0)]),
            blink: false,
            blink_ms: 500,
        },
        LedRule {
            name: "Right".to_string(),
            rpm_lower: 1000,
            rpm_upper: Some(2000),
            start_led: 7,
            end_led: 4,
            colors: ColorStops::of(&[RGB8::new(0, 255, 0)]),
            blink: false,
            blink_ms: 500,
        },
    ];

    // At 1000 RPM: outer LEDs only (0 and 7)
    let state = compute_led_state_simple(1000, &rules, 8, 0);
    assert_eq!(state.leds[0], RGB8::new(0, 255, 0));
    assert_eq!(state.leds[1], RGB8::default());
    assert_eq!(state.leds[6], RGB8::default());
    assert_eq!(state.leds[7], RGB8::new(0, 255, 0));

    // At 1250 RPM: 2 on each side (0,1 and 6,7)
    let state = compute_led_state_simple(1250, &rules, 8, 0);
    assert_eq!(state.leds[0], RGB8::new(0, 255, 0));
    assert_eq!(state.leds[1], RGB8::new(0, 255, 0));
    assert_eq!(state.leds[2], RGB8::default());
    assert_eq!(state.leds[5], RGB8::default());
    assert_eq!(state.leds[6], RGB8::new(0, 255, 0));
    assert_eq!(state.leds[7], RGB8::new(0, 255, 0));

    // At 2000 RPM: all LEDs on
    let state = compute_led_state_simple(2000, &rules, 8, 0);
    for i in 0..8 {
        assert_eq!(state.leds[i], RGB8::new(0, 255, 0), "LED {i} should be on");
    }
}

/// Test gradient interpolation with two colors
#[test]
fn test_gradient_two_colors() {
    let rules = vec![LedRule {
        name: "Gradient".to_string(),
        rpm_lower: 1000,
        rpm_upper: None,
        start_led: 0,
        end_led: 4,
        colors: ColorStops::of(&[RGB8::new(255, 0, 0), RGB8::new(0, 0, 255)]),
        blink: false,
        blink_ms: 500,
    }];

    let state = compute_led_state_simple(1500, &rules, 5, 0);

    // First LED should be red
    assert_eq!(state.leds[0], RGB8::new(255, 0, 0));
    // Last LED should be blue
    assert_eq!(state.leds[4], RGB8::new(0, 0, 255));
    // Middle LED should be purple (50% blend)
    assert_eq!(state.leds[2], RGB8::new(128, 0, 128));
    // LED 1 should be 75% red, 25% blue
    assert_eq!(state.leds[1], RGB8::new(191, 0, 64));
    // LED 3 should be 25% red, 75% blue
    assert_eq!(state.leds[3], RGB8::new(64, 0, 191));
}

/// Test that gradient is static - colors don't shift as RPM increases
/// With 5 LEDs, RPM range 1000-2000, and RPM at 1500:
/// - 3 LEDs should be lit (proportional)
/// - LED 2 (middle of full range) should have midway color, not end color
#[test]
fn test_gradient_static_with_proportional() {
    let rules = vec![LedRule {
        name: "Static Gradient".to_string(),
        rpm_lower: 1000,
        rpm_upper: Some(2000),
        start_led: 0,
        end_led: 4,
        colors: ColorStops::of(&[RGB8::new(255, 0, 0), RGB8::new(0, 0, 255)]),
        blink: false,
        blink_ms: 500,
    }];

    let state = compute_led_state_simple(1500, &rules, 5, 0);

    // At 1500 RPM (halfway), 3 LEDs should be lit: 0, 1, 2
    // LED 0: first color (red)
    assert_eq!(state.leds[0], RGB8::new(255, 0, 0));
    // LED 1: 25% through gradient (75% red, 25% blue)
    assert_eq!(state.leds[1], RGB8::new(191, 0, 64));
    // LED 2: 50% through gradient (midway color - purple)
    // This is the key assertion: LED 2 should be purple, NOT blue
    assert_eq!(state.leds[2], RGB8::new(128, 0, 128));
    // LEDs 3 and 4 should be off (black)
    assert_eq!(state.leds[3], RGB8::new(0, 0, 0));
    assert_eq!(state.leds[4], RGB8::new(0, 0, 0));
}

/// Test gradient with three colors (red -> green -> blue)
#[test]
fn test_gradient_three_colors() {
    let rules = vec![LedRule {
        name: "Rainbow".to_string(),
        rpm_lower: 1000,
        rpm_upper: None,
        start_led: 0,
        end_led: 4,
        colors: ColorStops::of(&[RGB8::new(255, 0, 0), RGB8::new(0, 255, 0), RGB8::new(0, 0, 255)]),
        blink: false,
        blink_ms: 500,
    }];

    let state = compute_led_state_simple(1500, &rules, 5, 0);

    // First LED should be red
    assert_eq!(state.leds[0], RGB8::new(255, 0, 0));
    // Middle LED (index 2) should be green
    assert_eq!(state.leds[2], RGB8::new(0, 255, 0));
    // Last LED should be blue
    assert_eq!(state.leds[4], RGB8::new(0, 0, 255));
    // LED 1 should be between red and green
    assert_eq!(state.leds[1], RGB8::new(128, 128, 0));
    // LED 3 should be between green and blue
    assert_eq!(state.leds[3], RGB8::new(0, 128, 128));
}

/// Test single color acts as solid (no gradient)
#[test]
fn test_gradient_single_color() {
    let rules = vec![LedRule {
        name: "Solid".to_string(),
        rpm_lower: 1000,
        rpm_upper: None,
        start_led: 0,
        end_led: 2,
        colors: ColorStops::of(&[RGB8::new(255, 128, 0)]),
        blink: false,
        blink_ms: 500,
    }];

    let state = compute_led_state_simple(1500, &rules, 3, 0);

    // All LEDs should be the same color
    assert_eq!(state.leds[0], RGB8::new(255, 128, 0));
    assert_eq!(state.leds[1], RGB8::new(255, 128, 0));
    assert_eq!(state.leds[2], RGB8::new(255, 128, 0));
}
