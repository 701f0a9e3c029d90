use fan_controller::config::{Fan, LoadedConfig};
use fan_controller::homekit::{accessories, pairing_code, power_cmd, speed_cmd, Lights, Role};

fn by_float(percent: f32) -> String {
    if percent <= 0.0 {
        "off".to_string()
    } else {
        let level = ((percent / 100.0) * 6.0).round().clamp(1.0, 6.0) as u8;
        format!("speed{level}")
    }
}

fn fan(name: &str, device_id: u32, has_light: bool) -> Fan {
    Fan {
        name: name.to_string(),
        device_id,
        has_light,
        buttons: Vec::new(),
    }
}

#[test]
fn percentages_ask_for_the_nearest_of_six_speeds() {
    assert_eq!(speed_cmd(0f32.to_bits()), "off");
    assert_eq!(speed_cmd(1f32.to_bits()), "speed1");
    assert_eq!(speed_cmd(24f32.to_bits()), "speed1");
    assert_eq!(speed_cmd(25f32.to_bits()), "speed2");
    assert_eq!(speed_cmd(50f32.to_bits()), "speed3");
    assert_eq!(speed_cmd(75f32.to_bits()), "speed5");
    assert_eq!(speed_cmd(100f32.to_bits()), "speed6");
    for percent in 0..=1000 {
        let percent = percent as f32 / 10.0;
        assert_eq!(speed_cmd(percent.to_bits()), by_float(percent), "{percent}");
    }
}

#[test]
fn percentages_are_single_precision_numbers() {
    let edges = [
        25.0f32,
        41.666668,
        58.333332,
        75.0,
        91.666664,
        100.0,
        0.0,
        f32::MIN_POSITIVE,
        1.0,
        16.0,
        128.0,
        f32::MAX,
        f32::INFINITY,
        f32::NAN,
    ];
    for edge in edges {
        for sign in [0, 0x8000_0000u32] {
            for step in -1000i64..=1000 {
                let bits = (edge.to_bits() as i64 + step) as u32 ^ sign;
                assert_eq!(speed_cmd(bits), by_float(f32::from_bits(bits)), "{bits:x}");
            }
        }
    }
    let mut bits = 0u32;
    while bits < 0xFFFF_0000 {
        assert_eq!(speed_cmd(bits), by_float(f32::from_bits(bits)), "{bits:x}");
        bits += 65_521;
    }
}

#[test]
fn power_is_a_middle_speed_or_off() {
    assert_eq!(power_cmd(true), "speed3");
    assert_eq!(power_cmd(false), "off");
}

#[test]
fn homekit_lights_are_toggled_where_the_request_differs() {
    let mut lights = Lights::new();
    assert_eq!(lights.request("a", false), None);
    assert_eq!(lights.request("a", true).as_deref(), Some("toggle_light"));
    assert_eq!(lights.request("a", true), None);
    assert_eq!(lights.request("b", false), None);
    assert_eq!(lights.request("a", false).as_deref(), Some("toggle_light"));
    assert_eq!(lights.request("a", false), None);
}

#[test]
fn accessories_keep_two_identifiers_for_each_fan() {
    let config = LoadedConfig {
        fans: vec![
            fan("palapa1", 0x87552, false),
            fan("galleria1", 0xED13F, true),
            fan("guest", 0x1F, true),
        ],
    };
    let all = accessories("Fans", &config);
    let listed: Vec<(u64, &str, &str)> = all
        .iter()
        .map(|a| (a.id, a.name.as_str(), a.serial_number.as_str()))
        .collect();
    assert_eq!(
        listed,
        vec![
            (1, "Fans", "fan-controller-bridge"),
            (2, "palapa1", "87552-fan"),
            (4, "galleria1", "ED13F-fan"),
            (5, "galleria1 light", "ED13F-light"),
            (6, "guest", "0001F-fan"),
            (7, "guest light", "0001F-light"),
        ]
    );
    assert!(all
        .iter()
        .all(|a| a.manufacturer == "fan-controller" && a.model == "OOK-433"));
    assert!(matches!(all[0].role, Role::Bridge));
    assert!(matches!(&all[2].role, Role::Fan { target } if target == "galleria1"));
    assert!(matches!(&all[3].role, Role::Light { target } if target == "galleria1"));
}

#[test]
fn pins_are_shown_in_three_groups() {
    assert_eq!(pairing_code([0, 3, 1, 4, 5, 1, 5, 4]), "031-45-154");
    assert_eq!(pairing_code([12, 0, 0, 0, 0, 0, 0, 255]), "120-00-000");
}

#[test]
fn higher_percentages_never_ask_for_lower_speeds() {
    let mut last = 1;
    let mut bits = 1f32.to_bits();
    while bits <= 200f32.to_bits() {
        let cmd = speed_cmd(bits);
        let level: u32 = cmd["speed".len()..].parse().unwrap();
        assert!(last <= level && level <= 6);
        last = level;
        bits += 101;
    }
    assert_eq!(last, 6);
}

#[test]
fn lights_renumber_nothing() {
    let mut config = LoadedConfig {
        fans: vec![fan("a", 1, false), fan("b", 2, false), fan("c", 3, true)],
    };
    let before: Vec<u64> = accessories("x", &config).iter().map(|a| a.id).collect();
    assert_eq!(before, vec![1, 2, 4, 6, 7]);
    config.fans[0].has_light = true;
    let after: Vec<u64> = accessories("x", &config).iter().map(|a| a.id).collect();
    assert_eq!(after, vec![1, 2, 3, 4, 6, 7]);
}
