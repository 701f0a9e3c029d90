use fan_controller::config::{Fan, LoadedConfig};
use fan_controller::discovery::{fan_config, last_will, light_config, setup_goes_on};
use fan_controller::mqtt::{
    command_line, command_target, credentials, goes_on, next_step, parse_request, target_fan_names,
    topic, Action, Bridge, Delivery, Event, FanState, Outcome, Request, Step,
};

fn fan(name: &str, has_light: bool, buttons: &[&str]) -> Fan {
    Fan {
        name: name.to_string(),
        device_id: 0x87552,
        has_light,
        buttons: buttons.iter().map(|b| b.to_string()).collect(),
    }
}

fn bridge() -> Bridge {
    Bridge::new(LoadedConfig {
        fans: vec![
            fan("palapa1", false, &["off", "forward", "reverse"]),
            fan("palapa2", true, &["off", "toggle_direction"]),
        ],
    })
}

fn names(list: &[&str]) -> Vec<String> {
    list.iter().map(|n| n.to_string()).collect()
}

/// Actions as text.
fn shown(actions: Vec<Action>) -> Vec<String> {
    actions
        .into_iter()
        .map(|action| match action {
            Action::Publish(m) => {
                assert!(m.retain);
                assert_eq!(m.delivery, Delivery::AtLeastOnce);
                format!("{} = {}", m.topic, m.payload)
            }
            Action::Subscribe { filter, delivery } => {
                assert_eq!(delivery, Delivery::AtLeastOnce);
                format!("subscribe {filter}")
            }
            Action::Transmit { target, cmd } => format!("send {}", command_line(&target, &cmd)),
        })
        .collect()
}

#[test]
fn power_on_is_speed_three_whatever_came_before() {
    let mut b = bridge();
    let one = names(&["palapa1"]);
    assert_eq!(
        shown(b.handle_publish("fanctrl/palapa1/set", &one, b" on\n")),
        vec![
            "send palapa1 speed3",
            "fanctrl/palapa1/state = ON",
            "fanctrl/palapa1/speed/state = 3",
            "fanctrl/palapa1/preset/state = 3",
        ]
    );
    b.handle_publish("fanctrl/palapa1/speed/set", &one, b"5");
    assert_eq!(
        shown(b.handle_publish("fanctrl/palapa1/set", &one, b"OFF")),
        vec![
            "send palapa1 off",
            "fanctrl/palapa1/state = OFF",
            "fanctrl/palapa1/speed/state = 5",
            "fanctrl/palapa1/preset/state = 5",
        ]
    );
    assert_eq!(
        shown(b.handle_publish("fanctrl/palapa1/set", &one, b"ON")),
        vec![
            "send palapa1 speed3",
            "fanctrl/palapa1/state = ON",
            "fanctrl/palapa1/speed/state = 3",
            "fanctrl/palapa1/preset/state = 3",
        ]
    );
}

#[test]
fn rooms_are_commanded_in_one_transmission() {
    let mut b = bridge();
    let room = names(&["palapa1", "palapa2"]);
    b.handle_publish("fanctrl/palapa2/light/set", &names(&["palapa2"]), b"ON");
    assert_eq!(
        shown(b.handle_publish("fanctrl/palapa/preset/set", &room, b"2")),
        vec![
            "send palapa speed2",
            "fanctrl/palapa1/state = ON",
            "fanctrl/palapa1/speed/state = 2",
            "fanctrl/palapa1/preset/state = 2",
            "fanctrl/palapa2/state = ON",
            "fanctrl/palapa2/speed/state = 2",
            "fanctrl/palapa2/preset/state = 2",
        ]
    );
    let expected = FanState {
        on: true,
        speed: 2,
        light: true,
        forward: true,
    };
    assert_eq!(b.state("palapa2"), expected);
    assert_eq!(b.state("palapa").speed, 2);
    b.handle_publish("fanctrl/palapa1/speed/set", &names(&["palapa1"]), b"6");
    assert_eq!(
        shown(b.handle_publish("fanctrl/palapa/set", &room, b"ON"))[0],
        "send palapa speed3"
    );
    assert_eq!(b.state("palapa1").speed, 3);
    assert_eq!(b.state("palapa").speed, 3);
    assert_eq!(b.state("other"), FanState::default());
}

#[test]
fn speed_zero_turns_off() {
    let mut b = bridge();
    let one = names(&["palapa1"]);
    b.handle_publish("fanctrl/palapa1/speed/set", &one, b"4");
    assert_eq!(
        shown(b.handle_publish("fanctrl/palapa1/speed/set", &one, b"0")),
        vec![
            "send palapa1 off",
            "fanctrl/palapa1/state = OFF",
            "fanctrl/palapa1/speed/state = 4",
            "fanctrl/palapa1/preset/state = 4",
        ]
    );
    assert_eq!(
        shown(b.handle_publish("fanctrl/palapa1/speed/set", &one, b"7"))[0],
        "send palapa1 speed6"
    );
    assert!(b.handle_publish("fanctrl/palapa1/speed/set", &one, b"fast").is_empty());
    assert_eq!(b.state("palapa1").speed, 6);
}

#[test]
fn lights_are_toggled_where_the_request_differs() {
    let mut b = bridge();
    let one = names(&["palapa2"]);
    let on = vec!["send palapa2 toggle_light", "fanctrl/palapa2/light/state = ON"];
    assert_eq!(shown(b.handle_publish("fanctrl/palapa2/light/set", &one, b"ON")), on);
    assert_eq!(shown(b.handle_publish("fanctrl/palapa2/light/set", &one, b"on")), on[1..]);
    assert_eq!(
        shown(b.handle_publish("fanctrl/palapa2/light/set", &one, b"OFF")),
        vec!["send palapa2 toggle_light", "fanctrl/palapa2/light/state = OFF"]
    );
}

#[test]
fn directions_are_set_or_toggled() {
    let mut b = bridge();
    let one = names(&["palapa1"]);
    let two = names(&["palapa2"]);
    for _ in 0..2 {
        assert_eq!(
            shown(b.handle_publish("fanctrl/palapa1/direction/set", &one, b"reverse")),
            vec!["send palapa1 reverse", "fanctrl/palapa1/direction/state = reverse"]
        );
    }
    assert_eq!(
        shown(b.handle_publish("fanctrl/palapa1/direction/set", &one, b"Forward"))[0],
        "send palapa1 forward"
    );
    let toggled = vec![
        "send palapa2 toggle_direction",
        "fanctrl/palapa2/direction/state = reverse",
    ];
    assert_eq!(
        shown(b.handle_publish("fanctrl/palapa2/direction/set", &two, b"reverse")),
        toggled
    );
    assert_eq!(
        shown(b.handle_publish("fanctrl/palapa2/direction/set", &two, b"reverse")),
        toggled[1..]
    );
}

#[test]
fn other_messages_are_ignored() {
    let mut b = bridge();
    let one = names(&["palapa1"]);
    for topic in [
        "",
        "fanctrl",
        "fanctrl/palapa1",
        "other/palapa1/set",
        "fanctrl/palapa1/state",
        "fanctrl/palapa1/set/more",
        "fanctrl/palapa1/speed",
        "fanctrl/palapa1/speed/state",
        "fanctrl/palapa1/timer/set",
    ] {
        assert!(b.handle_publish(topic, &one, b"ON").is_empty(), "{topic}");
    }
    assert!(b.handle_publish("fanctrl/nobody/set", &names(&[]), b"ON").is_empty());
    assert!(b.handle_publish("fanctrl/palapa1/speed/set", &one, b"\xff3").is_empty());
    assert_eq!(b.state("palapa1"), FanState::default());
    assert_eq!(
        shown(b.handle_publish("fanctrl/palapa1/speed/set/more", &one, b"3"))[0],
        "send palapa1 speed3"
    );
}

#[test]
fn payloads_are_decoded_from_bytes() {
    let mut b = bridge();
    let one = names(&["palapa1"]);
    assert_eq!(
        shown(b.handle_publish("fanctrl/palapa1/set", &one, "\u{a0}on\u{3000}".as_bytes()))[0],
        "send palapa1 speed3"
    );
    assert_eq!(
        shown(b.handle_publish("fanctrl/palapa1/set", &one, b"on\xff"))[0],
        "send palapa1 off"
    );
    assert_eq!(
        shown(b.handle_command("fanctrl/palapa1/set", &one, "ON"))[0],
        "send palapa1 speed3"
    );
}

#[test]
fn bytes_that_are_no_text_never_turn_anything_on() {
    let mut b = bridge();
    let two = names(&["palapa2"]);
    assert_eq!(
        shown(b.handle_publish("fanctrl/palapa2/set", &two, b"\xc3\x28ON"))[0],
        "send palapa2 off"
    );
    for leaf in ["speed/set", "preset/set"] {
        for payload in [&b"3\x80"[..], b"\xff", b"1e\xff", b"-\xf03", b"0.\xe2\x82"] {
            let topic = format!("fanctrl/palapa2/{leaf}");
            assert!(b.handle_publish(&topic, &two, payload).is_empty());
        }
    }
    assert_eq!(
        shown(b.handle_publish("fanctrl/palapa2/light/set", &two, b" \xffON ")),
        vec!["fanctrl/palapa2/light/state = OFF"]
    );
    b.handle_publish("fanctrl/palapa2/direction/set", &two, b"forward\xed\xa0\x80");
    assert_eq!(b.state("palapa2"), FanState { forward: false, ..FanState::default() });
}

#[test]
fn only_failed_announcements_end_the_setup() {
    assert!(setup_goes_on(true, true));
    assert!(!setup_goes_on(true, false));
    assert!(setup_goes_on(false, true));
    assert!(setup_goes_on(false, false));
}

#[test]
fn requests_are_read_from_topic_and_payload() {
    assert_eq!(parse_request("fanctrl/x/set", "oN"), Some(Request::Power(true)));
    assert_eq!(parse_request("fanctrl/x/set", ""), Some(Request::Power(false)));
    assert_eq!(parse_request("fanctrl/x/speed/set", "2.5"), Some(Request::Speed(3)));
    assert_eq!(parse_request("fanctrl/x/speed/set", "0.0"), Some(Request::Power(false)));
    assert_eq!(parse_request("fanctrl/x/preset/set", "0"), Some(Request::Speed(1)));
    assert_eq!(parse_request("fanctrl/x/preset/set", "inf"), None);
    assert_eq!(parse_request("fanctrl/x/light/set", "ON"), Some(Request::Light(true)));
    assert_eq!(
        parse_request("fanctrl/x/direction/set", "backward"),
        Some(Request::Direction(false))
    );
    assert_eq!(parse_request("fanctrl/x/state", "ON"), None);
    assert_eq!(command_target("fanctrl/x/state").as_deref(), Some("x"));
    assert_eq!(command_target("fanctrl/x"), None);
    assert_eq!(command_target(&topic("a b", "/light/set")).as_deref(), Some("a b"));
}

#[test]
fn requests_are_applied_to_target_and_fans() {
    let mut b = bridge();
    let room = names(&["palapa1", "palapa2", "palapa1"]);
    let done = b.apply(&"palapa".to_string(), &room, Request::Speed(4));
    assert_eq!(done.len(), 10);
    assert_eq!(b.state("palapa1"), b.state("palapa"));
    assert_eq!(b.state("palapa2").speed, 4);
    let done = b.apply(&"palapa".to_string(), &room, Request::Power(false));
    assert_eq!(shown(done)[0], "send palapa off");
    assert!(!b.state("palapa2").on);
}

#[test]
fn setup_announces_subscribes_and_seeds() {
    let mut b = bridge();
    b.handle_publish("fanctrl/palapa2/light/set", &names(&["palapa2"]), b"ON");
    let setup = b.setup();
    let announce = shown(setup.announce);
    assert_eq!(
        announce,
        vec![
            format!("homeassistant/fan/fanctrl/palapa1/config = {}", fan_config("palapa1")),
            format!("homeassistant/fan/fanctrl/palapa2/config = {}", fan_config("palapa2")),
            format!(
                "homeassistant/light/fanctrl/palapa2_light/config = {}",
                light_config("palapa2")
            ),
            "subscribe fanctrl/+/set".to_string(),
            "subscribe fanctrl/+/speed/set".to_string(),
            "subscribe fanctrl/+/preset/set".to_string(),
            "subscribe fanctrl/+/light/set".to_string(),
            "subscribe fanctrl/+/direction/set".to_string(),
            "fanctrl/status = online".to_string(),
        ]
    );
    assert_eq!(
        shown(setup.seed),
        vec![
            "fanctrl/palapa1/state = OFF",
            "fanctrl/palapa1/speed/state = 3",
            "fanctrl/palapa1/preset/state = 3",
            "fanctrl/palapa1/direction/state = forward",
            "fanctrl/palapa2/state = OFF",
            "fanctrl/palapa2/speed/state = 3",
            "fanctrl/palapa2/preset/state = 3",
            "fanctrl/palapa2/direction/state = forward",
            "fanctrl/palapa2/light/state = ON",
        ]
    );
}

#[test]
fn discovery_payloads_are_json() {
    let device = "{\"identifiers\":[\"fanctrl_a\\\"b\"],\"manufacturer\":\"fan-controller\",\
                  \"model\":\"OOK-433\",\"name\":\"a\\\"b\"}";
    assert_eq!(
        light_config("a\"b"),
        format!(
            "{{\"availability_topic\":\"fanctrl/status\",\
             \"command_topic\":\"fanctrl/a\\\"b/light/set\",\"device\":{device},\
             \"name\":\"Light\",\"state_topic\":\"fanctrl/a\\\"b/light/state\",\
             \"unique_id\":\"fanctrl_a\\\"b_light\"}}"
        )
    );
    let value: serde_json::Value = serde_json::from_str(&fan_config("x")).unwrap();
    assert_eq!(value["name"], serde_json::Value::Null);
    assert_eq!(value["unique_id"], "fanctrl_x");
    assert_eq!(value["command_topic"], "fanctrl/x/set");
    assert_eq!(value["state_topic"], "fanctrl/x/state");
    assert_eq!(value["percentage_command_topic"], "fanctrl/x/speed/set");
    assert_eq!(value["percentage_state_topic"], "fanctrl/x/speed/state");
    assert_eq!(value["speed_range_min"], 1);
    assert_eq!(value["speed_range_max"], 6);
    assert_eq!(value["preset_mode_command_topic"], "fanctrl/x/preset/set");
    assert_eq!(value["preset_mode_state_topic"], "fanctrl/x/preset/state");
    let presets: Vec<&str> = value["preset_modes"]
        .as_array()
        .unwrap()
        .iter()
        .map(|v| v.as_str().unwrap())
        .collect();
    assert_eq!(presets, vec!["1", "2", "3", "4", "5", "6"]);
    assert_eq!(value["direction_command_topic"], "fanctrl/x/direction/set");
    assert_eq!(value["direction_state_topic"], "fanctrl/x/direction/state");
    assert_eq!(value["availability_topic"], "fanctrl/status");
    assert_eq!(value["device"]["identifiers"][0], "fanctrl_x");
    assert_eq!(value["device"]["name"], "x");
    assert_eq!(value.as_object().unwrap().len(), 15);
}

#[test]
fn events_lead_to_steps() {
    assert!(matches!(next_step(&Event::Connected), Step::SetUp));
    assert!(matches!(next_step(&Event::Other), Step::Ignore));
    assert!(matches!(next_step(&Event::Failed), Step::Pause { seconds: 2 }));
    let published = Event::Published {
        topic: "fanctrl/palapa/set".to_string(),
    };
    assert!(matches!(next_step(&published), Step::Handle { target } if target == "palapa"));
    let published = Event::Published {
        topic: "fanctrl/status".to_string(),
    };
    assert!(matches!(next_step(&published), Step::Ignore));
}

#[test]
fn the_bridge_ends_where_the_radio_fails() {
    assert!(goes_on(Outcome::Sent));
    assert!(goes_on(Outcome::Refused));
    assert!(!goes_on(Outcome::RadioFailed));
}

#[test]
fn the_will_marks_the_bridge_offline() {
    let will = last_will();
    assert_eq!(will.topic, "fanctrl/status");
    assert_eq!(will.payload, "offline");
    assert!(will.retain);
    assert_eq!(will.delivery, Delivery::AtLeastOnce);
}

#[test]
fn users_without_password_have_an_empty_one() {
    let some = |s: &str| Some(s.to_string());
    assert_eq!(
        credentials(some("u"), some("p")),
        Some(("u".to_string(), "p".to_string()))
    );
    assert_eq!(credentials(some("u"), None), Some(("u".to_string(), String::new())));
    assert_eq!(credentials(None, some("p")), None);
}

#[test]
fn published_states_are_no_commands() {
    let mut b = bridge();
    let one = names(&["palapa2"]);
    b.handle_publish("fanctrl/palapa2/speed/set", &one, b"5");
    let setup = b.setup();
    let mut published = 0;
    for action in setup.announce.into_iter().chain(setup.seed) {
        if let Action::Publish(m) = action {
            assert!(b.handle_publish(&m.topic, &one, m.payload.as_bytes()).is_empty());
            published += 1;
        }
    }
    assert_eq!(published, 13);
    assert_eq!(b.state("palapa2").speed, 5);
}

#[test]
fn command_topics_match_the_subscriptions() {
    for (leaf, filter) in [
        ("/set", "fanctrl/+/set"),
        ("/speed/set", "fanctrl/+/speed/set"),
        ("/preset/set", "fanctrl/+/preset/set"),
        ("/light/set", "fanctrl/+/light/set"),
        ("/direction/set", "fanctrl/+/direction/set"),
    ] {
        assert!(rumqttc::matches(&topic("palapa1", leaf), filter));
    }
}

#[test]
fn targets_that_resolve_to_nothing_have_no_fans() {
    assert_eq!(target_fan_names(Some(names(&["b", "a"]))), names(&["b", "a"]));
    assert!(target_fan_names(None).is_empty());
}
