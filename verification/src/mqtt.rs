//! Bridge between Home Assistant and the fans, over MQTT.
//!
//! Commands arrive on the topics `fanctrl/<target>/...`, where a target is a
//! fan or a room. Fans give no feedback, so state is optimistic: what was
//! commanded last is what is published. Lights can only be toggled, and so can
//! the direction of some fans, so the assumed state is tracked and a toggle is
//! sent only where the request differs from it.

use vstd::hash_map::StringHashMap;
use vstd::prelude::*;
use vstd::string::*;
use vstd::utf8::*;

use crate::config::{absolute_direction, texts, FanView, LoadedConfig};
use crate::mqtt_laws::{law_no_text_declines, law_speeds_stay_proper};
use crate::speed::{is_zero_speed, parse_speed_level, speed_level, zero_speed};
use crate::text::{
    chars_of, decimal, numeral, same_but_case, spells, spells_in_any_case, split, split_at_each,
    text_of, trim, trimmed, views,
};

verus! {

/// Base topic for commands, states and availability.
pub const BASE: &'static str = "fanctrl";

/// The speed level that a fan is turned on at: the protocol has no bare "on".
pub const ON_SPEED: u8 = 3;

/// What is known of a fan.
#[derive(Clone, Copy, Debug, PartialEq, Eq, Structural)]
pub struct FanState {
    pub on: bool,
    /// The speed level, 1 to 6.
    pub speed: u8,
    pub light: bool,
    /// Assumed direction.
    pub forward: bool,
}

/// What is assumed of a fan before the first command.
pub open spec fn initial_state() -> FanState {
    FanState { on: false, speed: ON_SPEED, light: false, forward: true }
}

impl Default for FanState {
    fn default() -> (state: Self)
        ensures
            state == initial_state(),
    {
        FanState { on: false, speed: ON_SPEED, light: false, forward: true }
    }
}

/// What is known of fan `name`.
pub open spec fn state_of(states: Map<Seq<char>, FanState>, name: Seq<char>) -> FanState {
    if states.contains_key(name) {
        states[name]
    } else {
        initial_state()
    }
}

/// How sure a delivery is.
#[derive(Clone, Copy, Debug, PartialEq, Eq, Structural)]
pub enum Delivery {
    AtMostOnce,
    AtLeastOnce,
    ExactlyOnce,
}

/// A message to publish.
pub struct Message {
    pub topic: String,
    pub payload: String,
    /// Whether the broker keeps the message for later subscribers.
    pub retain: bool,
    pub delivery: Delivery,
}

/// What a message is.
#[verifier::ext_equal]
pub struct MessageView {
    pub topic: Seq<char>,
    pub payload: Seq<char>,
    pub retain: bool,
    pub delivery: Delivery,
}

impl View for Message {
    type V = MessageView;

    open spec fn view(&self) -> MessageView {
        MessageView {
            topic: self.topic@,
            payload: self.payload@,
            retain: self.retain,
            delivery: self.delivery,
        }
    }
}

/// Something to do at the broker or the radio.
pub enum Action {
    /// Publish a message.
    Publish(Message),
    /// Subscribe to a topic filter.
    Subscribe { filter: String, delivery: Delivery },
    /// Send a command to a fan, or to all fans of a room in one transmission.
    Transmit { target: String, cmd: String },
}

/// What an action is.
#[verifier::ext_equal]
pub enum ActionView {
    Publish(MessageView),
    Subscribe { filter: Seq<char>, delivery: Delivery },
    Transmit { target: Seq<char>, cmd: Seq<char> },
}

impl View for Action {
    type V = ActionView;

    open spec fn view(&self) -> ActionView {
        match self {
            Action::Publish(message) => ActionView::Publish(message@),
            Action::Subscribe { filter, delivery } => ActionView::Subscribe {
                filter: filter@,
                delivery: *delivery,
            },
            Action::Transmit { target, cmd } => ActionView::Transmit {
                target: target@,
                cmd: cmd@,
            },
        }
    }
}

/// What some actions are.
pub open spec fn action_views(actions: Seq<Action>) -> Seq<ActionView> {
    actions.map_values(|action: Action| action@)
}

/// The topic `leaf` of fan `name`.
pub open spec fn fan_topic(name: Seq<char>, leaf: Seq<char>) -> Seq<char> {
    BASE@ + "/"@ + name + leaf
}

/// A message of the bridge: kept by the broker, and delivered at least once.
pub open spec fn kept_message(topic: Seq<char>, payload: Seq<char>) -> MessageView {
    MessageView { topic, payload, retain: true, delivery: Delivery::AtLeastOnce }
}

/// The publication of such a message.
pub open spec fn publication(topic: Seq<char>, payload: Seq<char>) -> ActionView {
    ActionView::Publish(kept_message(topic, payload))
}

/// The name of an on-off state.
pub open spec fn on_off(on: bool) -> Seq<char> {
    if on {
        "ON"@
    } else {
        "OFF"@
    }
}

/// The name of a direction.
pub open spec fn direction(forward: bool) -> Seq<char> {
    if forward {
        "forward"@
    } else {
        "reverse"@
    }
}

/// What publishes whether fan `name` is on, and its speed, as a level and as a
/// preset.
pub open spec fn fan_publications(states: Map<Seq<char>, FanState>, name: Seq<char>) -> Seq<
    ActionView,
> {
    let state = state_of(states, name);
    seq![
        publication(fan_topic(name, "/state"@), on_off(state.on)),
        publication(fan_topic(name, "/speed/state"@), numeral(state.speed as nat, 10)),
        publication(fan_topic(name, "/preset/state"@), numeral(state.speed as nat, 10)),
    ]
}

/// What publishes the states of some fans, in order.
pub open spec fn fans_publications(
    states: Map<Seq<char>, FanState>,
    names: Seq<Seq<char>>,
) -> Seq<ActionView>
    decreases names.len(),
{
    if names.len() == 0 {
        Seq::empty()
    } else {
        fans_publications(states, names.drop_last()) + fan_publications(states, names.last())
    }
}

/// What publishes the assumed state of the light of fan `name`.
pub open spec fn light_publication(
    states: Map<Seq<char>, FanState>,
    name: Seq<char>,
) -> ActionView {
    publication(fan_topic(name, "/light/state"@), on_off(state_of(states, name).light))
}

/// What publishes the assumed direction of fan `name`.
pub open spec fn direction_publication(
    states: Map<Seq<char>, FanState>,
    name: Seq<char>,
) -> ActionView {
    publication(fan_topic(name, "/direction/state"@), direction(state_of(states, name).forward))
}

/// What a message asks for.
#[derive(Clone, Copy, Debug, PartialEq, Eq, Structural)]
pub enum Request {
    /// On or off.
    Power(bool),
    /// A speed level.
    Speed(u8),
    /// The light on or off.
    Light(bool),
    /// Forward or reverse.
    Direction(bool),
}

/// The target that a message on `topic` is for: the second level of a topic
/// under the base topic with at least three levels.
pub open spec fn target_of(topic: Seq<char>) -> Option<Seq<char>> {
    let levels = split(topic, '/');
    if levels.len() >= 3 && levels[0] == BASE@ {
        Some(levels[1])
    } else {
        None
    }
}

/// What a message on `topic` with the payload `text` asks for, by the levels
/// behind the target. Speed zero turns the fan off.
pub open spec fn request_of(topic: Seq<char>, text: Seq<char>) -> Option<Request> {
    let levels = split(topic, '/');
    if levels.len() == 3 && levels[2] == "set"@ {
        Some(Request::Power(same_but_case(text, "ON"@)))
    } else if levels.len() >= 4 && levels[3] == "set"@ {
        if levels[2] == "speed"@ && zero_speed(text) {
            Some(Request::Power(false))
        } else if levels[2] == "speed"@ || levels[2] == "preset"@ {
            match speed_level(text) {
                Some(level) => Some(Request::Speed(level)),
                None => None,
            }
        } else if levels[2] == "light"@ {
            Some(Request::Light(same_but_case(text, "ON"@)))
        } else if levels[2] == "direction"@ {
            Some(Request::Direction(same_but_case(text, "forward"@)))
        } else {
            None
        }
    } else {
        None
    }
}

/// A fan turned on or off, at a new speed if one is given.
pub open spec fn switched(state: FanState, on: bool, speed: Option<u8>) -> FanState {
    FanState {
        on,
        speed: match speed {
            Some(speed) => speed,
            None => state.speed,
        },
        ..state
    }
}

/// The states with the target and its fans turned on or off, at a new speed if
/// one is given.
pub open spec fn all_switched(
    states: Map<Seq<char>, FanState>,
    target: Seq<char>,
    names: Seq<Seq<char>>,
    on: bool,
    speed: Option<u8>,
) -> Map<Seq<char>, FanState> {
    Map::new(
        |name: Seq<char>| states.contains_key(name) || name == target || names.contains(name),
        |name: Seq<char>|
            if name == target || names.contains(name) {
                switched(state_of(states, name), on, speed)
            } else {
                states[name]
            },
    )
}

/// The states after a request to a target with the fans `names`. Power and
/// speed reach every fan of the target; a fan that is turned on runs at the
/// speed for that. Light and direction are tracked for the target as such.
pub open spec fn next_states(
    states: Map<Seq<char>, FanState>,
    target: Seq<char>,
    names: Seq<Seq<char>>,
    request: Request,
) -> Map<Seq<char>, FanState> {
    let state = state_of(states, target);
    match request {
        Request::Power(true) => all_switched(states, target, names, true, Some(ON_SPEED)),
        Request::Power(false) => all_switched(states, target, names, false, None),
        Request::Speed(level) => all_switched(states, target, names, true, Some(level)),
        Request::Light(on) => states.insert(target, FanState { light: on, ..state }),
        Request::Direction(forward) => states.insert(target, FanState { forward, ..state }),
    }
}

/// The command for a speed level.
pub open spec fn speed_command(level: u8) -> Seq<char> {
    "speed"@ + numeral(level as nat, 10)
}

/// The command that a request leads to, if any: `absolute` tells whether the
/// target has a button for each direction.
pub open spec fn command(state: FanState, absolute: bool, request: Request) -> Option<Seq<char>> {
    match request {
        Request::Power(true) => Some(speed_command(ON_SPEED)),
        Request::Power(false) => Some("off"@),
        Request::Speed(level) => Some(speed_command(level)),
        Request::Light(on) => if state.light != on {
            Some("toggle_light"@)
        } else {
            None
        },
        Request::Direction(forward) => if absolute {
            Some(direction(forward))
        } else if state.forward != forward {
            Some("toggle_direction"@)
        } else {
            None
        },
    }
}

/// What publishes the outcome of a request, with the states after it.
pub open spec fn publications(
    states: Map<Seq<char>, FanState>,
    target: Seq<char>,
    names: Seq<Seq<char>>,
    request: Request,
) -> Seq<ActionView> {
    match request {
        Request::Power(_) => fans_publications(states, names),
        Request::Speed(_) => fans_publications(states, names),
        Request::Light(_) => seq![light_publication(states, target)],
        Request::Direction(_) => seq![direction_publication(states, target)],
    }
}

/// What a request to a target with the fans `names` leads to: the command, if
/// any, in one transmission to the target, and the publication of the states.
pub open spec fn responses(
    states: Map<Seq<char>, FanState>,
    target: Seq<char>,
    names: Seq<Seq<char>>,
    absolute: bool,
    request: Request,
) -> Seq<ActionView> {
    let sent = match command(state_of(states, target), absolute, request) {
        Some(cmd) => seq![ActionView::Transmit { target, cmd }],
        None => Seq::empty(),
    };
    sent + publications(next_states(states, target, names, request), target, names, request)
}

/// What a message asks of which target: nothing where the topic is no command
/// topic, the target has no fans or the payload makes no sense.
pub open spec fn accepted(
    topic: Seq<char>,
    names: Seq<Seq<char>>,
    text: Seq<char>,
) -> Option<(Seq<char>, Request)> {
    match (target_of(topic), request_of(topic, trimmed(text))) {
        (Some(target), Some(request)) if names.len() > 0 => Some((target, request)),
        _ => None,
    }
}

/// The states after a message for a target with the fans `names`.
pub open spec fn states_after(
    states: Map<Seq<char>, FanState>,
    topic: Seq<char>,
    names: Seq<Seq<char>>,
    text: Seq<char>,
) -> Map<Seq<char>, FanState> {
    match accepted(topic, names, text) {
        Some((target, request)) => next_states(states, target, names, request),
        None => states,
    }
}

/// What a message for a target with the fans `names` leads to.
pub open spec fn responses_to(
    fans: Seq<FanView>,
    states: Map<Seq<char>, FanState>,
    topic: Seq<char>,
    names: Seq<Seq<char>>,
    text: Seq<char>,
) -> Seq<ActionView> {
    match accepted(topic, names, text) {
        Some((target, request)) => responses(
            states,
            target,
            names,
            absolute_direction(fans, target),
            request,
        ),
        None => Seq::empty(),
    }
}

/// Whether every speed is a level of the protocol.
pub open spec fn proper_speeds(states: Map<Seq<char>, FanState>) -> bool {
    forall|name: Seq<char>| #[trigger]
        states.contains_key(name) ==> 1 <= states[name].speed <= 6
}

/// The text that `String::from_utf8_lossy` makes of bytes.
pub uninterp spec fn utf8_lossy(bytes: Seq<u8>) -> Seq<char>;

/// The text of a payload.
pub open spec fn payload_text(bytes: Seq<u8>) -> Seq<char> {
    if valid_utf8(bytes) {
        decode_utf8(bytes)
    } else {
        utf8_lossy(bytes)
    }
}

/// `String::from_utf8_lossy` decodes UTF-8; where the bytes are none, the text
/// holds U+FFFD in place of what is not. How many of these stand for which bytes
/// is not stated, only that the text depends on the bytes alone.
#[verifier::external_body]
fn decode_lossy(bytes: &[u8]) -> (text: String)
    ensures
        text@ == utf8_lossy(bytes@),
        valid_utf8(bytes@) ==> text@ == decode_utf8(bytes@),
        !valid_utf8(bytes@) ==> text@.contains('\u{FFFD}'),
{
    String::from_utf8_lossy(bytes).into_owned()
}

/// The topic `leaf` of fan `name`.
pub fn topic(name: &str, leaf: &str) -> (topic: String)
    ensures
        topic@ == fan_topic(name@, leaf@),
{
    BASE.to_owned().concat("/").concat(name).concat(leaf)
}

/// The command for a speed level.
fn speed_cmd(level: u8) -> (cmd: String)
    ensures
        cmd@ == speed_command(level),
{
    let level: String = decimal(level as u64);
    "speed".to_owned().concat(level.as_str())
}

/// Adds the publication of a state to `actions`.
pub(crate) fn publish(actions: &mut Vec<Action>, topic: String, payload: String)
    ensures
        action_views(final(actions)@) == action_views(old(actions)@).push(
            publication(topic@, payload@),
        ),
{
    let ghost before = actions@;
    let action: Action = Action::Publish(
        Message { topic, payload, retain: true, delivery: Delivery::AtLeastOnce },
    );
    assert(action@ == publication(topic@, payload@));
    actions.push(action);
    assert(action_views(actions@) =~= action_views(before).push(action@));
}

/// The target that a message on `topic` is for, if it is for one.
pub fn command_target(topic: &str) -> (target: Option<String>)
    ensures
        match target_of(topic@) {
            Some(name) => target is Some && target->0@ == name,
            None => target is None,
        },
{
    let levels: Vec<Vec<char>> = split_at_each(topic, '/');
    let ghost pieces = views(levels@);
    assert(pieces.len() == levels@.len());
    if levels.len() < 3 || !spells(levels[0].as_slice(), BASE) {
        assert(levels@.len() >= 3 ==> pieces[0] == levels@[0]@);
        return None;
    }
    assert(pieces[0] == levels@[0]@);
    assert(pieces[1] == levels@[1]@);
    Some(text_of(levels[1].as_slice()))
}

/// What a message on `topic` with that payload, without white space around it,
/// asks for.
pub fn parse_request(topic: &str, payload: &str) -> (request: Option<Request>)
    ensures
        request == request_of(topic@, payload@),
{
    let levels: Vec<Vec<char>> = split_at_each(topic, '/');
    let ghost pieces = views(levels@);
    assert(pieces.len() == levels@.len());
    if levels.len() < 3 {
        return None;
    }
    assert(pieces[2] == levels@[2]@);
    let kind: &[char] = levels[2].as_slice();
    if levels.len() == 3 {
        return if spells(kind, "set") {
            Some(Request::Power(spells_in_any_case(chars_of(payload).as_slice(), "ON")))
        } else {
            None
        };
    }
    assert(pieces[3] == levels@[3]@);
    if !spells(levels[3].as_slice(), "set") {
        return None;
    }
    let speed: bool = spells(kind, "speed");
    if speed && is_zero_speed(payload) {
        Some(Request::Power(false))
    } else if speed || spells(kind, "preset") {
        match parse_speed_level(payload) {
            Some(level) => Some(Request::Speed(level)),
            None => None,
        }
    } else if spells(kind, "light") {
        Some(Request::Light(spells_in_any_case(chars_of(payload).as_slice(), "ON")))
    } else if spells(kind, "direction") {
        Some(
            Request::Direction(
                spells_in_any_case(chars_of(payload).as_slice(), "forward"),
            ),
        )
    } else {
        None
    }
}

/// The configured fans and what is known of each target.
pub struct Bridge {
    pub config: LoadedConfig,
    pub fans: StringHashMap<FanState>,
}

impl Bridge {
    /// A bridge that has seen no command.
    pub fn new(config: LoadedConfig) -> (bridge: Self)
        ensures
            bridge.config == config,
            bridge.fans@ == Map::<Seq<char>, FanState>::empty(),
            proper_speeds(bridge.fans@),
    {
        Bridge { config, fans: StringHashMap::new() }
    }

    /// What is known of fan `name`.
    pub fn state(&self, name: &str) -> (state: FanState)
        ensures
            state == state_of(self.fans@, name@),
    {
        match self.fans.get(name) {
            Some(state) => *state,
            None => FanState::default(),
        }
    }

    /// Adds what publishes whether fan `name` is on, and its speed.
    pub(crate) fn publish_fan_state(&self, actions: &mut Vec<Action>, name: &str)
        ensures
            action_views(final(actions)@) == action_views(old(actions)@) + fan_publications(
                self.fans@,
                name@,
            ),
    {
        let ghost before = action_views(actions@);
        let state: FanState = self.state(name);
        let power: String = if state.on {
            "ON".to_owned()
        } else {
            "OFF".to_owned()
        };
        publish(actions, topic(name, "/state"), power);
        publish(actions, topic(name, "/speed/state"), decimal(state.speed as u64));
        publish(actions, topic(name, "/preset/state"), decimal(state.speed as u64));
        assert(action_views(actions@) =~= before + fan_publications(self.fans@, name@));
    }

    /// Adds what publishes the assumed state of the light of fan `name`.
    pub(crate) fn publish_light_state(&self, actions: &mut Vec<Action>, name: &str)
        ensures
            action_views(final(actions)@) == action_views(old(actions)@).push(
                light_publication(self.fans@, name@),
            ),
    {
        let power: String = if self.state(name).light {
            "ON".to_owned()
        } else {
            "OFF".to_owned()
        };
        publish(actions, topic(name, "/light/state"), power);
    }

    /// Adds what publishes the assumed direction of fan `name`.
    pub(crate) fn publish_direction_state(&self, actions: &mut Vec<Action>, name: &str)
        ensures
            action_views(final(actions)@) == action_views(old(actions)@).push(
                direction_publication(self.fans@, name@),
            ),
    {
        let way: String = if self.state(name).forward {
            "forward".to_owned()
        } else {
            "reverse".to_owned()
        };
        publish(actions, topic(name, "/direction/state"), way);
    }

    /// Adds what publishes the states of some fans, in order.
    fn publish_fan_states(&self, actions: &mut Vec<Action>, names: &Vec<String>)
        ensures
            action_views(final(actions)@) == action_views(old(actions)@) + fans_publications(
                self.fans@,
                texts(names@),
            ),
    {
        let ghost before = action_views(actions@);
        let ghost all = texts(names@);
        let mut i: usize = 0;
        assert(before + fans_publications(self.fans@, all.take(0)) =~= before);
        while i < names.len()
            invariant
                i <= names@.len(),
                all == texts(names@),
                action_views(actions@) == before + fans_publications(
                    self.fans@,
                    all.take(i as int),
                ),
            decreases names@.len() - i,
        {
            self.publish_fan_state(actions, names[i].as_str());
            assert(all.take(i + 1).drop_last() =~= all.take(i as int));
            i = i + 1;
            assert(action_views(actions@) =~= before + fans_publications(
                self.fans@,
                all.take(i as int),
            ));
        }
        assert(all.take(i as int) =~= all);
    }

    /// Turns fan `name` on or off, at a new speed if one is given.
    fn switch(&mut self, name: &str, on: bool, speed: Option<u8>)
        ensures
            final(self).config == old(self).config,
            final(self).fans@ == old(self).fans@.insert(
                name@,
                switched(state_of(old(self).fans@, name@), on, speed),
            ),
    {
        let state: FanState = self.state(name);
        let speed: u8 = match speed {
            Some(speed) => speed,
            None => state.speed,
        };
        self.fans.insert(name.to_owned(), FanState { on, speed, ..state });
    }

    /// Turns the target and its fans on or off, at a new speed if one is given.
    fn switch_all(&mut self, target: &str, names: &Vec<String>, on: bool, speed: Option<u8>)
        ensures
            final(self).config == old(self).config,
            final(self).fans@ == all_switched(
                old(self).fans@,
                target@,
                texts(names@),
                on,
                speed,
            ),
    {
        let ghost before = self.fans@;
        let ghost config = self.config;
        let ghost all = texts(names@);
        self.switch(target, on, speed);
        assert(self.fans@ =~= all_switched(before, target@, all.take(0), on, speed));
        let mut i: usize = 0;
        while i < names.len()
            invariant
                i <= names@.len(),
                all == texts(names@),
                self.config == config,
                self.fans@ == all_switched(before, target@, all.take(i as int), on, speed),
            decreases names@.len() - i,
        {
            let ghost taken = all.take(i as int);
            let ghost more = all.take(i + 1);
            self.switch(names[i].as_str(), on, speed);
            proof {
                let name = names@[i as int]@;
                assert(more =~= taken.push(name));
                assert forall|n: Seq<char>| more.contains(n) == (taken.contains(n) || n == name) by {
                    if taken.contains(n) {
                        assert(more[taken.index_of(n)] == n);
                    }
                    if n == name {
                        assert(more[i as int] == n);
                    }
                    if more.contains(n) {
                        let k = more.index_of(n);
                        assert(k < i ==> taken[k] == n);
                    }
                }
                assert(self.fans@ =~= all_switched(before, target@, more, on, speed));
            }
            i = i + 1;
        }
        assert(all.take(i as int) =~= all);
    }

    /// Takes in a request to a target with the fans `names`, and hands out what
    /// it leads to.
    pub fn apply(&mut self, target: &String, names: &Vec<String>, request: Request) -> (actions: Vec<
        Action,
    >)
        ensures
            final(self).config == old(self).config,
            final(self).fans@ == next_states(
                old(self).fans@,
                target@,
                texts(names@),
                request,
            ),
            action_views(actions@) == responses(
                old(self).fans@,
                target@,
                texts(names@),
                absolute_direction(old(self).config@, target@),
                request,
            ),
    {
        let state: FanState = self.state(target.as_str());
        let ghost before = self.fans@;
        let ghost config = self.config;
        let ghost absolute_view = absolute_direction(self.config@, target@);
        let cmd: Option<String> = match request {
            Request::Power(true) => {
                self.switch_all(target.as_str(), names, true, Some(ON_SPEED));
                Some(speed_cmd(ON_SPEED))
            },
            Request::Power(false) => {
                self.switch_all(target.as_str(), names, false, None);
                Some("off".to_owned())
            },
            Request::Speed(level) => {
                self.switch_all(target.as_str(), names, true, Some(level));
                Some(speed_cmd(level))
            },
            Request::Light(on) => {
                self.fans.insert(target.clone(), FanState { light: on, ..state });
                if state.light != on {
                    Some("toggle_light".to_owned())
                } else {
                    None
                }
            },
            Request::Direction(forward) => {
                let absolute: bool = self.config.has_absolute_direction(target);
                self.fans.insert(target.clone(), FanState { forward, ..state });
                if absolute {
                    Some(
                        if forward {
                            "forward".to_owned()
                        } else {
                            "reverse".to_owned()
                        },
                    )
                } else if state.forward != forward {
                    Some("toggle_direction".to_owned())
                } else {
                    None
                }
            },
        };
        let mut actions: Vec<Action> = Vec::new();
        let ghost sent = match command(state, absolute_view, request) {
            Some(cmd) => seq![ActionView::Transmit { target: target@, cmd }],
            None => Seq::empty(),
        };
        if let Some(cmd) = cmd {
            actions.push(Action::Transmit { target: target.clone(), cmd });
        }
        assert(action_views(actions@) =~= sent);
        match request {
            Request::Power(_) => self.publish_fan_states(&mut actions, names),
            Request::Speed(_) => self.publish_fan_states(&mut actions, names),
            Request::Light(_) => self.publish_light_state(&mut actions, target.as_str()),
            Request::Direction(_) => self.publish_direction_state(&mut actions, target.as_str()),
        }
        assert(action_views(actions@) =~= sent + publications(
            self.fans@,
            target@,
            texts(names@),
            request,
        ));
        actions
    }

    /// Takes in a message on `topic` for a target with the fans `target_fans`,
    /// and hands out what it leads to.
    pub fn handle_command(
        &mut self,
        topic: &str,
        target_fans: &Vec<String>,
        text: &str,
    ) -> (actions: Vec<Action>)
        ensures
            final(self).config == old(self).config,
            final(self).fans@ == states_after(
                old(self).fans@,
                topic@,
                texts(target_fans@),
                text@,
            ),
            action_views(actions@) == responses_to(
                old(self).config@,
                old(self).fans@,
                topic@,
                texts(target_fans@),
                text@,
            ),
            proper_speeds(old(self).fans@) ==> proper_speeds(final(self).fans@),
    {
        proof {
            if proper_speeds(self.fans@) {
                law_speeds_stay_proper(self.fans@, topic@, texts(target_fans@), text@);
            }
        }
        let target: String = match command_target(topic) {
            Some(target) => target,
            None => {
                return Vec::new();
            },
        };
        if target_fans.len() == 0 {
            return Vec::new();
        }
        let payload: String = text_of(trim(text).as_slice());
        match parse_request(topic, payload.as_str()) {
            Some(request) => self.apply(&target, target_fans, request),
            None => Vec::new(),
        }
    }

    /// Takes in a message on `topic` for a target with the fans `target_fans`:
    /// see `handle_command`. A payload that is no text counts as an empty one.
    pub fn handle_publish(
        &mut self,
        topic: &str,
        target_fans: &Vec<String>,
        payload: &[u8],
    ) -> (actions: Vec<Action>)
        ensures
            final(self).config == old(self).config,
            final(self).fans@ == states_after(
                old(self).fans@,
                topic@,
                texts(target_fans@),
                payload_text(payload@),
            ),
            action_views(actions@) == responses_to(
                old(self).config@,
                old(self).fans@,
                topic@,
                texts(target_fans@),
                payload_text(payload@),
            ),
            proper_speeds(old(self).fans@) ==> proper_speeds(final(self).fans@),
            !valid_utf8(payload@) ==> accepted(
                topic@,
                texts(target_fans@),
                payload_text(payload@),
            ) == accepted(topic@, texts(target_fans@), Seq::empty()),
    {
        let text: String = decode_lossy(payload);
        proof {
            if !valid_utf8(payload@) {
                law_no_text_declines(topic@, texts(target_fans@), text@);
            }
        }
        self.handle_command(topic, target_fans, text.as_str())
    }
}

/// The names of the fans of a target: those that it resolves to, in order, and
/// none where it resolves to nothing.
pub fn target_fan_names(resolved: Option<Vec<String>>) -> (names: Vec<String>)
    ensures
        match resolved {
            Some(fans) => names == fans,
            None => names@.len() == 0,
        },
{
    match resolved {
        Some(fans) => fans,
        None => Vec::new(),
    }
}

/// The line that commands a target.
pub fn command_line(target: &str, cmd: &str) -> (line: String)
    ensures
        line@ == target@ + " "@ + cmd@,
{
    target.to_owned().concat(" ").concat(cmd)
}

/// Something that happened on the connection to the broker.
pub enum Event {
    /// The broker has accepted the connection.
    Connected,
    /// A message came in on a topic.
    Published { topic: String },
    /// Something that calls for nothing.
    Other,
    /// The connection failed.
    Failed,
}

/// What an event calls for.
pub enum Step {
    /// The setup, as on every connection.
    SetUp,
    /// A message is to be handled, once the fans of its target are known.
    Handle { target: String },
    /// Nothing.
    Ignore,
    /// A pause before the next attempt to connect.
    Pause { seconds: u64 },
}

/// Seconds between two attempts to connect.
pub const RETRY_SECONDS: u64 = 2;

/// What an event calls for.
pub fn next_step(event: &Event) -> (step: Step)
    ensures
        match event {
            Event::Connected => step is SetUp,
            Event::Published { topic } => match target_of(topic@) {
                Some(name) => step is Handle && step->target@ == name,
                None => step is Ignore,
            },
            Event::Other => step is Ignore,
            Event::Failed => step == (Step::Pause { seconds: RETRY_SECONDS }),
        },
        event is Failed ==> step == (Step::Pause { seconds: 2 }),
{
    match event {
        Event::Connected => Step::SetUp,
        Event::Published { topic } => match command_target(topic.as_str()) {
            Some(target) => Step::Handle { target },
            None => Step::Ignore,
        },
        Event::Other => Step::Ignore,
        Event::Failed => Step::Pause { seconds: RETRY_SECONDS },
    }
}

/// How a transmission ended.
#[derive(Clone, Copy, Debug, PartialEq, Eq, Structural)]
pub enum Outcome {
    /// The command was sent.
    Sent,
    /// The command was refused, or the attempt broke off before the radio.
    Refused,
    /// The radio failed: its stream stays invalid until it is opened again.
    RadioFailed,
}

/// Whether the bridge goes on after a transmission. It ends where the radio has
/// failed, so that it can be started again with the radio opened anew.
pub fn goes_on(outcome: Outcome) -> (on: bool)
    ensures
        on == (outcome != Outcome::RadioFailed),
{
    match outcome {
        Outcome::Sent => true,
        Outcome::Refused => true,
        Outcome::RadioFailed => false,
    }
}

/// The user name and password for the broker: a user without a password has an
/// empty one, and a password without a user is not used.
pub fn credentials(user: Option<String>, pass: Option<String>) -> (login: Option<(String, String)>)
    ensures
        match (user, pass) {
            (Some(user), Some(pass)) => login == Some((user, pass)),
            (Some(user), None) => login matches Some((name, word)) && name == user && word@.len() == 0,
            (None, _) => login is None,
        },
{
    match user {
        Some(user) => Some(
            (
                user,
                match pass {
                    Some(pass) => pass,
                    None => String::new(),
                },
            ),
        ),
        None => None,
    }
}

} // verus!
