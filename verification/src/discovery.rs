//! What the bridge tells Home Assistant when it connects: discovery of each
//! fan and light, subscriptions to the command topics, availability, and the
//! state of each entity.

use vstd::prelude::*;
use vstd::string::*;

use crate::config::{Fan, FanView};
use crate::discovery_laws::law_status_topic;
use crate::json::{
    json_fields, json_text, json_view, json_views, list_value, no_fields, null_value, number_value,
    object_value, render, set_field, text_value, Json,
};
use crate::mqtt::{
    action_views, direction_publication, fan_publications, fan_topic, kept_message,
    light_publication, publication, publish, topic, Action, ActionView, Bridge, Delivery, FanState,
    Message, BASE,
};

verus! {

/// Home Assistant's prefix for discovery topics.
pub const DISCOVERY: &'static str = "homeassistant";

/// The number of speed levels of the protocol.
pub const MAX_SPEED: u8 = 6;

/// Who makes the fans, for Home Assistant and HomeKit.
pub const MANUFACTURER: &'static str = "fan-controller";

/// The model of the fans.
pub const MODEL: &'static str = "OOK-433";

/// The device that the entities of fan `name` belong to.
pub open spec fn device_json(name: Seq<char>) -> Json {
    Json::Object(
        map![
            "identifiers"@ => Json::List(seq![Json::Text("fanctrl_"@ + name)]),
            "name"@ => Json::Text(name),
            "manufacturer"@ => Json::Text(MANUFACTURER@),
            "model"@ => Json::Text(MODEL@),
        ],
    )
}

/// The speed levels as presets, which Home Assistant shows as buttons.
pub open spec fn presets_json() -> Json {
    Json::List(
        seq![
            Json::Text("1"@),
            Json::Text("2"@),
            Json::Text("3"@),
            Json::Text("4"@),
            Json::Text("5"@),
            Json::Text("6"@),
        ],
    )
}

/// The topic that tells whether the bridge is there.
pub open spec fn status_topic() -> Seq<char> {
    BASE@ + "/status"@
}

/// The discovery of fan `name`. Without a name of its own the entity has that
/// of its device.
pub open spec fn fan_json(name: Seq<char>) -> Json {
    Json::Object(
        map![
            "name"@ => Json::Null,
            "unique_id"@ => Json::Text("fanctrl_"@ + name),
            "command_topic"@ => Json::Text(fan_topic(name, "/set"@)),
            "state_topic"@ => Json::Text(fan_topic(name, "/state"@)),
            "percentage_command_topic"@ => Json::Text(fan_topic(name, "/speed/set"@)),
            "percentage_state_topic"@ => Json::Text(fan_topic(name, "/speed/state"@)),
            "speed_range_min"@ => Json::Number(1),
            "speed_range_max"@ => Json::Number(MAX_SPEED as nat),
            "preset_mode_command_topic"@ => Json::Text(fan_topic(name, "/preset/set"@)),
            "preset_mode_state_topic"@ => Json::Text(fan_topic(name, "/preset/state"@)),
            "preset_modes"@ => presets_json(),
            "direction_command_topic"@ => Json::Text(fan_topic(name, "/direction/set"@)),
            "direction_state_topic"@ => Json::Text(fan_topic(name, "/direction/state"@)),
            "availability_topic"@ => Json::Text(status_topic()),
            "device"@ => device_json(name),
        ],
    )
}

/// The discovery of the light of fan `name`.
pub open spec fn light_json(name: Seq<char>) -> Json {
    Json::Object(
        map![
            "name"@ => Json::Text("Light"@),
            "unique_id"@ => Json::Text("fanctrl_"@ + name + "_light"@),
            "command_topic"@ => Json::Text(fan_topic(name, "/light/set"@)),
            "state_topic"@ => Json::Text(fan_topic(name, "/light/state"@)),
            "availability_topic"@ => Json::Text(status_topic()),
            "device"@ => device_json(name),
        ],
    )
}

/// What announces fan `fan`, and its light if it has one.
pub open spec fn fan_announcements(fan: FanView) -> Seq<ActionView> {
    let name = fan.name;
    let entity = publication(
        DISCOVERY@ + "/fan/fanctrl/"@ + name + "/config"@,
        json_text(fan_json(name)),
    );
    let light = publication(
        DISCOVERY@ + "/light/fanctrl/"@ + name + "_light/config"@,
        json_text(light_json(name)),
    );
    if fan.has_light {
        seq![entity, light]
    } else {
        seq![entity]
    }
}

/// What announces some fans, in order.
pub open spec fn fans_announcements(fans: Seq<FanView>) -> Seq<ActionView>
    decreases fans.len(),
{
    if fans.len() == 0 {
        Seq::empty()
    } else {
        fans_announcements(fans.drop_last()) + fan_announcements(fans.last())
    }
}

/// The command topics of all fans: `+` stands for one name.
pub open spec fn command_filters() -> Seq<Seq<char>> {
    seq![
        BASE@ + "/+/set"@,
        BASE@ + "/+/speed/set"@,
        BASE@ + "/+/preset/set"@,
        BASE@ + "/+/light/set"@,
        BASE@ + "/+/direction/set"@,
    ]
}

/// The subscription to a filter: delivered at least once.
pub open spec fn subscription(filter: Seq<char>) -> ActionView {
    ActionView::Subscribe { filter, delivery: Delivery::AtLeastOnce }
}

/// What the bridge does first on a connection.
pub open spec fn announcements(fans: Seq<FanView>) -> Seq<ActionView> {
    fans_announcements(fans) + command_filters().map_values(
        |filter: Seq<char>| subscription(filter),
    ).push(publication(status_topic(), "online"@))
}

/// What publishes the state of the entities of a fan.
pub open spec fn fan_seeds(states: Map<Seq<char>, FanState>, fan: FanView) -> Seq<ActionView> {
    let seeds = fan_publications(states, fan.name).push(direction_publication(states, fan.name));
    if fan.has_light {
        seeds.push(light_publication(states, fan.name))
    } else {
        seeds
    }
}

/// What publishes the state of the entities of some fans, in order.
pub open spec fn fans_seeds(states: Map<Seq<char>, FanState>, fans: Seq<FanView>) -> Seq<ActionView>
    decreases fans.len(),
{
    if fans.len() == 0 {
        Seq::empty()
    } else {
        fans_seeds(states, fans.drop_last()) + fan_seeds(states, fans.last())
    }
}

/// What to do on every connection: how it goes on after each action is for
/// `setup_goes_on` to say.
pub struct Setup {
    /// To be done first.
    pub announce: Vec<Action>,
    /// To be done then.
    pub seed: Vec<Action>,
}

/// Whether the setup goes on after an action, of the announcement or not, that
/// was done or failed: a failure in the announcement ends it, and later failures
/// are ignored.
pub open spec fn goes_on_after(announcing: bool, done: bool) -> bool {
    done || !announcing
}

/// Whether the setup goes on after an action.
pub fn setup_goes_on(announcing: bool, done: bool) -> (on: bool)
    ensures
        on == goes_on_after(announcing, done),
{
    done || !announcing
}

/// Whether the setup comes to action `i`, with `announce` actions in the
/// announcement, where `done` tells of each action whether it is done or fails.
pub open spec fn comes_to(announce: nat, done: spec_fn(int) -> bool, i: nat) -> bool
    decreases i,
{
    i == 0 || (comes_to(announce, done, (i - 1) as nat) && goes_on_after(
        i - 1 < announce,
        done(i - 1),
    ))
}

fn device_value(name: &str) -> (device: serde_json::Value)
    ensures
        json_view(device) == device_json(name@),
{
    let id: String = "fanctrl_".to_owned().concat(name);
    let mut ids: Vec<serde_json::Value> = Vec::new();
    ids.push(text_value(id.as_str()));
    assert(json_views(ids@) =~= seq![Json::Text("fanctrl_"@ + name@)]);
    let mut fields: serde_json::Map<String, serde_json::Value> = no_fields();
    set_field(&mut fields, "identifiers", list_value(ids));
    set_field(&mut fields, "name", text_value(name));
    set_field(&mut fields, "manufacturer", text_value(MANUFACTURER));
    set_field(&mut fields, "model", text_value(MODEL));
    object_value(fields)
}

fn presets_value() -> (presets: serde_json::Value)
    ensures
        json_view(presets) == presets_json(),
{
    let mut items: Vec<serde_json::Value> = Vec::new();
    items.push(text_value("1"));
    items.push(text_value("2"));
    items.push(text_value("3"));
    items.push(text_value("4"));
    items.push(text_value("5"));
    items.push(text_value("6"));
    assert(Json::List(json_views(items@)) == presets_json()) by {
        assert(json_views(items@) =~= presets_json()->List_0);
    }
    list_value(items)
}

fn status() -> (topic: String)
    ensures
        topic@ == status_topic(),
{
    BASE.to_owned().concat("/status")
}

fn set_topic(
    fields: &mut serde_json::Map<String, serde_json::Value>,
    field: &str,
    name: &str,
    leaf: &str,
)
    ensures
        json_fields(*final(fields)) == json_fields(*old(fields)).insert(
            field@,
            Json::Text(fan_topic(name@, leaf@)),
        ),
{
    let topic: String = topic(name, leaf);
    set_field(fields, field, text_value(topic.as_str()));
}

/// The discovery payload of fan `name`.
pub fn fan_config(name: &str) -> (payload: String)
    ensures
        payload@ == json_text(fan_json(name@)),
{
    let id: String = "fanctrl_".to_owned().concat(name);
    let mut fields: serde_json::Map<String, serde_json::Value> = no_fields();
    set_field(&mut fields, "name", null_value());
    set_field(&mut fields, "unique_id", text_value(id.as_str()));
    set_topic(&mut fields, "command_topic", name, "/set");
    set_topic(&mut fields, "state_topic", name, "/state");
    set_topic(&mut fields, "percentage_command_topic", name, "/speed/set");
    set_topic(&mut fields, "percentage_state_topic", name, "/speed/state");
    set_field(&mut fields, "speed_range_min", number_value(1));
    set_field(&mut fields, "speed_range_max", number_value(MAX_SPEED as u64));
    set_topic(&mut fields, "preset_mode_command_topic", name, "/preset/set");
    set_topic(&mut fields, "preset_mode_state_topic", name, "/preset/state");
    set_field(&mut fields, "preset_modes", presets_value());
    set_topic(&mut fields, "direction_command_topic", name, "/direction/set");
    set_topic(&mut fields, "direction_state_topic", name, "/direction/state");
    set_field(&mut fields, "availability_topic", text_value(status().as_str()));
    set_field(&mut fields, "device", device_value(name));
    render(&object_value(fields))
}

/// The discovery payload of the light of fan `name`.
pub fn light_config(name: &str) -> (payload: String)
    ensures
        payload@ == json_text(light_json(name@)),
{
    let id: String = "fanctrl_".to_owned().concat(name).concat("_light");
    let mut fields: serde_json::Map<String, serde_json::Value> = no_fields();
    set_field(&mut fields, "name", text_value("Light"));
    set_field(&mut fields, "unique_id", text_value(id.as_str()));
    set_topic(&mut fields, "command_topic", name, "/light/set");
    set_topic(&mut fields, "state_topic", name, "/light/state");
    set_field(&mut fields, "availability_topic", text_value(status().as_str()));
    set_field(&mut fields, "device", device_value(name));
    render(&object_value(fields))
}

fn announce_fan(actions: &mut Vec<Action>, fan: &Fan)
    ensures
        action_views(final(actions)@) == action_views(old(actions)@) + fan_announcements(fan@),
{
    let ghost before = action_views(actions@);
    let name: &str = fan.name.as_str();
    let topic: String = DISCOVERY.to_owned().concat("/fan/fanctrl/").concat(name).concat("/config");
    publish(actions, topic, fan_config(name));
    if fan.has_light {
        let topic: String = DISCOVERY.to_owned().concat("/light/fanctrl/").concat(name).concat(
            "_light/config",
        );
        publish(actions, topic, light_config(name));
    }
    assert(action_views(actions@) =~= before + fan_announcements(fan@));
}

fn subscribe(actions: &mut Vec<Action>, leaf: &str)
    ensures
        action_views(final(actions)@) == action_views(old(actions)@).push(
            subscription(BASE@ + leaf@),
        ),
{
    let ghost before = actions@;
    let filter: String = BASE.to_owned().concat(leaf);
    let action: Action = Action::Subscribe { filter, delivery: Delivery::AtLeastOnce };
    actions.push(action);
    assert(action_views(actions@) =~= action_views(before).push(action@));
}

/// What the broker is to publish where the bridge drops off.
pub fn last_will() -> (will: Message)
    ensures
        will@ == kept_message(status_topic(), "offline"@),
        will.topic@ == "fanctrl/status"@,
        will.payload@ == "offline"@,
        will.retain,
        will.delivery == Delivery::AtLeastOnce,
{
    proof {
        law_status_topic();
    }
    Message {
        topic: status(),
        payload: "offline".to_owned(),
        retain: true,
        delivery: Delivery::AtLeastOnce,
    }
}

impl Bridge {
    fn seed_fan(&self, actions: &mut Vec<Action>, fan: &Fan)
        ensures
            action_views(final(actions)@) == action_views(old(actions)@) + fan_seeds(
                self.fans@,
                fan@,
            ),
    {
        let ghost before = action_views(actions@);
        self.publish_fan_state(actions, fan.name.as_str());
        self.publish_direction_state(actions, fan.name.as_str());
        if fan.has_light {
            self.publish_light_state(actions, fan.name.as_str());
        }
        assert(action_views(actions@) =~= before + fan_seeds(self.fans@, fan@));
    }

    /// What to do on every connection: announce the fans, subscribe to the
    /// command topics, announce the bridge, and publish every state, so that
    /// Home Assistant shows something before the first command.
    pub fn setup(&self) -> (setup: Setup)
        ensures
            action_views(setup.announce@) == announcements(self.config@),
            action_views(setup.seed@) == fans_seeds(self.fans@, self.config@),
    {
        let ghost fans = self.config@;
        let mut announce: Vec<Action> = Vec::new();
        let mut seed: Vec<Action> = Vec::new();
        let mut i: usize = 0;
        assert(action_views(announce@) =~= fans_announcements(fans.take(0)));
        assert(action_views(seed@) =~= fans_seeds(self.fans@, fans.take(0)));
        while i < self.config.fans.len()
            invariant
                i <= self.config.fans@.len(),
                fans == self.config@,
                action_views(announce@) == fans_announcements(fans.take(i as int)),
                action_views(seed@) == fans_seeds(self.fans@, fans.take(i as int)),
            decreases self.config.fans@.len() - i,
        {
            announce_fan(&mut announce, &self.config.fans[i]);
            self.seed_fan(&mut seed, &self.config.fans[i]);
            assert(fans.take(i + 1).drop_last() =~= fans.take(i as int));
            assert(fans.take(i + 1).last() == self.config.fans@[i as int]@);
            i = i + 1;
        }
        assert(fans.take(i as int) =~= fans);
        subscribe(&mut announce, "/+/set");
        subscribe(&mut announce, "/+/speed/set");
        subscribe(&mut announce, "/+/preset/set");
        subscribe(&mut announce, "/+/light/set");
        subscribe(&mut announce, "/+/direction/set");
        publish(&mut announce, status(), "online".to_owned());
        assert(action_views(announce@) =~= announcements(fans));
        Setup { announce, seed }
    }
}

} // verus!
