//! Laws of what the bridge tells Home Assistant when it connects.

use vstd::prelude::*;

use crate::config::FanView;
use crate::discovery::{
    announcements, command_filters, device_json, fan_announcements, fan_json, fan_seeds,
    fans_announcements, fans_seeds, light_json, presets_json, status_topic, subscription,
};
use crate::json::{json_text, json_view, json_views, no_members, Json};
use crate::message_laws::{law_fan_is_told, law_light_and_direction_are_told, law_topics};
use crate::mqtt::{publication, state_of, ActionView, Delivery, FanState};
use crate::text::numeral;

verus! {

/// How many of the fans have a light.
pub open spec fn lights(fans: Seq<FanView>) -> nat
    decreases fans.len(),
{
    if fans.len() == 0 {
        0
    } else {
        lights(fans.drop_last()) + if fans.last().has_light {
            1nat
        } else {
            0
        }
    }
}

/// What announces the fan of that name.
pub open spec fn fan_entity(name: Seq<char>) -> ActionView {
    publication("homeassistant/fan/fanctrl/"@ + name + "/config"@, json_text(fan_json(name)))
}

/// What announces the light of the fan of that name.
pub open spec fn light_entity(name: Seq<char>) -> ActionView {
    publication(
        "homeassistant/light/fanctrl/"@ + name + "_light/config"@,
        json_text(light_json(name)),
    )
}

proof fn lemma_entities(fan: FanView)
    ensures
        fan.has_light ==> fan_announcements(fan) == seq![
            fan_entity(fan.name),
            light_entity(fan.name),
        ],
        !fan.has_light ==> fan_announcements(fan) == seq![fan_entity(fan.name)],
{
    reveal_strlit("homeassistant");
    reveal_strlit("/fan/fanctrl/");
    reveal_strlit("/light/fanctrl/");
    reveal_strlit("homeassistant/fan/fanctrl/");
    reveal_strlit("homeassistant/light/fanctrl/");
    assert("homeassistant"@ + "/fan/fanctrl/"@ =~= "homeassistant/fan/fanctrl/"@);
    assert("homeassistant"@ + "/light/fanctrl/"@ =~= "homeassistant/light/fanctrl/"@);
}

proof fn lemma_fans_announced(fans: Seq<FanView>)
    ensures
        fans_announcements(fans).len() == fans.len() + lights(fans),
    decreases fans.len(),
{
    if fans.len() > 0 {
        lemma_fans_announced(fans.drop_last());
        lemma_entities(fans.last());
    }
}

proof fn lemma_fan_announced_at(fans: Seq<FanView>, i: int)
    requires
        0 <= i < fans.len(),
    ensures
        ({
            let at = i + lights(fans.take(i));
            let all = fans_announcements(fans);
            &&& at < all.len()
            &&& all[at] == fan_entity(fans[i].name)
            &&& fans[i].has_light ==> at + 1 < all.len() && all[at + 1] == light_entity(
                fans[i].name,
            )
        }),
    decreases fans.len(),
{
    lemma_fans_announced(fans.drop_last());
    lemma_entities(fans.last());
    if i < fans.len() - 1 {
        lemma_fan_announced_at(fans.drop_last(), i);
        assert(fans.drop_last().take(i) =~= fans.take(i));
        assert(fans.drop_last()[i] == fans[i]);
    } else {
        assert(fans.take(i) =~= fans.drop_last());
    }
}

/// Each fan is announced in its place, whatever its buttons, and its light right
/// behind it where it has one; there are no other announcements of fans or lights
/// than these.
pub proof fn law_fans_are_announced(fans: Seq<FanView>, i: int)
    requires
        0 <= i < fans.len(),
    ensures
        ({
            let at = i + lights(fans.take(i));
            let name = fans[i].name;
            let all = announcements(fans);
            &&& all.len() == fans.len() + lights(fans) + 6
            &&& all[at] == publication(
                "homeassistant/fan/fanctrl/"@ + name + "/config"@,
                json_text(fan_json(name)),
            )
            &&& fans[i].has_light ==> all[at + 1] == publication(
                "homeassistant/light/fanctrl/"@ + name + "_light/config"@,
                json_text(light_json(name)),
            )
            &&& !fans[i].has_light && i + 1 < fans.len() ==> all[at + 1] == publication(
                "homeassistant/fan/fanctrl/"@ + fans[i + 1].name + "/config"@,
                json_text(fan_json(fans[i + 1].name)),
            )
        }),
{
    lemma_fans_announced(fans);
    lemma_fan_announced_at(fans, i);
    if i + 1 < fans.len() {
        lemma_fan_announced_at(fans, i + 1);
        assert(fans.take(i + 1).drop_last() =~= fans.take(i));
        assert(fans.take(i + 1).last() == fans[i]);
    }
}

/// Behind the fans come the subscriptions to the five command topics, and last of
/// all the bridge is announced.
pub proof fn law_subscriptions_and_status(fans: Seq<FanView>)
    ensures
        ({
            let all = announcements(fans);
            let at = (fans.len() + lights(fans)) as int;
            let sure = Delivery::AtLeastOnce;
            &&& all.len() == at + 6
            &&& all[at] == (ActionView::Subscribe { filter: "fanctrl/+/set"@, delivery: sure })
            &&& all[at + 1] == (ActionView::Subscribe {
                filter: "fanctrl/+/speed/set"@,
                delivery: sure,
            })
            &&& all[at + 2] == (ActionView::Subscribe {
                filter: "fanctrl/+/preset/set"@,
                delivery: sure,
            })
            &&& all[at + 3] == (ActionView::Subscribe {
                filter: "fanctrl/+/light/set"@,
                delivery: sure,
            })
            &&& all[at + 4] == (ActionView::Subscribe {
                filter: "fanctrl/+/direction/set"@,
                delivery: sure,
            })
            &&& all[at + 5] == publication("fanctrl/status"@, "online"@)
        }),
{
    lemma_fans_announced(fans);
    law_status_topic();
    reveal_strlit("fanctrl");
    reveal_strlit("/+/set");
    reveal_strlit("fanctrl/+/set");
    reveal_strlit("/+/speed/set");
    reveal_strlit("fanctrl/+/speed/set");
    reveal_strlit("/+/preset/set");
    reveal_strlit("fanctrl/+/preset/set");
    reveal_strlit("/+/light/set");
    reveal_strlit("fanctrl/+/light/set");
    reveal_strlit("/+/direction/set");
    reveal_strlit("fanctrl/+/direction/set");
    let filters = command_filters();
    assert(filters[0] =~= "fanctrl/+/set"@);
    assert(filters[1] =~= "fanctrl/+/speed/set"@);
    assert(filters[2] =~= "fanctrl/+/preset/set"@);
    assert(filters[3] =~= "fanctrl/+/light/set"@);
    assert(filters[4] =~= "fanctrl/+/direction/set"@);
    let all = announcements(fans);
    let at = (fans.len() + lights(fans)) as int;
    assert(all[at] == subscription(filters[0]));
    assert(all[at + 1] == subscription(filters[1]));
    assert(all[at + 2] == subscription(filters[2]));
    assert(all[at + 3] == subscription(filters[3]));
    assert(all[at + 4] == subscription(filters[4]));
}

/// Whether the bridge is there is told on `fanctrl/status`.
pub proof fn law_status_topic()
    ensures
        status_topic() == "fanctrl/status"@,
{
    reveal_strlit("fanctrl");
    reveal_strlit("/status");
    reveal_strlit("fanctrl/status");
    assert(status_topic() =~= "fanctrl/status"@);
}

/// Whose an announcement of fans and lights is.
proof fn lemma_whose_announcement(fans: Seq<FanView>, k: int) -> (j: int)
    requires
        0 <= k < fans_announcements(fans).len(),
    ensures
        0 <= j < fans.len(),
        fans_announcements(fans)[k] == fan_entity(fans[j].name) || fans[j].has_light
            && fans_announcements(fans)[k] == light_entity(fans[j].name),
    decreases fans.len(),
{
    let before = fans_announcements(fans.drop_last());
    if fans.len() > 0 && k < before.len() {
        let j = lemma_whose_announcement(fans.drop_last(), k);
        assert(fans.drop_last()[j] == fans[j]);
        j
    } else {
        lemma_entities(fans.last());
        assert(fans_announcements(fans)[k] == fan_announcements(fans.last())[k - before.len()]);
        fans.len() - 1
    }
}

/// With distinct names, the light of a fan is announced exactly where the fan has
/// one, and nothing at all is published on its discovery topic where it has none;
/// the fan itself is always announced.
pub proof fn law_lights_are_announced_where_they_are(fans: Seq<FanView>, i: int)
    requires
        0 <= i < fans.len(),
        forall|j: int, k: int|
            0 <= j < k < fans.len() ==> (#[trigger] fans[j]).name != (#[trigger] fans[k]).name,
    ensures
        ({
            let name = fans[i].name;
            let all = announcements(fans);
            &&& all.contains(
                publication(
                    "homeassistant/fan/fanctrl/"@ + name + "/config"@,
                    json_text(fan_json(name)),
                ),
            )
            &&& all.contains(
                publication(
                    "homeassistant/light/fanctrl/"@ + name + "_light/config"@,
                    json_text(light_json(name)),
                ),
            ) <==> fans[i].has_light
            &&& !fans[i].has_light ==> forall|payload: Seq<char>|
                !all.contains(
                    #[trigger] publication(
                        "homeassistant/light/fanctrl/"@ + name + "_light/config"@,
                        payload,
                    ),
                )
        }),
{
    let name = fans[i].name;
    let all = announcements(fans);
    let at = i + lights(fans.take(i));
    law_fans_are_announced(fans, i);
    lemma_fan_announced_at(fans, i);
    assert(all.contains(all[at]));
    if fans[i].has_light {
        assert(all.contains(all[at + 1]));
    } else {
        let topic = "homeassistant/light/fanctrl/"@ + name + "_light/config"@;
        assert forall|payload: Seq<char>| !all.contains(#[trigger] publication(topic, payload)) by {
            let action = publication(topic, payload);
            if all.contains(action) {
                let k = all.index_of(action);
                reveal_strlit("homeassistant/fan/fanctrl/");
                reveal_strlit("homeassistant/light/fanctrl/");
                reveal_strlit("_light/config");
                reveal_strlit("fanctrl/status");
                if k < fans_announcements(fans).len() {
                    let j = lemma_whose_announcement(fans, k);
                    let other = fans[j].name;
                    let fan_topic = "homeassistant/fan/fanctrl/"@ + other + "/config"@;
                    let light_topic = "homeassistant/light/fanctrl/"@ + other + "_light/config"@;
                    assert(topic[14] == 'l');
                    assert(fan_topic[14] == 'f');
                    if topic == light_topic {
                        assert(topic.len() == light_topic.len());
                        assert(topic.subrange(28, 28int + name.len()) =~= name);
                        assert(light_topic.subrange(28, 28int + other.len()) =~= other);
                        assert(name == other);
                        assert(i < j ==> fans[i].name != fans[j].name);
                        assert(j < i ==> fans[j].name != fans[i].name);
                    }
                } else {
                    law_subscriptions_and_status(fans);
                    lemma_fans_announced(fans);
                    let n = fans.len() + lights(fans);
                    assert(k == n || k == n + 1 || k == n + 2 || k == n + 3 || k == n + 4 || k == n
                        + 5);
                    assert("fanctrl/status"@[0] == 'f');
                    assert(topic[0] == 'h');
                }
            }
        }
    }
}

/// What publishes the states of a fan: whether it is on, its speed twice, its
/// direction, and its light where it has one.
pub proof fn law_seeds_of_a_fan(states: Map<Seq<char>, FanState>, fan: FanView)
    ensures
        ({
            let state = state_of(states, fan.name);
            let start = "fanctrl/"@ + fan.name;
            let seeds = fan_seeds(states, fan);
            &&& seeds.len() == (if fan.has_light {
                5nat
            } else {
                4
            })
            &&& seeds[0] == publication(
                start + "/state"@,
                if state.on {
                    "ON"@
                } else {
                    "OFF"@
                },
            )
            &&& seeds[1] == publication(
                start + "/speed/state"@,
                numeral(state.speed as nat, 10),
            )
            &&& seeds[2] == publication(
                start + "/preset/state"@,
                numeral(state.speed as nat, 10),
            )
            &&& seeds[3] == publication(
                start + "/direction/state"@,
                if state.forward {
                    "forward"@
                } else {
                    "reverse"@
                },
            )
            &&& fan.has_light ==> seeds[4] == publication(
                start + "/light/state"@,
                if state.light {
                    "ON"@
                } else {
                    "OFF"@
                },
            )
        }),
{
    law_fan_is_told(states, fan.name);
    law_light_and_direction_are_told(states, fan.name);
}

proof fn lemma_seeds_len(states: Map<Seq<char>, FanState>, fans: Seq<FanView>)
    ensures
        fans_seeds(states, fans).len() == 4 * fans.len() + lights(fans),
    decreases fans.len(),
{
    if fans.len() > 0 {
        lemma_seeds_len(states, fans.drop_last());
        law_seeds_of_a_fan(states, fans.last());
    }
}

/// The states of every fan are published in its place, and nothing else is.
pub proof fn law_every_state_is_seeded(
    states: Map<Seq<char>, FanState>,
    fans: Seq<FanView>,
    i: int,
    k: int,
)
    requires
        0 <= i < fans.len(),
        0 <= k < (if fans[i].has_light {
            5int
        } else {
            4
        }),
    ensures
        fans_seeds(states, fans).len() == 4 * fans.len() + lights(fans),
        fans_seeds(states, fans)[4 * i + lights(fans.take(i)) + k] == fan_seeds(states, fans[i])[k],
    decreases fans.len(),
{
    lemma_seeds_len(states, fans);
    lemma_seeds_len(states, fans.drop_last());
    law_seeds_of_a_fan(states, fans.last());
    let before = fans_seeds(states, fans.drop_last());
    if i < fans.len() - 1 {
        law_every_state_is_seeded(states, fans.drop_last(), i, k);
        assert(fans.drop_last().take(i) =~= fans.take(i));
        assert(fans.drop_last()[i] == fans[i]);
        lemma_seed_fits(states, fans.drop_last(), i, k);
    } else {
        assert(fans.take(i) =~= fans.drop_last());
    }
}

proof fn lemma_seed_fits(states: Map<Seq<char>, FanState>, fans: Seq<FanView>, i: int, k: int)
    requires
        0 <= i < fans.len(),
        0 <= k < (if fans[i].has_light {
            5int
        } else {
            4
        }),
    ensures
        4 * i + lights(fans.take(i)) + k < 4 * fans.len() + lights(fans),
    decreases fans.len(),
{
    if i < fans.len() - 1 {
        lemma_seed_fits(states, fans.drop_last(), i, k);
        assert(fans.drop_last().take(i) =~= fans.take(i));
        assert(fans.drop_last()[i] == fans[i]);
    } else {
        assert(fans.take(i) =~= fans.drop_last());
    }
}

/// The discovery of a fan: where it is commanded, where its states are told, the
/// speeds from 1 to 6 as a range and as presets, where the bridge tells whether it
/// is there, and the device that it belongs to, whose name it has.
pub proof fn law_fan_discovery(name: Seq<char>)
    ensures
        fan_json(name) matches Json::Object(fields) && {
            let start = "fanctrl/"@ + name;
            &&& fields["name"@] == Json::Null
            &&& fields["unique_id"@] == Json::Text("fanctrl_"@ + name)
            &&& fields["command_topic"@] == Json::Text(start + "/set"@)
            &&& fields["state_topic"@] == Json::Text(start + "/state"@)
            &&& fields["percentage_command_topic"@] == Json::Text(start + "/speed/set"@)
            &&& fields["percentage_state_topic"@] == Json::Text(start + "/speed/state"@)
            &&& fields["speed_range_min"@] == Json::Number(1)
            &&& fields["speed_range_max"@] == Json::Number(6)
            &&& fields["preset_mode_command_topic"@] == Json::Text(start + "/preset/set"@)
            &&& fields["preset_mode_state_topic"@] == Json::Text(start + "/preset/state"@)
            &&& fields["direction_command_topic"@] == Json::Text(start + "/direction/set"@)
            &&& fields["direction_state_topic"@] == Json::Text(start + "/direction/state"@)
            &&& fields["availability_topic"@] == Json::Text("fanctrl/status"@)
            &&& fields["device"@] == device_json(name)
            &&& fields["preset_modes"@] matches Json::List(presets) && presets.len() == 6 && (
            forall|level: int|
                1 <= level <= 6 ==> #[trigger] presets[level - 1] == Json::Text(
                    numeral(level as nat, 10),
                ))
            &&& fields.dom() == set![
                "name"@,
                "unique_id"@,
                "command_topic"@,
                "state_topic"@,
                "percentage_command_topic"@,
                "percentage_state_topic"@,
                "speed_range_min"@,
                "speed_range_max"@,
                "preset_mode_command_topic"@,
                "preset_mode_state_topic"@,
                "preset_modes"@,
                "direction_command_topic"@,
                "direction_state_topic"@,
                "availability_topic"@,
                "device"@,
            ]
        },
{
    law_topics(name, "/set"@);
    law_topics(name, "/state"@);
    law_topics(name, "/speed/set"@);
    law_topics(name, "/speed/state"@);
    law_topics(name, "/preset/set"@);
    law_topics(name, "/preset/state"@);
    law_topics(name, "/direction/set"@);
    law_topics(name, "/direction/state"@);
    law_status_topic();
    lemma_fan_fields();
    lemma_presets();
    assert(fan_json(name)->Object_0.dom() =~= set![
        "name"@,
        "unique_id"@,
        "command_topic"@,
        "state_topic"@,
        "percentage_command_topic"@,
        "percentage_state_topic"@,
        "speed_range_min"@,
        "speed_range_max"@,
        "preset_mode_command_topic"@,
        "preset_mode_state_topic"@,
        "preset_modes"@,
        "direction_command_topic"@,
        "direction_state_topic"@,
        "availability_topic"@,
        "device"@,
    ]);
}

/// The names of the members differ: most in length.
proof fn lemma_fan_fields()
    ensures
        "name"@.len() == 4,
        "unique_id"@.len() == 9,
        "command_topic"@.len() == 13,
        "state_topic"@.len() == 11,
        "percentage_command_topic"@.len() == 24,
        "percentage_state_topic"@.len() == 22,
        "speed_range_min"@.len() == 15,
        "speed_range_max"@.len() == 15,
        "speed_range_min"@ != "speed_range_max"@,
        "preset_mode_command_topic"@.len() == 25,
        "preset_mode_state_topic"@.len() == 23,
        "preset_modes"@.len() == 12,
        "direction_command_topic"@.len() == 23,
        "preset_mode_state_topic"@ != "direction_command_topic"@,
        "direction_state_topic"@.len() == 21,
        "availability_topic"@.len() == 18,
        "device"@.len() == 6,
{
    reveal_strlit("name");
    reveal_strlit("unique_id");
    reveal_strlit("command_topic");
    reveal_strlit("state_topic");
    reveal_strlit("percentage_command_topic");
    reveal_strlit("percentage_state_topic");
    reveal_strlit("speed_range_min");
    reveal_strlit("speed_range_max");
    reveal_strlit("preset_mode_command_topic");
    reveal_strlit("preset_mode_state_topic");
    reveal_strlit("preset_modes");
    reveal_strlit("direction_command_topic");
    reveal_strlit("direction_state_topic");
    reveal_strlit("availability_topic");
    reveal_strlit("device");
    assert("speed_range_min"@[13] == 'i');
    assert("speed_range_max"@[13] == 'a');
    assert("preset_mode_state_topic"@[0] == 'p');
    assert("direction_command_topic"@[0] == 'd');
}

proof fn lemma_presets()
    ensures
        presets_json() matches Json::List(presets) && presets.len() == 6 && (forall|level: int|
            1 <= level <= 6 ==> #[trigger] presets[level - 1] == Json::Text(
                numeral(level as nat, 10),
            )),
{
    reveal_strlit("1");
    reveal_strlit("2");
    reveal_strlit("3");
    reveal_strlit("4");
    reveal_strlit("5");
    reveal_strlit("6");
    assert(numeral(1, 10) =~= "1"@);
    assert(numeral(2, 10) =~= "2"@);
    assert(numeral(3, 10) =~= "3"@);
    assert(numeral(4, 10) =~= "4"@);
    assert(numeral(5, 10) =~= "5"@);
    assert(numeral(6, 10) =~= "6"@);
}

/// The discovery of a light: where it is commanded, where its state is told, where
/// the bridge tells whether it is there, and the device of its fan.
pub proof fn law_light_discovery(name: Seq<char>)
    ensures
        light_json(name) matches Json::Object(fields) && {
            let start = "fanctrl/"@ + name;
            &&& fields["name"@] == Json::Text("Light"@)
            &&& fields["unique_id"@] == Json::Text("fanctrl_"@ + name + "_light"@)
            &&& fields["command_topic"@] == Json::Text(start + "/light/set"@)
            &&& fields["state_topic"@] == Json::Text(start + "/light/state"@)
            &&& fields["availability_topic"@] == Json::Text("fanctrl/status"@)
            &&& fields["device"@] == device_json(name)
            &&& fields.dom() == set![
                "name"@,
                "unique_id"@,
                "command_topic"@,
                "state_topic"@,
                "availability_topic"@,
                "device"@,
            ]
        },
{
    law_topics(name, "/light/set"@);
    law_topics(name, "/light/state"@);
    law_status_topic();
    lemma_fan_fields();
    assert(light_json(name)->Object_0.dom() =~= set![
        "name"@,
        "unique_id"@,
        "command_topic"@,
        "state_topic"@,
        "availability_topic"@,
        "device"@,
    ]);
}

/// The device of a fan has its name, and an identifier that is that of no other.
pub proof fn law_device(name: Seq<char>)
    ensures
        device_json(name) matches Json::Object(fields) && {
            &&& fields["identifiers"@] == Json::List(seq![Json::Text("fanctrl_"@ + name)])
            &&& fields["name"@] == Json::Text(name)
            &&& fields["manufacturer"@] == Json::Text("fan-controller"@)
            &&& fields["model"@] == Json::Text("OOK-433"@)
            &&& fields.dom() == set!["identifiers"@, "name"@, "manufacturer"@, "model"@]
        },
{
    reveal_strlit("identifiers");
    reveal_strlit("name");
    reveal_strlit("manufacturer");
    reveal_strlit("model");
    assert("identifiers"@.len() == 11 && "name"@.len() == 4 && "manufacturer"@.len() == 12
        && "model"@.len() == 5);
    assert(device_json(name)->Object_0.dom() =~= set![
        "identifiers"@,
        "name"@,
        "manufacturer"@,
        "model"@,
    ]);
}

/// Fans of different names are told apart: their identifiers differ, and so do
/// those of their lights and of a fan and its own light.
pub proof fn law_identifiers_differ(a: Seq<char>, b: Seq<char>)
    requires
        a != b,
    ensures
        fan_json(a)->Object_0["unique_id"@] != fan_json(b)->Object_0["unique_id"@],
        light_json(a)->Object_0["unique_id"@] != light_json(b)->Object_0["unique_id"@],
        fan_json(a)->Object_0["unique_id"@] != light_json(a)->Object_0["unique_id"@],
{
    law_fan_discovery(a);
    law_fan_discovery(b);
    law_light_discovery(a);
    law_light_discovery(b);
    reveal_strlit("fanctrl_");
    reveal_strlit("_light");
    let (x, y) = ("fanctrl_"@ + a, "fanctrl_"@ + b);
    if x == y {
        assert(x.skip(8) =~= a);
        assert(y.skip(8) =~= b);
    }
    let (u, v) = (x + "_light"@, y + "_light"@);
    if u == v {
        assert(u.len() == v.len());
        assert(u.subrange(8, u.len() - 6) =~= a);
        assert(v.subrange(8, v.len() - 6) =~= b);
    }
    assert(u.len() != x.len());
}

/// Some values are each of them in order, and an object without members has none.
pub proof fn law_json_values(values: Seq<serde_json::Value>, i: int)
    requires
        0 <= i < values.len(),
    ensures
        json_views(values).len() == values.len(),
        json_views(values)[i] == json_view(values[i]),
        no_members() == Map::<Seq<char>, Json>::empty(),
{
}

} // verus!
