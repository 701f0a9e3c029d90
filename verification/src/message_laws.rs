//! Laws of the MQTT bridge from message to response: for every message, what is
//! sent, what is published, on which topic and with which payload, and what is
//! known of each fan afterwards.

use vstd::prelude::*;
use vstd::utf8::*;

use crate::config::{absolute_direction, FanView};
use crate::config_laws::{law_direction_buttons, law_rooms_have_no_direction_buttons};
use crate::mqtt::{
    accepted, action_views, direction_publication, fan_publications, fan_topic, fans_publications,
    light_publication, next_states, payload_text, proper_speeds, publication, request_of,
    responses, responses_to, speed_command, state_of, states_after, target_of, Action, ActionView,
    Delivery, FanState, Message, Request, BASE,
};
use crate::mqtt_laws::{lemma_publications_at, lemma_short_topic};
use crate::speed::{speed_level, zero_speed};
use crate::text::{lemma_split_single, numeral, same_but_case, split, trimmed};
use crate::text_laws::{joined, law_split_at_separator, law_split_joins_back};

verus! {

/// Whatever is published is kept by the broker and delivered at least once.
pub proof fn law_publications_are_kept(topic: Seq<char>, payload: Seq<char>)
    ensures
        publication(topic, payload) matches ActionView::Publish(message) && message.topic == topic
            && message.payload == payload && message.retain && message.delivery
            == Delivery::AtLeastOnce,
{
}

/// The topics of a fan are under `fanctrl/` and its name.
pub proof fn law_topics(name: Seq<char>, leaf: Seq<char>)
    ensures
        fan_topic(name, leaf) == "fanctrl/"@ + name + leaf,
{
    reveal_strlit("fanctrl/");
    reveal_strlit("fanctrl");
    reveal_strlit("/");
    assert(fan_topic(name, leaf) =~= "fanctrl/"@ + name + leaf);
}

/// What an action is is what it holds, and some actions are each of them in order.
pub proof fn law_actions_are_what_they_hold(actions: Seq<Action>, i: int)
    requires
        0 <= i < actions.len(),
    ensures
        action_views(actions).len() == actions.len(),
        actions[i] matches Action::Publish(message) ==> action_views(actions)[i]
            matches ActionView::Publish(told) && told.topic == message.topic@ && told.payload
            == message.payload@ && told.retain == message.retain && told.delivery
            == message.delivery,
        actions[i] matches Action::Subscribe { filter, delivery } ==> action_views(actions)[i]
            matches ActionView::Subscribe { filter: wanted, delivery: sure } && wanted == filter@
            && sure == delivery,
        actions[i] matches Action::Transmit { target, cmd } ==> action_views(actions)[i]
            matches ActionView::Transmit { target: who, cmd: what } && who == target@ && what
            == cmd@,
{
}

/// What a message is is what it holds.
pub proof fn law_messages_are_what_they_hold(message: Message)
    ensures
        message@.topic == message.topic@,
        message@.payload == message.payload@,
        message@.retain == message.retain,
        message@.delivery == message.delivery,
{
}

/// What was recorded of a fan is known of it; a fan of which nothing was recorded
/// is off, at speed 3, with its light off, and turns forward.
pub proof fn law_states(states: Map<Seq<char>, FanState>, name: Seq<char>)
    ensures
        states.contains_key(name) ==> state_of(states, name) == states[name],
        !states.contains_key(name) ==> !state_of(states, name).on && state_of(states, name).speed
            == 3 && !state_of(states, name).light && state_of(states, name).forward,
{
}

/// Of a fan it is published whether it is on, whatever else is known of it, and
/// its speed in decimal, as a level and as a preset.
pub proof fn law_fan_is_told(states: Map<Seq<char>, FanState>, name: Seq<char>)
    ensures
        ({
            let told = fan_publications(states, name);
            let speed = numeral(state_of(states, name).speed as nat, 10);
            &&& told.len() == 3
            &&& state_of(states, name).on ==> told[0] == publication(
                "fanctrl/"@ + name + "/state"@,
                "ON"@,
            )
            &&& !state_of(states, name).on ==> told[0] == publication(
                "fanctrl/"@ + name + "/state"@,
                "OFF"@,
            )
            &&& told[1] == publication("fanctrl/"@ + name + "/speed/state"@, speed)
            &&& told[2] == publication("fanctrl/"@ + name + "/preset/state"@, speed)
        }),
{
    law_topics(name, "/state"@);
    law_topics(name, "/speed/state"@);
    law_topics(name, "/preset/state"@);
}

/// Of a light it is published whether it is on, and of a direction which it is,
/// whatever else is known of the fan.
pub proof fn law_light_and_direction_are_told(states: Map<Seq<char>, FanState>, name: Seq<char>)
    ensures
        light_publication(states, name) == publication(
            "fanctrl/"@ + name + "/light/state"@,
            if state_of(states, name).light {
                "ON"@
            } else {
                "OFF"@
            },
        ),
        direction_publication(states, name) == publication(
            "fanctrl/"@ + name + "/direction/state"@,
            if state_of(states, name).forward {
                "forward"@
            } else {
                "reverse"@
            },
        ),
{
    law_topics(name, "/light/state"@);
    law_topics(name, "/direction/state"@);
}

/// The states of some fans are told one after the other.
pub proof fn law_fans_are_told_in_order(
    states: Map<Seq<char>, FanState>,
    names: Seq<Seq<char>>,
    i: int,
)
    requires
        0 <= i < names.len(),
    ensures
        fans_publications(states, names).len() == 3 * names.len(),
        fans_publications(states, names)[3 * i] == fan_publications(states, names[i])[0],
        fans_publications(states, names)[3 * i + 1] == fan_publications(states, names[i])[1],
        fans_publications(states, names)[3 * i + 2] == fan_publications(states, names[i])[2],
{
    lemma_publications_at(states, names, i);
    let all = fans_publications(states, names);
    let mine = all.subrange(3 * i, 3 + 3 * i);
    assert(mine[0] == all[3 * i] && mine[1] == all[3 * i + 1] && mine[2] == all[3 * i + 2]);
}

/// What a request for power or a speed leads to: one transmission to the target,
/// and then, for each of its fans in order, whether it is on, and its speed twice:
/// the commanded one, or where the target is turned off the one that was known of
/// the fan.
proof fn lemma_switched(
    states: Map<Seq<char>, FanState>,
    target: Seq<char>,
    names: Seq<Seq<char>>,
    absolute: bool,
    request: Request,
    on: bool,
    speed: Option<u8>,
    cmd: Seq<char>,
    i: int,
    name: Seq<char>,
)
    requires
        match request {
            Request::Power(true) => on && speed == Some(3u8) && cmd == "speed3"@,
            Request::Power(false) => !on && speed is None && cmd == "off"@,
            Request::Speed(level) => on && speed == Some(level) && cmd == "speed"@ + numeral(
                level as nat,
                10,
            ),
            _ => false,
        },
    ensures
        ({
            let done = responses(states, target, names, absolute, request);
            let after = next_states(states, target, names, request);
            let level = if speed is Some {
                speed->0
            } else {
                state_of(states, names[i]).speed
            };
            &&& done.len() == 1 + 3 * names.len()
            &&& done[0] == (ActionView::Transmit { target, cmd })
            &&& 0 <= i < names.len() ==> done[1 + 3 * i] == publication(
                "fanctrl/"@ + names[i] + "/state"@,
                if on {
                    "ON"@
                } else {
                    "OFF"@
                },
            )
            &&& 0 <= i < names.len() ==> done[2 + 3 * i] == publication(
                "fanctrl/"@ + names[i] + "/speed/state"@,
                numeral(level as nat, 10),
            )
            &&& 0 <= i < names.len() ==> done[3 + 3 * i] == publication(
                "fanctrl/"@ + names[i] + "/preset/state"@,
                numeral(level as nat, 10),
            )
            &&& name == target || names.contains(name) ==> state_of(after, name) == (FanState {
                on,
                speed: if speed is Some {
                    speed->0
                } else {
                    state_of(states, name).speed
                },
                light: state_of(states, name).light,
                forward: state_of(states, name).forward,
            })
            &&& name != target && !names.contains(name) ==> state_of(after, name) == state_of(
                states,
                name,
            )
        }),
{
    let done = responses(states, target, names, absolute, request);
    let after = next_states(states, target, names, request);
    reveal_strlit("speed");
    reveal_strlit("speed3");
    assert(speed_command(3) =~= "speed3"@);
    let published = fans_publications(after, names);
    assert(done.len() == 1 + published.len());
    if names.len() > 0 {
        law_fans_are_told_in_order(after, names, 0);
    }
    if 0 <= i < names.len() {
        assert(names.contains(names[i]));
        law_fans_are_told_in_order(after, names, i);
        law_fan_is_told(after, names[i]);
        assert(done[1 + 3 * i] == published[3 * i]);
        assert(done[2 + 3 * i] == published[3 * i + 1]);
        assert(done[3 + 3 * i] == published[3 * i + 2]);
    }
}

/// A request for power sends `speed3` or `off` to the target, once, and publishes
/// each of its fans as on at speed 3, or as off at the speed that was known of it.
/// The target and its fans are known to be so then; nothing else changes.
pub proof fn law_power_request(
    states: Map<Seq<char>, FanState>,
    target: Seq<char>,
    names: Seq<Seq<char>>,
    absolute: bool,
    on: bool,
    i: int,
    name: Seq<char>,
)
    ensures
        ({
            let done = responses(states, target, names, absolute, Request::Power(on));
            let after = next_states(states, target, names, Request::Power(on));
            let level: nat = if on {
                3
            } else {
                state_of(states, names[i]).speed as nat
            };
            &&& done.len() == 1 + 3 * names.len()
            &&& done[0] == (ActionView::Transmit {
                target,
                cmd: if on {
                    "speed3"@
                } else {
                    "off"@
                },
            })
            &&& 0 <= i < names.len() ==> done[1 + 3 * i] == publication(
                "fanctrl/"@ + names[i] + "/state"@,
                if on {
                    "ON"@
                } else {
                    "OFF"@
                },
            )
            &&& 0 <= i < names.len() ==> done[2 + 3 * i] == publication(
                "fanctrl/"@ + names[i] + "/speed/state"@,
                numeral(level, 10),
            )
            &&& 0 <= i < names.len() ==> done[3 + 3 * i] == publication(
                "fanctrl/"@ + names[i] + "/preset/state"@,
                numeral(level, 10),
            )
            &&& name == target || names.contains(name) ==> state_of(after, name) == (FanState {
                on,
                speed: if on {
                    3
                } else {
                    state_of(states, name).speed
                },
                light: state_of(states, name).light,
                forward: state_of(states, name).forward,
            })
            &&& name != target && !names.contains(name) ==> state_of(after, name) == state_of(
                states,
                name,
            )
        }),
{
    if on {
        lemma_switched(
            states,
            target,
            names,
            absolute,
            Request::Power(true),
            true,
            Some(3),
            "speed3"@,
            i,
            name,
        );
    } else {
        lemma_switched(
            states,
            target,
            names,
            absolute,
            Request::Power(false),
            false,
            None,
            "off"@,
            i,
            name,
        );
    }
}

/// A request for a speed sends it to the target, once, and publishes each of its
/// fans as on at that speed. The target and its fans are known to be so then;
/// nothing else changes.
pub proof fn law_speed_request(
    states: Map<Seq<char>, FanState>,
    target: Seq<char>,
    names: Seq<Seq<char>>,
    absolute: bool,
    level: u8,
    i: int,
    name: Seq<char>,
)
    ensures
        ({
            let done = responses(states, target, names, absolute, Request::Speed(level));
            let after = next_states(states, target, names, Request::Speed(level));
            &&& done.len() == 1 + 3 * names.len()
            &&& done[0] == (ActionView::Transmit {
                target,
                cmd: "speed"@ + numeral(level as nat, 10),
            })
            &&& 0 <= i < names.len() ==> done[1 + 3 * i] == publication(
                "fanctrl/"@ + names[i] + "/state"@,
                "ON"@,
            )
            &&& 0 <= i < names.len() ==> done[2 + 3 * i] == publication(
                "fanctrl/"@ + names[i] + "/speed/state"@,
                numeral(level as nat, 10),
            )
            &&& 0 <= i < names.len() ==> done[3 + 3 * i] == publication(
                "fanctrl/"@ + names[i] + "/preset/state"@,
                numeral(level as nat, 10),
            )
            &&& name == target || names.contains(name) ==> state_of(after, name) == (FanState {
                on: true,
                speed: level,
                light: state_of(states, name).light,
                forward: state_of(states, name).forward,
            })
            &&& name != target && !names.contains(name) ==> state_of(after, name) == state_of(
                states,
                name,
            )
        }),
{
    lemma_switched(
        states,
        target,
        names,
        absolute,
        Request::Speed(level),
        true,
        Some(level),
        "speed"@ + numeral(level as nat, 10),
        i,
        name,
    );
}

/// A request for a light sends `toggle_light` to the target exactly where its
/// light is not known to be so yet, and publishes the light as requested last,
/// whatever else is known of the target. Its light is known to be so then; nothing
/// else changes.
pub proof fn law_light_request(
    states: Map<Seq<char>, FanState>,
    target: Seq<char>,
    names: Seq<Seq<char>>,
    absolute: bool,
    on: bool,
    name: Seq<char>,
)
    ensures
        ({
            let done = responses(states, target, names, absolute, Request::Light(on));
            let after = next_states(states, target, names, Request::Light(on));
            let told = publication(
                "fanctrl/"@ + target + "/light/state"@,
                if on {
                    "ON"@
                } else {
                    "OFF"@
                },
            );
            &&& state_of(states, target).light != on ==> done == seq![
                ActionView::Transmit { target, cmd: "toggle_light"@ },
                told,
            ]
            &&& state_of(states, target).light == on ==> done == seq![told]
            &&& state_of(after, target) == (FanState { light: on, ..state_of(states, target) })
            &&& name != target ==> state_of(after, name) == state_of(states, name)
        }),
{
    let done = responses(states, target, names, absolute, Request::Light(on));
    let after = next_states(states, target, names, Request::Light(on));
    law_light_and_direction_are_told(after, target);
    let told = light_publication(after, target);
    if state_of(states, target).light != on {
        assert(done =~= seq![ActionView::Transmit { target, cmd: "toggle_light"@ }, told]);
    } else {
        assert(done =~= seq![told]);
    }
}

/// A request for a direction publishes it last, and it is known of the target then;
/// nothing else changes. To a target with direction buttons the button is sent; to
/// another `toggle_direction` is sent exactly where its direction is not known to
/// be so yet.
pub proof fn law_direction_request(
    states: Map<Seq<char>, FanState>,
    target: Seq<char>,
    names: Seq<Seq<char>>,
    absolute: bool,
    forward: bool,
    name: Seq<char>,
)
    ensures
        ({
            let done = responses(states, target, names, absolute, Request::Direction(forward));
            let after = next_states(states, target, names, Request::Direction(forward));
            let way = if forward {
                "forward"@
            } else {
                "reverse"@
            };
            let told = publication("fanctrl/"@ + target + "/direction/state"@, way);
            &&& absolute ==> done == seq![ActionView::Transmit { target, cmd: way }, told]
            &&& !absolute && state_of(states, target).forward != forward ==> done == seq![
                ActionView::Transmit { target, cmd: "toggle_direction"@ },
                told,
            ]
            &&& !absolute && state_of(states, target).forward == forward ==> done == seq![told]
            &&& state_of(after, target) == (FanState { forward, ..state_of(states, target) })
            &&& name != target ==> state_of(after, name) == state_of(states, name)
        }),
{
    let done = responses(states, target, names, absolute, Request::Direction(forward));
    let after = next_states(states, target, names, Request::Direction(forward));
    law_light_and_direction_are_told(after, target);
    let told = direction_publication(after, target);
    let way = if forward {
        "forward"@
    } else {
        "reverse"@
    };
    if absolute {
        assert(done =~= seq![ActionView::Transmit { target, cmd: way }, told]);
    } else if state_of(states, target).forward != forward {
        assert(done =~= seq![ActionView::Transmit { target, cmd: "toggle_direction"@ }, told]);
    } else {
        assert(done =~= seq![told]);
    }
}

/// The levels of a topic under the base topic.
proof fn lemma_levels(target: Seq<char>, kind: Seq<char>, rest: Seq<char>)
    requires
        !target.contains('/'),
        !kind.contains('/'),
        rest.len() == 0 || rest[0] == '/',
    ensures
        ({
            let levels = split("fanctrl/"@ + target + "/"@ + kind + rest, '/');
            let base = seq!["fanctrl"@, target, kind];
            &&& rest.len() == 0 ==> levels == base
            &&& rest.len() > 0 ==> levels == base + split(rest.skip(1), '/')
        }),
{
    reveal_strlit("fanctrl");
    reveal_strlit("fanctrl/");
    reveal_strlit("/");
    let head = BASE@.push('/') + target.push('/') + kind;
    let topic = "fanctrl/"@ + target + "/"@ + kind + rest;
    lemma_short_topic(target, kind);
    if rest.len() == 0 {
        assert(topic =~= head);
    } else {
        assert(topic =~= head.push('/') + rest.skip(1));
        law_split_at_separator(head, '/', rest.skip(1));
    }
}

/// The levels of a topic with `set` behind the kind.
proof fn lemma_set_levels(target: Seq<char>, kind: Seq<char>, leaf: Seq<char>, rest: Seq<char>)
    requires
        !target.contains('/'),
        !kind.contains('/'),
        leaf == "/"@ + kind + "/set"@,
        rest.len() == 0 || rest[0] == '/',
    ensures
        ({
            let levels = split("fanctrl/"@ + target + leaf + rest, '/');
            &&& levels.len() >= 4
            &&& levels[0] == "fanctrl"@
            &&& levels[1] == target
            &&& levels[2] == kind
            &&& levels[3] == "set"@
        }),
{
    reveal_strlit("set");
    reveal_strlit("/set");
    reveal_strlit("/");
    let tail = "/set"@ + rest;
    lemma_levels(target, kind, tail);
    assert("fanctrl/"@ + target + leaf + rest =~= "fanctrl/"@ + target + "/"@ + kind + tail);
    lemma_split_single("set"@, '/');
    if rest.len() == 0 {
        assert(tail.skip(1) =~= "set"@);
    } else {
        assert(tail.skip(1) =~= "set"@.push('/') + rest.skip(1));
        law_split_at_separator("set"@, '/', rest.skip(1));
    }
}

/// A message on `fanctrl/<target>/set` is for that target and asks for power: for
/// on where its text is `ON` in any case, and else for off.
pub proof fn law_power_topic(target: Seq<char>, names: Seq<Seq<char>>, text: Seq<char>)
    requires
        !target.contains('/'),
        names.len() > 0,
    ensures
        accepted("fanctrl/"@ + target + "/set"@, names, text) == Some(
            (target, Request::Power(same_but_case(trimmed(text), "ON"@))),
        ),
{
    reveal_strlit("set");
    reveal_strlit("/set");
    reveal_strlit("/");
    lemma_levels(target, "set"@, Seq::empty());
    assert("fanctrl/"@ + target + "/set"@ =~= "fanctrl/"@ + target + "/"@ + "set"@
        + Seq::<char>::empty());
}

/// A message on another command topic of a target is for that target. Levels behind
/// `set` make no difference. On the speed topic a number that is zero asks for off,
/// and any other, as on the preset topic any number, for the level that it is read
/// as; on the light topic `ON` in any case asks for on, and anything else for off;
/// on the direction topic `forward` in any case asks for forward, and anything
/// else for reverse.
pub proof fn law_other_topics(
    target: Seq<char>,
    rest: Seq<char>,
    names: Seq<Seq<char>>,
    text: Seq<char>,
)
    requires
        !target.contains('/'),
        rest.len() == 0 || rest[0] == '/',
        names.len() > 0,
    ensures
        ({
            let start = "fanctrl/"@ + target;
            let inner = trimmed(text);
            &&& accepted(start + "/speed/set"@ + rest, names, text) == (if zero_speed(inner) {
                Some((target, Request::Power(false)))
            } else {
                match speed_level(inner) {
                    Some(level) => Some((target, Request::Speed(level))),
                    None => None,
                }
            })
            &&& accepted(start + "/preset/set"@ + rest, names, text) == (match speed_level(inner) {
                Some(level) => Some((target, Request::Speed(level))),
                None => None,
            })
            &&& accepted(start + "/light/set"@ + rest, names, text) == Some(
                (target, Request::Light(same_but_case(inner, "ON"@))),
            )
            &&& accepted(start + "/direction/set"@ + rest, names, text) == Some(
                (target, Request::Direction(same_but_case(inner, "forward"@))),
            )
        }),
{
    reveal_strlit("/");
    reveal_strlit("/set");
    reveal_strlit("speed");
    reveal_strlit("/speed/set");
    reveal_strlit("preset");
    reveal_strlit("/preset/set");
    reveal_strlit("light");
    reveal_strlit("/light/set");
    reveal_strlit("direction");
    reveal_strlit("/direction/set");
    assert("/speed/set"@ =~= "/"@ + "speed"@ + "/set"@);
    assert("/preset/set"@ =~= "/"@ + "preset"@ + "/set"@);
    assert("/light/set"@ =~= "/"@ + "light"@ + "/set"@);
    assert("/direction/set"@ =~= "/"@ + "direction"@ + "/set"@);
    lemma_set_levels(target, "speed"@, "/speed/set"@, rest);
    lemma_set_levels(target, "preset"@, "/preset/set"@, rest);
    lemma_set_levels(target, "light"@, "/light/set"@, rest);
    lemma_set_levels(target, "direction"@, "/direction/set"@, rest);
    assert("light"@[0] != "speed"@[0]);
    assert("speed"@.len() == 5 && "preset"@.len() == 6 && "light"@.len() == 5 && "direction"@.len()
        == 9);
}

/// Whether `topic` is that of `leaf` of the target, with levels behind it or not.
pub open spec fn topic_of(
    topic: Seq<char>,
    target: Seq<char>,
    leaf: Seq<char>,
    rest: Seq<char>,
) -> bool {
    &&& topic == "fanctrl/"@ + target + leaf + rest
    &&& !target.contains('/')
    &&& rest.len() == 0 || rest[0] == '/'
}

/// A topic is that of its first levels and the rest behind them.
proof fn lemma_topic_from_levels(topic: Seq<char>, count: int) -> (rest: Seq<char>)
    requires
        1 <= count <= split(topic, '/').len(),
    ensures
        topic == joined(split(topic, '/').take(count), '/') + rest,
        rest.len() == 0 || rest[0] == '/',
        rest.len() == 0 <==> count == split(topic, '/').len(),
    decreases topic.len(),
{
    law_split_joins_back(topic, '/');
    lemma_joined_prefix(split(topic, '/'), count)
}

proof fn lemma_joined_prefix(pieces: Seq<Seq<char>>, count: int) -> (rest: Seq<char>)
    requires
        1 <= count <= pieces.len(),
    ensures
        joined(pieces, '/') == joined(pieces.take(count), '/') + rest,
        rest.len() == 0 || rest[0] == '/',
        rest.len() == 0 <==> count == pieces.len(),
    decreases pieces.len(),
{
    if count == pieces.len() {
        assert(pieces.take(count) =~= pieces);
        assert(joined(pieces, '/') =~= joined(pieces, '/') + Seq::<char>::empty());
        Seq::empty()
    } else {
        let before = lemma_joined_prefix(pieces.drop_last(), count);
        assert(pieces.drop_last().take(count) =~= pieces.take(count));
        let rest = before.push('/') + pieces.last();
        assert(joined(pieces, '/') =~= joined(pieces.take(count), '/') + rest);
        rest
    }
}

proof fn lemma_joined_short(a: Seq<char>, b: Seq<char>, c: Seq<char>, d: Seq<char>)
    ensures
        joined(seq![a, b], '/') == a.push('/') + b,
        joined(seq![a, b, c], '/') == a.push('/') + b.push('/') + c,
        joined(seq![a, b, c, d], '/') == a.push('/') + b.push('/') + c.push('/') + d,
{
    assert(seq![a, b].drop_last() =~= seq![a]);
    assert(joined(seq![a], '/') == a);
    assert(joined(seq![a, b], '/') =~= a.push('/') + b);
    assert(seq![a, b, c].drop_last() =~= seq![a, b]);
    assert(seq![a, b, c, d].drop_last() =~= seq![a, b, c]);
    assert(joined(seq![a, b, c], '/') =~= a.push('/') + b.push('/') + c);
    assert(joined(seq![a, b, c, d], '/') =~= a.push('/') + b.push('/') + c.push('/') + d);
}

/// What stands between `fanctrl/` and the next slash is the target of a topic.
pub proof fn law_target_is_found(target: Seq<char>, rest: Seq<char>)
    requires
        !target.contains('/'),
        rest.len() > 0,
        rest[0] == '/',
    ensures
        target_of("fanctrl/"@ + target + rest) == Some(target),
{
    reveal_strlit("fanctrl");
    reveal_strlit("fanctrl/");
    let head = "fanctrl"@.push('/') + target;
    lemma_split_single("fanctrl"@, '/');
    lemma_split_single(target, '/');
    law_split_at_separator("fanctrl"@, '/', target);
    law_split_at_separator(head, '/', rest.skip(1));
    law_split_joins_back(rest.skip(1), '/');
    assert("fanctrl/"@ + target + rest =~= head.push('/') + rest.skip(1));
}

/// A topic with a target begins with `fanctrl/`, the target and a slash.
pub proof fn law_only_such_topics_have_targets(topic: Seq<char>)
    requires
        target_of(topic) is Some,
    ensures
        exists|rest: Seq<char>|
            #[trigger] topic_of(topic, target_of(topic)->0, Seq::empty(), rest) && rest.len() > 0,
{
    reveal_strlit("fanctrl");
    reveal_strlit("fanctrl/");
    let levels = split(topic, '/');
    let target = levels[1];
    let rest = lemma_topic_from_levels(topic, 2);
    law_split_joins_back(topic, '/');
    assert(levels.take(2) =~= seq![levels[0], target]);
    lemma_joined_short(levels[0], target, target, target);
    assert(topic =~= "fanctrl/"@ + target + Seq::<char>::empty() + rest);
    assert(!levels[1].contains('/'));
    assert(target_of(topic)->0 == target);
    assert(rest.len() > 0);
    assert(topic_of(topic, target_of(topic)->0, Seq::empty(), rest));
}

/// Whether a message on `topic` can ask for something of the target.
pub open spec fn commands(topic: Seq<char>, target: Seq<char>, rest: Seq<char>) -> bool {
    ||| topic_of(topic, target, "/set"@, rest) && rest.len() == 0
    ||| topic_of(topic, target, "/speed/set"@, rest)
    ||| topic_of(topic, target, "/preset/set"@, rest)
    ||| topic_of(topic, target, "/light/set"@, rest)
    ||| topic_of(topic, target, "/direction/set"@, rest)
}

/// On a topic that is no command topic of a target, or where the target has no
/// fans, a message does nothing: nothing is sent or published, and nothing that is
/// known changes.
pub proof fn law_nothing_else_is_taken(
    fans: Seq<FanView>,
    states: Map<Seq<char>, FanState>,
    topic: Seq<char>,
    names: Seq<Seq<char>>,
    text: Seq<char>,
)
    requires
        names.len() == 0 || forall|target: Seq<char>, rest: Seq<char>|
            !#[trigger] commands(topic, target, rest),
    ensures
        responses_to(fans, states, topic, names, text).len() == 0,
        states_after(states, topic, names, text) == states,
{
    if names.len() > 0 && accepted(topic, names, text) is Some {
        reveal_strlit("fanctrl");
        reveal_strlit("fanctrl/");
        reveal_strlit("set");
        reveal_strlit("/set");
        reveal_strlit("speed");
        reveal_strlit("/speed/set");
        reveal_strlit("preset");
        reveal_strlit("/preset/set");
        reveal_strlit("light");
        reveal_strlit("/light/set");
        reveal_strlit("direction");
        reveal_strlit("/direction/set");
        let levels = split(topic, '/');
        let target = levels[1];
        law_split_joins_back(topic, '/');
        let count: int = if levels.len() == 3 {
            3
        } else {
            4
        };
        let rest = lemma_topic_from_levels(topic, count);
        if count == 3 {
            assert(levels.take(3) =~= seq![levels[0], target, levels[2]]);
            lemma_joined_short(levels[0], target, levels[2], target);
            assert(topic =~= "fanctrl/"@ + target + "/set"@ + rest);
        } else {
            let kind = levels[2];
            assert(levels.take(4) =~= seq![levels[0], target, kind, levels[3]]);
            lemma_joined_short(levels[0], target, kind, levels[3]);
            if kind == "speed"@ {
                assert(topic =~= "fanctrl/"@ + target + "/speed/set"@ + rest);
            } else if kind == "preset"@ {
                assert(topic =~= "fanctrl/"@ + target + "/preset/set"@ + rest);
            } else if kind == "light"@ {
                assert(topic =~= "fanctrl/"@ + target + "/light/set"@ + rest);
            } else {
                assert(topic =~= "fanctrl/"@ + target + "/direction/set"@ + rest);
            }
        }
        assert(commands(topic, target, rest));
    }
}

/// A power message: `ON`, in any case, sends `speed3` to the target, once, and
/// publishes each of its fans as on at speed 3; anything else sends `off` and
/// publishes each as off, at the speed that was known of it. The target and its
/// fans are known to be so then; nothing else changes.
pub proof fn law_power_message(
    fans: Seq<FanView>,
    states: Map<Seq<char>, FanState>,
    target: Seq<char>,
    names: Seq<Seq<char>>,
    text: Seq<char>,
    i: int,
    name: Seq<char>,
)
    requires
        !target.contains('/'),
        0 <= i < names.len(),
    ensures
        ({
            let topic = "fanctrl/"@ + target + "/set"@;
            let on = same_but_case(trimmed(text), "ON"@);
            let done = responses_to(fans, states, topic, names, text);
            let after = states_after(states, topic, names, text);
            let level: nat = if on {
                3
            } else {
                state_of(states, names[i]).speed as nat
            };
            &&& done.len() == 1 + 3 * names.len()
            &&& done[0] == (ActionView::Transmit {
                target,
                cmd: if on {
                    "speed3"@
                } else {
                    "off"@
                },
            })
            &&& done[1 + 3 * i] == publication(
                "fanctrl/"@ + names[i] + "/state"@,
                if on {
                    "ON"@
                } else {
                    "OFF"@
                },
            )
            &&& done[2 + 3 * i] == publication(
                "fanctrl/"@ + names[i] + "/speed/state"@,
                numeral(level, 10),
            )
            &&& done[3 + 3 * i] == publication(
                "fanctrl/"@ + names[i] + "/preset/state"@,
                numeral(level, 10),
            )
            &&& name == target || names.contains(name) ==> state_of(after, name) == (FanState {
                on,
                speed: if on {
                    3
                } else {
                    state_of(states, name).speed
                },
                light: state_of(states, name).light,
                forward: state_of(states, name).forward,
            })
            &&& name != target && !names.contains(name) ==> state_of(after, name) == state_of(
                states,
                name,
            )
        }),
{
    law_power_topic(target, names, text);
    law_power_request(
        states,
        target,
        names,
        absolute_direction(fans, target),
        same_but_case(trimmed(text), "ON"@),
        i,
        name,
    );
}

/// A speed or preset message that is read as a level, and not as zero on the speed
/// topic, sends that speed to the target, once, and publishes each of its fans as
/// on at that level. The target and its fans are known to be so then; nothing else
/// changes.
pub proof fn law_speed_message(
    fans: Seq<FanView>,
    states: Map<Seq<char>, FanState>,
    target: Seq<char>,
    preset: bool,
    rest: Seq<char>,
    names: Seq<Seq<char>>,
    text: Seq<char>,
    i: int,
    name: Seq<char>,
)
    requires
        !target.contains('/'),
        rest.len() == 0 || rest[0] == '/',
        0 <= i < names.len(),
        speed_level(trimmed(text)) is Some,
        preset || !zero_speed(trimmed(text)),
    ensures
        ({
            let topic = "fanctrl/"@ + target + (if preset {
                "/preset/set"@
            } else {
                "/speed/set"@
            }) + rest;
            let level = speed_level(trimmed(text))->0;
            let done = responses_to(fans, states, topic, names, text);
            let after = states_after(states, topic, names, text);
            &&& done.len() == 1 + 3 * names.len()
            &&& done[0] == (ActionView::Transmit {
                target,
                cmd: "speed"@ + numeral(level as nat, 10),
            })
            &&& done[1 + 3 * i] == publication("fanctrl/"@ + names[i] + "/state"@, "ON"@)
            &&& done[2 + 3 * i] == publication(
                "fanctrl/"@ + names[i] + "/speed/state"@,
                numeral(level as nat, 10),
            )
            &&& done[3 + 3 * i] == publication(
                "fanctrl/"@ + names[i] + "/preset/state"@,
                numeral(level as nat, 10),
            )
            &&& name == target || names.contains(name) ==> state_of(after, name) == (FanState {
                on: true,
                speed: level,
                light: state_of(states, name).light,
                forward: state_of(states, name).forward,
            })
            &&& name != target && !names.contains(name) ==> state_of(after, name) == state_of(
                states,
                name,
            )
        }),
{
    law_other_topics(target, rest, names, text);
    law_speed_request(
        states,
        target,
        names,
        absolute_direction(fans, target),
        speed_level(trimmed(text))->0,
        i,
        name,
    );
}

/// Speed zero, as text of any form, does what turning the target off does.
pub proof fn law_zero_speed_message(
    fans: Seq<FanView>,
    states: Map<Seq<char>, FanState>,
    target: Seq<char>,
    rest: Seq<char>,
    names: Seq<Seq<char>>,
    text: Seq<char>,
)
    requires
        !target.contains('/'),
        rest.len() == 0 || rest[0] == '/',
        names.len() > 0,
        zero_speed(trimmed(text)),
    ensures
        ({
            let speed = "fanctrl/"@ + target + "/speed/set"@ + rest;
            let power = "fanctrl/"@ + target + "/set"@;
            &&& responses_to(fans, states, speed, names, text) == responses_to(
                fans,
                states,
                power,
                names,
                "OFF"@,
            )
            &&& states_after(states, speed, names, text) == states_after(
                states,
                power,
                names,
                "OFF"@,
            )
        }),
{
    law_other_topics(target, rest, names, text);
    law_power_topic(target, names, "OFF"@);
    reveal_strlit("ON");
    reveal_strlit("OFF");
    let off = "OFF"@;
    assert(off.first() == 'O' && off.last() == 'F');
    assert(trimmed(off) == off);
}

/// A speed or preset message that is no number does nothing.
pub proof fn law_no_speed_message(
    fans: Seq<FanView>,
    states: Map<Seq<char>, FanState>,
    target: Seq<char>,
    preset: bool,
    rest: Seq<char>,
    names: Seq<Seq<char>>,
    text: Seq<char>,
)
    requires
        !target.contains('/'),
        rest.len() == 0 || rest[0] == '/',
        names.len() > 0,
        speed_level(trimmed(text)) is None,
        preset || !zero_speed(trimmed(text)),
    ensures
        ({
            let topic = "fanctrl/"@ + target + (if preset {
                "/preset/set"@
            } else {
                "/speed/set"@
            }) + rest;
            &&& responses_to(fans, states, topic, names, text).len() == 0
            &&& states_after(states, topic, names, text) == states
        }),
{
    law_other_topics(target, rest, names, text);
}

/// A light message asks for on with `ON`, in any case, and else for off. It sends
/// `toggle_light` to the target exactly where its light is not known to be so yet,
/// and publishes the light as requested last, whatever else is known of the target.
/// Its light is known to be so then; nothing else changes.
pub proof fn law_light_message(
    fans: Seq<FanView>,
    states: Map<Seq<char>, FanState>,
    target: Seq<char>,
    rest: Seq<char>,
    names: Seq<Seq<char>>,
    text: Seq<char>,
    name: Seq<char>,
)
    requires
        !target.contains('/'),
        rest.len() == 0 || rest[0] == '/',
        names.len() > 0,
    ensures
        ({
            let topic = "fanctrl/"@ + target + "/light/set"@ + rest;
            let on = same_but_case(trimmed(text), "ON"@);
            let done = responses_to(fans, states, topic, names, text);
            let after = states_after(states, topic, names, text);
            let told = publication(
                "fanctrl/"@ + target + "/light/state"@,
                if on {
                    "ON"@
                } else {
                    "OFF"@
                },
            );
            &&& state_of(states, target).light != on ==> done == seq![
                ActionView::Transmit { target, cmd: "toggle_light"@ },
                told,
            ]
            &&& state_of(states, target).light == on ==> done == seq![told]
            &&& state_of(after, target) == (FanState { light: on, ..state_of(states, target) })
            &&& name != target ==> state_of(after, name) == state_of(states, name)
        }),
{
    law_other_topics(target, rest, names, text);
    law_light_request(
        states,
        target,
        names,
        absolute_direction(fans, target),
        same_but_case(trimmed(text), "ON"@),
        name,
    );
}

/// A direction message to a fan that no other of its name comes before asks for
/// forward with `forward`, in any case, and else for reverse. Where the fan has a
/// button `forward`, the direction is sent as such, always, and never toggled;
/// where it has none, `toggle_direction` is sent exactly where the direction is not
/// known to be so yet. The direction is published as requested last, and known to
/// be so then; nothing else changes.
pub proof fn law_direction_message(
    fans: Seq<FanView>,
    k: int,
    states: Map<Seq<char>, FanState>,
    rest: Seq<char>,
    names: Seq<Seq<char>>,
    text: Seq<char>,
    name: Seq<char>,
)
    requires
        0 <= k < fans.len(),
        forall|j: int| 0 <= j < k ==> (#[trigger] fans[j]).name != fans[k].name,
        !fans[k].name.contains('/'),
        rest.len() == 0 || rest[0] == '/',
        names.len() > 0,
    ensures
        ({
            let target = fans[k].name;
            let topic = "fanctrl/"@ + target + "/direction/set"@ + rest;
            let forward = same_but_case(trimmed(text), "forward"@);
            let done = responses_to(fans, states, topic, names, text);
            let after = states_after(states, topic, names, text);
            let way = if forward {
                "forward"@
            } else {
                "reverse"@
            };
            let told = publication("fanctrl/"@ + target + "/direction/state"@, way);
            let buttons = fans[k].buttons.contains("forward"@);
            &&& buttons ==> done == seq![ActionView::Transmit { target, cmd: way }, told]
            &&& !buttons && state_of(states, target).forward != forward ==> done == seq![
                ActionView::Transmit { target, cmd: "toggle_direction"@ },
                told,
            ]
            &&& !buttons && state_of(states, target).forward == forward ==> done == seq![told]
            &&& state_of(after, target) == (FanState { forward, ..state_of(states, target) })
            &&& name != target ==> state_of(after, name) == state_of(states, name)
        }),
{
    let target = fans[k].name;
    law_direction_buttons(fans, k);
    law_other_topics(target, rest, names, text);
    law_direction_request(
        states,
        target,
        names,
        absolute_direction(fans, target),
        same_but_case(trimmed(text), "forward"@),
        name,
    );
}

/// A direction message to a room toggles exactly where the direction is not known
/// to be so yet.
pub proof fn law_room_direction_message(
    fans: Seq<FanView>,
    states: Map<Seq<char>, FanState>,
    target: Seq<char>,
    rest: Seq<char>,
    names: Seq<Seq<char>>,
    text: Seq<char>,
    name: Seq<char>,
)
    requires
        forall|j: int| 0 <= j < fans.len() ==> (#[trigger] fans[j]).name != target,
        !target.contains('/'),
        rest.len() == 0 || rest[0] == '/',
        names.len() > 0,
    ensures
        ({
            let topic = "fanctrl/"@ + target + "/direction/set"@ + rest;
            let forward = same_but_case(trimmed(text), "forward"@);
            let done = responses_to(fans, states, topic, names, text);
            let after = states_after(states, topic, names, text);
            let told = publication(
                "fanctrl/"@ + target + "/direction/state"@,
                if forward {
                    "forward"@
                } else {
                    "reverse"@
                },
            );
            &&& state_of(states, target).forward != forward ==> done == seq![
                ActionView::Transmit { target, cmd: "toggle_direction"@ },
                told,
            ]
            &&& state_of(states, target).forward == forward ==> done == seq![told]
            &&& state_of(after, target) == (FanState { forward, ..state_of(states, target) })
            &&& name != target ==> state_of(after, name) == state_of(states, name)
        }),
{
    law_rooms_have_no_direction_buttons(fans, target);
    law_other_topics(target, rest, names, text);
    law_direction_request(
        states,
        target,
        names,
        absolute_direction(fans, target),
        same_but_case(trimmed(text), "forward"@),
        name,
    );
}

/// A text that was sent as UTF-8 is received as that text.
pub proof fn law_payloads_are_received(text: Seq<char>)
    ensures
        payload_text(encode_utf8(text)) == text,
{
    encode_utf8_valid_utf8(text);
    encode_utf8_decode_utf8(text);
}

/// Every speed is a level of the protocol exactly where each that was recorded is
/// from 1 to 6, and then so is what is known of any fan.
pub proof fn law_proper_speeds(states: Map<Seq<char>, FanState>, name: Seq<char>)
    ensures
        proper_speeds(states) <==> forall|other: Seq<char>|
            states.contains_key(other) ==> 1 <= (#[trigger] states[other]).speed <= 6,
        proper_speeds(states) ==> 1 <= state_of(states, name).speed <= 6,
{
    if forall|other: Seq<char>|
        states.contains_key(other) ==> 1 <= (#[trigger] states[other]).speed <= 6 {
        assert forall|other: Seq<char>| #[trigger] states.contains_key(other) implies 1
            <= states[other].speed <= 6 by {
            assert(1 <= states[other].speed <= 6);
        }
    }
}

/// The levels of any topic with at least two levels before the kind.
proof fn lemma_any_levels(a: Seq<char>, b: Seq<char>, behind: Seq<char>)
    requires
        !a.contains('/'),
        !b.contains('/'),
    ensures
        split(a + "/"@ + b + "/"@ + behind, '/') == seq![a, b] + split(behind, '/'),
{
    reveal_strlit("/");
    lemma_split_single(a, '/');
    lemma_split_single(b, '/');
    law_split_at_separator(a, '/', b);
    law_split_at_separator(a.push('/') + b, '/', behind);
    assert(a + "/"@ + b + "/"@ + behind =~= (a.push('/') + b).push('/') + behind);
    assert(seq![a] + seq![b] =~= seq![a, b]);
}

/// What a payload asks for is told by the levels behind the first two, whatever
/// these are: `set` alone is for power, and `speed`, `preset`, `light` and
/// `direction` with `set` and any levels behind it are for these.
pub proof fn law_requests(a: Seq<char>, b: Seq<char>, rest: Seq<char>, text: Seq<char>)
    requires
        !a.contains('/'),
        !b.contains('/'),
        rest.len() == 0 || rest[0] == '/',
    ensures
        ({
            let start = a + "/"@ + b + "/"@;
            &&& request_of(start + "set"@, text) == Some(
                Request::Power(same_but_case(text, "ON"@)),
            )
            &&& request_of(start + ("speed/set"@ + rest), text) == (if zero_speed(text) {
                Some(Request::Power(false))
            } else {
                match speed_level(text) {
                    Some(level) => Some(Request::Speed(level)),
                    None => None,
                }
            })
            &&& request_of(start + ("preset/set"@ + rest), text) == (match speed_level(text) {
                Some(level) => Some(Request::Speed(level)),
                None => None,
            })
            &&& request_of(start + ("light/set"@ + rest), text) == Some(
                Request::Light(same_but_case(text, "ON"@)),
            )
            &&& request_of(start + ("direction/set"@ + rest), text) == Some(
                Request::Direction(same_but_case(text, "forward"@)),
            )
        }),
{
    reveal_strlit("set");
    reveal_strlit("speed");
    reveal_strlit("speed/set");
    reveal_strlit("preset");
    reveal_strlit("preset/set");
    reveal_strlit("light");
    reveal_strlit("light/set");
    reveal_strlit("direction");
    reveal_strlit("direction/set");
    lemma_split_single("set"@, '/');
    lemma_any_levels(a, b, "set"@);
    assert("speed/set"@ =~= "speed"@.push('/') + "set"@);
    lemma_kind_levels("speed"@, "speed/set"@, rest);
    lemma_any_levels(a, b, "speed/set"@ + rest);
    assert("preset/set"@ =~= "preset"@.push('/') + "set"@);
    lemma_kind_levels("preset"@, "preset/set"@, rest);
    lemma_any_levels(a, b, "preset/set"@ + rest);
    assert("light/set"@ =~= "light"@.push('/') + "set"@);
    lemma_kind_levels("light"@, "light/set"@, rest);
    lemma_any_levels(a, b, "light/set"@ + rest);
    assert("direction/set"@ =~= "direction"@.push('/') + "set"@);
    lemma_kind_levels("direction"@, "direction/set"@, rest);
    lemma_any_levels(a, b, "direction/set"@ + rest);
    assert("light"@[0] != "speed"@[0]);
    assert("speed"@.len() == 5 && "preset"@.len() == 6 && "light"@.len() == 5 && "direction"@.len()
        == 9);
}

proof fn lemma_kind_levels(kind: Seq<char>, leaf: Seq<char>, rest: Seq<char>)
    requires
        !kind.contains('/'),
        leaf == kind.push('/') + "set"@,
        rest.len() == 0 || rest[0] == '/',
    ensures
        split(leaf + rest, '/').len() >= 2,
        split(leaf + rest, '/')[0] == kind,
        split(leaf + rest, '/')[1] == "set"@,
{
    reveal_strlit("set");
    lemma_split_single(kind, '/');
    lemma_split_single("set"@, '/');
    law_split_at_separator(kind, '/', "set"@);
    if rest.len() == 0 {
        assert(leaf + rest =~= leaf);
    } else {
        assert(leaf + rest =~= leaf.push('/') + rest.skip(1));
        law_split_at_separator(leaf, '/', rest.skip(1));
    }
}

/// A payload asks for nothing on a topic with fewer than three levels, with another
/// third level alone, or with another level behind the third than `set`, or with a
/// third level that is none of the four.
pub proof fn law_no_requests(topic: Seq<char>, text: Seq<char>)
    requires
        ({
            let levels = split(topic, '/');
            ||| levels.len() < 3
            ||| levels.len() == 3 && levels[2] != "set"@
            ||| levels.len() > 3 && levels[3] != "set"@
            ||| levels.len() > 3 && levels[2] != "speed"@ && levels[2] != "preset"@ && levels[2]
                != "light"@ && levels[2] != "direction"@
        }),
    ensures
        request_of(topic, text) is None,
{
}

} // verus!
