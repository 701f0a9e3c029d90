//! Laws of the MQTT bridge.

use vstd::prelude::*;

use crate::config::{absolute_direction, FanView};
use crate::discovery::{
    announcements, comes_to, command_filters, fan_announcements, fan_json, fan_seeds,
    fans_announcements, fans_seeds, light_json, status_topic,
};
use crate::json::Json;
use crate::mqtt::{
    accepted, command, direction, direction_publication, fan_publications, fan_topic,
    fans_publications, light_publication, next_states, proper_speeds, publication, publications,
    request_of, responses, responses_to, speed_command, state_of, states_after, target_of,
    ActionView, FanState, Request, BASE,
};
use crate::speed::{
    behind_digits, behind_whole, decimal_number, digit_run, has_point, has_sign, is_digit,
    speed_level, unsigned, zero_speed,
};
use crate::speed_laws::{law_whole_numbers, lemma_numeral};
use crate::text::{
    ascii_lower, lemma_split_behind, lemma_split_single, numeral, same_but_case, split, trimmed,
    trimmed_end, trimmed_start, white_space,
};

verus! {

/// Every message keeps every speed a level of the protocol.
pub proof fn law_speeds_stay_proper(
    states: Map<Seq<char>, FanState>,
    topic: Seq<char>,
    names: Seq<Seq<char>>,
    text: Seq<char>,
)
    requires
        proper_speeds(states),
    ensures
        proper_speeds(states_after(states, topic, names, text)),
{
    if let Some((target, request)) = accepted(topic, names, text) {
        assert forall|name: Seq<char>| #[trigger]
            next_states(states, target, names, request).contains_key(name) implies 1
            <= next_states(states, target, names, request)[name].speed <= 6 by {
            assert(states.contains_key(name) ==> 1 <= states[name].speed <= 6);
            assert(states.contains_key(target) ==> 1 <= states[target].speed <= 6);
        }
    }
}

/// A message leads to at most one transmission, to its target, before anything
/// is published, and to nothing but publications besides: the fans of a room
/// are commanded together.
pub proof fn law_one_transmission(
    fans: Seq<FanView>,
    states: Map<Seq<char>, FanState>,
    topic: Seq<char>,
    names: Seq<Seq<char>>,
    text: Seq<char>,
)
    ensures
        ({
            let done = responses_to(fans, states, topic, names, text);
            &&& forall|i: int| 0 < i < done.len() ==> #[trigger] done[i] is Publish
            &&& done.len() > 0 && !(done[0] is Publish) ==> done[0] is Transmit && Some(
                done[0]->target,
            ) == target_of(topic)
        }),
{
    if let Some((target, request)) = accepted(topic, names, text) {
        let after = next_states(states, target, names, request);
        lemma_only_publications(after, names);
        let published = publications(after, target, names, request);
        assert forall|i: int| 0 <= i < published.len() implies #[trigger] published[i] is Publish by {}
        let done = responses_to(fans, states, topic, names, text);
        let absolute = absolute_direction(fans, target);
        if command(state_of(states, target), absolute, request) is Some {
            assert forall|i: int| 0 < i < done.len() implies #[trigger] done[i] is Publish by {
                assert(done[i] == published[i - 1]);
            }
        } else {
            assert(done =~= published);
        }
    }
}

proof fn lemma_only_publications(states: Map<Seq<char>, FanState>, names: Seq<Seq<char>>)
    ensures
        forall|i: int|
            0 <= i < fans_publications(states, names).len() ==> #[trigger] fans_publications(
                states,
                names,
            )[i] is Publish,
    decreases names.len(),
{
    if names.len() > 0 {
        lemma_only_publications(states, names.drop_last());
    }
}

/// A message changes nothing for a fan that is neither its target nor one of
/// the fans of its target.
pub proof fn law_others_untouched(
    states: Map<Seq<char>, FanState>,
    topic: Seq<char>,
    names: Seq<Seq<char>>,
    text: Seq<char>,
    other: Seq<char>,
)
    requires
        target_of(topic) != Some(other),
        !names.contains(other),
    ensures
        state_of(states_after(states, topic, names, text), other) == state_of(states, other),
{
}

/// State is optimistic: after a power or speed request the target and each of
/// its fans are taken to be as commanded, with light and direction as before.
pub proof fn law_commanded_is_assumed(
    states: Map<Seq<char>, FanState>,
    target: Seq<char>,
    names: Seq<Seq<char>>,
    request: Request,
    name: Seq<char>,
)
    requires
        name == target || names.contains(name),
    ensures
        ({
            let before = state_of(states, name);
            let after = state_of(next_states(states, target, names, request), name);
            &&& request == Request::Power(true) ==> after == (FanState {
                on: true,
                speed: 3,
                ..before
            })
            &&& request == Request::Power(false) ==> after == (FanState { on: false, ..before })
            &&& request matches Request::Speed(level) ==> after == (FanState {
                on: true,
                speed: level,
                ..before
            })
        }),
{
}

/// What is published of a fan after a power or speed request is its state then.
pub proof fn law_commanded_is_published(
    states: Map<Seq<char>, FanState>,
    target: Seq<char>,
    names: Seq<Seq<char>>,
    absolute: bool,
    request: Request,
    i: int,
)
    requires
        request is Power || request is Speed,
        0 <= i < names.len(),
    ensures
        ({
            let after = next_states(states, target, names, request);
            let done = responses(states, target, names, absolute, request);
            &&& done.len() == 1 + 3 * names.len()
            &&& done.subrange(1 + 3 * i, 4 + 3 * i) == fan_publications(after, names[i])
        }),
{
    let after = next_states(states, target, names, request);
    let done = responses(states, target, names, absolute, request);
    lemma_publications_at(after, names, i);
    let published = fans_publications(after, names);
    assert(done.len() == 1 + published.len());
    assert(done.subrange(1 + 3 * i, 4 + 3 * i) =~= published.subrange(3 * i, 3 + 3 * i));
}

pub(crate) proof fn lemma_publications_at(
    states: Map<Seq<char>, FanState>,
    names: Seq<Seq<char>>,
    i: int,
)
    requires
        0 <= i < names.len(),
    ensures
        fans_publications(states, names).len() == 3 * names.len(),
        fans_publications(states, names).subrange(3 * i, 3 + 3 * i) == fan_publications(
            states,
            names[i],
        ),
    decreases names.len(),
{
    let before = fans_publications(states, names.drop_last());
    let all = fans_publications(states, names);
    if names.len() > 1 {
        lemma_publications_at(
            states,
            names.drop_last(),
            if i < names.len() - 1 {
                i
            } else {
                0
            },
        );
    }
    if i < names.len() - 1 {
        assert(names.drop_last()[i] == names[i]);
        assert(all.subrange(3 * i, 3 + 3 * i) =~= before.subrange(3 * i, 3 + 3 * i));
    } else {
        assert(all.subrange(3 * i, 3 + 3 * i) =~= fan_publications(states, names[i]));
    }
}

/// Turning a target on sends `speed3`, and takes that to be its speed and that of
/// its fans, whatever was commanded before.
pub proof fn law_on_sends_three(
    states: Map<Seq<char>, FanState>,
    target: Seq<char>,
    names: Seq<Seq<char>>,
    absolute: bool,
    name: Seq<char>,
)
    requires
        name == target || names.contains(name),
    ensures
        responses(states, target, names, absolute, Request::Power(true))[0]
            == (ActionView::Transmit { target, cmd: "speed3"@ }),
        state_of(next_states(states, target, names, Request::Power(true)), name).on,
        state_of(next_states(states, target, names, Request::Power(true)), name).speed == 3,
{
    lemma_speed_three();
}

proof fn lemma_speed_three()
    ensures
        speed_command(3) == "speed3"@,
{
    reveal_strlit("speed");
    reveal_strlit("speed3");
    assert(speed_command(3) =~= "speed3"@);
}

/// A light is toggled exactly where the request differs from its assumed state,
/// which is the request afterwards: asking again sends nothing. So a light that
/// was as assumed, and is toggled by nothing else, stays as assumed.
pub proof fn law_light_settles(
    states: Map<Seq<char>, FanState>,
    target: Seq<char>,
    names: Seq<Seq<char>>,
    absolute: bool,
    on: bool,
)
    ensures
        ({
            let request = Request::Light(on);
            let after = next_states(states, target, names, request);
            &&& command(state_of(states, target), absolute, request) == (if state_of(
                states,
                target,
            ).light != on {
                Some("toggle_light"@)
            } else {
                None
            })
            &&& state_of(after, target) == (FanState { light: on, ..state_of(states, target) })
            &&& command(state_of(states, target), absolute, request) is Some <==> state_of(
                states,
                target,
            ).light != state_of(after, target).light
            &&& next_states(after, target, names, request) == after
            &&& responses(after, target, names, absolute, request) == seq![
                light_publication(after, target),
            ]
        }),
{
    let request = Request::Light(on);
    let after = next_states(states, target, names, request);
    assert(next_states(after, target, names, request) =~= after);
    assert(responses(after, target, names, absolute, request) =~= seq![
        light_publication(after, target),
    ]);
}

/// A direction is the request afterwards. Where it can only be toggled, it is
/// toggled exactly where the request differs from the assumed direction, and
/// asking again sends nothing; where it has buttons, the button is always sent.
pub proof fn law_direction_settles(
    states: Map<Seq<char>, FanState>,
    target: Seq<char>,
    names: Seq<Seq<char>>,
    forward: bool,
)
    ensures
        ({
            let request = Request::Direction(forward);
            let before = state_of(states, target);
            let after = next_states(states, target, names, request);
            &&& state_of(after, target) == (FanState { forward, ..before })
            &&& next_states(after, target, names, request) == after
            &&& command(before, false, request) == (if before.forward != forward {
                Some("toggle_direction"@)
            } else {
                None
            })
            &&& responses(after, target, names, false, request) == seq![
                direction_publication(after, target),
            ]
            &&& command(before, true, request) == Some(direction(forward))
        }),
{
    let request = Request::Direction(forward);
    let after = next_states(states, target, names, request);
    assert(next_states(after, target, names, request) =~= after);
    assert(responses(after, target, names, false, request) =~= seq![
        direction_publication(after, target),
    ]);
}

/// The levels of the topic of a fan with one level behind its name.
pub(crate) proof fn lemma_short_topic(name: Seq<char>, kind: Seq<char>)
    requires
        !name.contains('/'),
        !kind.contains('/'),
    ensures
        split(BASE@.push('/') + name.push('/') + kind, '/') == seq![BASE@, name, kind],
{
    reveal_strlit("fanctrl");
    let base = BASE@;
    assert(!base.contains('/'));
    lemma_split_single(base, '/');
    lemma_split_behind(base, '/', name);
    let head = base.push('/') + name;
    assert(head.push('/') + kind =~= base.push('/') + name.push('/') + kind);
    lemma_split_behind(head, '/', kind);
    assert(seq![base].push(name).push(kind) =~= seq![base, name, kind]);
}

/// The levels of the topic of a fan with two levels behind its name.
proof fn lemma_long_topic(name: Seq<char>, kind: Seq<char>, last: Seq<char>)
    requires
        !name.contains('/'),
        !kind.contains('/'),
        !last.contains('/'),
    ensures
        split(BASE@.push('/') + name.push('/') + kind.push('/') + last, '/') == seq![
            BASE@,
            name,
            kind,
            last,
        ],
{
    lemma_short_topic(name, kind);
    let head = BASE@.push('/') + name.push('/') + kind;
    assert(head.push('/') + last =~= BASE@.push('/') + name.push('/') + kind.push('/') + last);
    lemma_split_behind(head, '/', last);
    assert(seq![BASE@, name, kind].push(last) =~= seq![BASE@, name, kind, last]);
}

/// What is published on the command topics that discovery gives for a fan comes
/// back as a request to that fan.
pub proof fn law_command_topics_are_routed(name: Seq<char>, text: Seq<char>)
    requires
        !name.contains('/'),
    ensures
        target_of(fan_topic(name, "/set"@)) == Some(name),
        target_of(fan_topic(name, "/speed/set"@)) == Some(name),
        target_of(fan_topic(name, "/preset/set"@)) == Some(name),
        target_of(fan_topic(name, "/light/set"@)) == Some(name),
        target_of(fan_topic(name, "/direction/set"@)) == Some(name),
        request_of(fan_topic(name, "/set"@), text) == Some(
            Request::Power(same_but_case(text, "ON"@)),
        ),
        request_of(fan_topic(name, "/speed/set"@), text) == (if zero_speed(text) {
            Some(Request::Power(false))
        } else {
            match speed_level(text) {
                Some(level) => Some(Request::Speed(level)),
                None => None,
            }
        }),
        request_of(fan_topic(name, "/preset/set"@), text) == (match speed_level(text) {
            Some(level) => Some(Request::Speed(level)),
            None => None,
        }),
        request_of(fan_topic(name, "/light/set"@), text) == Some(
            Request::Light(same_but_case(text, "ON"@)),
        ),
        request_of(fan_topic(name, "/direction/set"@), text) == Some(
            Request::Direction(same_but_case(text, "forward"@)),
        ),
{
    reveal_strlit("/");
    reveal_strlit("set");
    reveal_strlit("/set");
    reveal_strlit("speed");
    reveal_strlit("/speed/set");
    reveal_strlit("preset");
    reveal_strlit("/preset/set");
    reveal_strlit("light");
    reveal_strlit("/light/set");
    reveal_strlit("direction");
    reveal_strlit("/direction/set");
    let base = BASE@.push('/') + name.push('/');
    assert(fan_topic(name, "/set"@) =~= base + "set"@);
    lemma_short_topic(name, "set"@);
    assert(fan_topic(name, "/speed/set"@) =~= base + "speed"@.push('/') + "set"@);
    lemma_long_topic(name, "speed"@, "set"@);
    assert(fan_topic(name, "/preset/set"@) =~= base + "preset"@.push('/') + "set"@);
    lemma_long_topic(name, "preset"@, "set"@);
    assert("preset"@ != "speed"@) by {
        assert("preset"@.len() != "speed"@.len());
    }
    assert(fan_topic(name, "/light/set"@) =~= base + "light"@.push('/') + "set"@);
    lemma_long_topic(name, "light"@, "set"@);
    assert("light"@ != "speed"@) by {
        assert("light"@[0] != "speed"@[0]);
    }
    assert("light"@ != "preset"@) by {
        assert("light"@.len() != "preset"@.len());
    }
    assert(fan_topic(name, "/direction/set"@) =~= base + "direction"@.push('/') + "set"@);
    lemma_long_topic(name, "direction"@, "set"@);
    assert("direction"@.len() == 9 && "speed"@.len() == 5 && "preset"@.len() == 6 && "light"@.len()
        == 5);
}

/// What the bridge publishes of a fan is no command, should it come back.
pub proof fn law_states_are_no_commands(name: Seq<char>, text: Seq<char>)
    requires
        !name.contains('/'),
    ensures
        request_of(fan_topic(name, "/state"@), text) is None,
        request_of(fan_topic(name, "/speed/state"@), text) is None,
        request_of(fan_topic(name, "/preset/state"@), text) is None,
        request_of(fan_topic(name, "/light/state"@), text) is None,
        request_of(fan_topic(name, "/direction/state"@), text) is None,
        target_of(status_topic()) is None,
{
    reveal_strlit("/");
    reveal_strlit("set");
    reveal_strlit("state");
    reveal_strlit("/state");
    reveal_strlit("speed");
    reveal_strlit("/speed/state");
    reveal_strlit("preset");
    reveal_strlit("/preset/state");
    reveal_strlit("light");
    reveal_strlit("/light/state");
    reveal_strlit("direction");
    reveal_strlit("/direction/state");
    assert("state"@.len() != "set"@.len());
    let base = BASE@.push('/') + name.push('/');
    assert(fan_topic(name, "/state"@) =~= base + "state"@);
    lemma_short_topic(name, "state"@);
    assert(fan_topic(name, "/speed/state"@) =~= base + "speed"@.push('/') + "state"@);
    lemma_long_topic(name, "speed"@, "state"@);
    assert(fan_topic(name, "/preset/state"@) =~= base + "preset"@.push('/') + "state"@);
    lemma_long_topic(name, "preset"@, "state"@);
    assert(fan_topic(name, "/light/state"@) =~= base + "light"@.push('/') + "state"@);
    lemma_long_topic(name, "light"@, "state"@);
    assert(fan_topic(name, "/direction/state"@) =~= base + "direction"@.push('/') + "state"@);
    lemma_long_topic(name, "direction"@, "state"@);
    reveal_strlit("fanctrl");
    reveal_strlit("status");
    reveal_strlit("/status");
    assert(status_topic() =~= BASE@.push('/') + "status"@);
    lemma_split_single(BASE@, '/');
    lemma_split_behind(BASE@, '/', "status"@);
}

/// Whether a topic matches a filter, level by level: `+` matches any one level.
pub open spec fn matches_filter(topic: Seq<char>, filter: Seq<char>) -> bool {
    let levels = split(topic, '/');
    let wanted = split(filter, '/');
    &&& levels.len() == wanted.len()
    &&& forall|i: int| 0 <= i < levels.len() ==> wanted[i] == "+"@ || #[trigger] levels[i] == wanted[i]
}

/// The command topics that discovery gives for a fan are among those that the
/// bridge subscribes to.
pub proof fn law_command_topics_are_subscribed(name: Seq<char>)
    requires
        !name.contains('/'),
    ensures
        matches_filter(fan_topic(name, "/set"@), command_filters()[0]),
        matches_filter(fan_topic(name, "/speed/set"@), command_filters()[1]),
        matches_filter(fan_topic(name, "/preset/set"@), command_filters()[2]),
        matches_filter(fan_topic(name, "/light/set"@), command_filters()[3]),
        matches_filter(fan_topic(name, "/direction/set"@), command_filters()[4]),
{
    reveal_strlit("/");
    reveal_strlit("+");
    reveal_strlit("set");
    reveal_strlit("/set");
    reveal_strlit("/+/set");
    reveal_strlit("speed");
    reveal_strlit("/speed/set");
    reveal_strlit("/+/speed/set");
    reveal_strlit("preset");
    reveal_strlit("/preset/set");
    reveal_strlit("/+/preset/set");
    reveal_strlit("light");
    reveal_strlit("/light/set");
    reveal_strlit("/+/light/set");
    reveal_strlit("direction");
    reveal_strlit("/direction/set");
    reveal_strlit("/+/direction/set");
    let base = BASE@.push('/') + name.push('/');
    let any = BASE@.push('/') + "+"@.push('/');
    assert(fan_topic(name, "/set"@) =~= base + "set"@);
    assert(command_filters()[0] =~= any + "set"@);
    lemma_short_topic(name, "set"@);
    lemma_short_topic("+"@, "set"@);
    assert(fan_topic(name, "/speed/set"@) =~= base + "speed"@.push('/') + "set"@);
    assert(command_filters()[1] =~= any + "speed"@.push('/') + "set"@);
    lemma_long_topic(name, "speed"@, "set"@);
    lemma_long_topic("+"@, "speed"@, "set"@);
    assert(fan_topic(name, "/preset/set"@) =~= base + "preset"@.push('/') + "set"@);
    assert(command_filters()[2] =~= any + "preset"@.push('/') + "set"@);
    lemma_long_topic(name, "preset"@, "set"@);
    lemma_long_topic("+"@, "preset"@, "set"@);
    assert(fan_topic(name, "/light/set"@) =~= base + "light"@.push('/') + "set"@);
    assert(command_filters()[3] =~= any + "light"@.push('/') + "set"@);
    lemma_long_topic(name, "light"@, "set"@);
    lemma_long_topic("+"@, "light"@, "set"@);
    assert(fan_topic(name, "/direction/set"@) =~= base + "direction"@.push('/') + "set"@);
    assert(command_filters()[4] =~= any + "direction"@.push('/') + "set"@);
    lemma_long_topic(name, "direction"@, "set"@);
    lemma_long_topic("+"@, "direction"@, "set"@);
}

/// Before the first command, every fan is published as off, at the middle speed,
/// forward, and its light, if it has one, as off.
pub proof fn law_first_states(fan: FanView)
    ensures
        ({
            let none = Map::<Seq<char>, FanState>::empty();
            let seeds = fan_seeds(none, fan);
            &&& seeds[0] == publication(fan_topic(fan.name, "/state"@), "OFF"@)
            &&& seeds[1] == publication(fan_topic(fan.name, "/speed/state"@), "3"@)
            &&& seeds[2] == publication(fan_topic(fan.name, "/preset/state"@), "3"@)
            &&& seeds[3] == publication(fan_topic(fan.name, "/direction/state"@), "forward"@)
            &&& fan.has_light ==> seeds.len() == 5 && seeds[4] == publication(
                fan_topic(fan.name, "/light/state"@),
                "OFF"@,
            )
            &&& !fan.has_light ==> seeds.len() == 4
        }),
{
    reveal_strlit("3");
    assert(numeral(3, 10) =~= "3"@);
}

/// On every connection every configured fan is announced, with its light if it
/// has one, and the announcement ends with the bridge being there; what is
/// published of the states holds those of every fan.
pub proof fn law_every_fan_is_announced(
    fans: Seq<FanView>,
    states: Map<Seq<char>, FanState>,
    i: int,
    action: ActionView,
)
    requires
        0 <= i < fans.len(),
    ensures
        fan_announcements(fans[i]).contains(action) ==> announcements(fans).contains(action),
        fan_seeds(states, fans[i]).contains(action) ==> fans_seeds(states, fans).contains(action),
        announcements(fans).last() == publication(status_topic(), "online"@),
{
    lemma_fan_is_announced(fans, states, i, action);
    if fans_announcements(fans).contains(action) {
        let k = fans_announcements(fans).index_of(action);
        assert(announcements(fans)[k] == action);
    }
}

proof fn lemma_fan_is_announced(
    fans: Seq<FanView>,
    states: Map<Seq<char>, FanState>,
    i: int,
    action: ActionView,
)
    requires
        0 <= i < fans.len(),
    ensures
        fan_announcements(fans[i]).contains(action) ==> fans_announcements(fans).contains(action),
        fan_seeds(states, fans[i]).contains(action) ==> fans_seeds(states, fans).contains(action),
    decreases fans.len(),
{
    let before = fans_announcements(fans.drop_last());
    let seeded = fans_seeds(states, fans.drop_last());
    if i < fans.len() - 1 {
        lemma_fan_is_announced(fans.drop_last(), states, i, action);
        assert(fans.drop_last()[i] == fans[i]);
        if fan_announcements(fans[i]).contains(action) {
            assert(fans_announcements(fans)[before.index_of(action)] == action);
        }
        if fan_seeds(states, fans[i]).contains(action) {
            assert(fans_seeds(states, fans)[seeded.index_of(action)] == action);
        }
    } else {
        if fan_announcements(fans[i]).contains(action) {
            let k = fan_announcements(fans[i]).index_of(action);
            assert(fans_announcements(fans)[before.len() + k] == action);
        }
        if fan_seeds(states, fans[i]).contains(action) {
            let k = fan_seeds(states, fans[i]).index_of(action);
            assert(fans_seeds(states, fans)[seeded.len() + k] == action);
        }
    }
}

/// The setup comes to an action, or to its end, exactly where every action of
/// the announcement before that was done. So no action follows a failed one of
/// the announcement, and in particular the bridge, which comes last in it, is not
/// announced after one; and where all of the announcement is done, the setup
/// comes to every state and to its end, whatever fails then.
pub proof fn law_setup_stops_at_failure(announce: nat, done: spec_fn(int) -> bool, i: nat)
    ensures
        comes_to(announce, done, i) <==> (forall|j: int|
            0 <= j < i && j < announce ==> #[trigger] done(j)),
    decreases i,
{
    if i > 0 {
        law_setup_stops_at_failure(announce, done, (i - 1) as nat);
        if comes_to(announce, done, i) {
            assert forall|j: int| 0 <= j < i && j < announce implies #[trigger] done(j) by {
                if j < i - 1 {
                    assert(0 <= j < i - 1 && j < announce ==> done(j));
                }
            }
        } else if forall|j: int| 0 <= j < i && j < announce ==> #[trigger] done(j) {
            assert(i - 1 < announce ==> done(i - 1));
        }
    }
}

/// The digits that a text starts with are digits.
pub(crate) proof fn lemma_run_is_digits(text: Seq<char>)
    ensures
        digit_run(text) <= text.len(),
        forall|i: int| 0 <= i < digit_run(text) ==> is_digit(#[trigger] text[i]),
    decreases text.len(),
{
    if text.len() > 0 && is_digit(text.first()) {
        let rest = text.drop_first();
        lemma_run_is_digits(rest);
        assert forall|i: int| 0 <= i < digit_run(text) implies is_digit(#[trigger] text[i]) by {
            if i > 0 {
                assert(text[i] == rest[i - 1]);
            }
        }
    }
}

/// A character that is no digit is behind the digits that a text starts with.
proof fn lemma_behind_run(text: Seq<char>, c: char)
    requires
        text.contains(c),
        !is_digit(c),
    ensures
        text.skip(digit_run(text) as int).contains(c),
{
    lemma_run_is_digits(text);
    let k = text.index_of(c);
    let run = digit_run(text) as int;
    assert(text.skip(run)[k - run] == c);
}

/// A character that is not the first of a text is behind it.
proof fn lemma_behind_first(text: Seq<char>, c: char)
    requires
        text.contains(c),
        text.first() != c,
    ensures
        text.drop_first().contains(c),
{
    let k = text.index_of(c);
    assert(text.drop_first()[k - 1] == c);
}

/// A text with a replacement character writes no number.
proof fn lemma_no_number(text: Seq<char>)
    requires
        text.contains('\u{FFFD}'),
    ensures
        decimal_number(text) is None,
{
    let c = '\u{FFFD}';
    if has_sign(text) {
        lemma_behind_first(text, c);
    }
    lemma_behind_run(unsigned(text), c);
    let rest = behind_whole(text);
    if has_point(text) {
        lemma_behind_first(rest, c);
        lemma_behind_run(rest.drop_first(), c);
    }
    let tail = behind_digits(text);
    assert(tail.contains(c));
    if tail.first() == 'e' || tail.first() == 'E' {
        lemma_behind_first(tail, c);
        let signed = tail.drop_first();
        if has_sign(signed) {
            lemma_behind_first(signed, c);
        }
        let digits = unsigned(signed);
        let k = digits.index_of(c);
        assert(!is_digit(digits[k]));
    }
}

/// Trimming takes no replacement character away.
proof fn lemma_trimmed_keeps(text: Seq<char>)
    requires
        text.contains('\u{FFFD}'),
    ensures
        trimmed_start(text).contains('\u{FFFD}'),
        trimmed_end(text).contains('\u{FFFD}'),
    decreases text.len(),
{
    let c = '\u{FFFD}';
    if white_space(text.first()) {
        lemma_behind_first(text, c);
        lemma_trimmed_keeps(text.drop_first());
    }
    if white_space(text.last()) {
        let k = text.index_of(c);
        assert(text.drop_last()[k] == c);
        lemma_trimmed_keeps(text.drop_last());
    }
}

/// Whether a request is for off, light off or reverse, and so not for on, light
/// on, forward or a speed.
pub open spec fn declines(request: Request) -> bool {
    ||| request == Request::Power(false)
    ||| request == Request::Light(false)
    ||| request == Request::Direction(false)
}

/// A payload that is no text, so that its text holds a replacement character,
/// asks for the same as an empty one: never for on, light on, forward or a speed,
/// but for off, light off or reverse, or for nothing.
pub proof fn law_no_text_declines(topic: Seq<char>, names: Seq<Seq<char>>, text: Seq<char>)
    requires
        text.contains('\u{FFFD}'),
    ensures
        accepted(topic, names, text) == accepted(topic, names, Seq::empty()),
        accepted(topic, names, text) matches Some((target, request)) ==> declines(request),
        split(topic, '/').len() >= 4 && split(topic, '/')[3] == "set"@ && (split(topic, '/')[2]
            == "speed"@ || split(topic, '/')[2] == "preset"@) ==> accepted(topic, names, text)
            is None,
{
    let inner = trimmed(text);
    lemma_trimmed_keeps(text);
    lemma_trimmed_keeps(trimmed_start(text));
    lemma_no_number(inner);
    let k = inner.index_of('\u{FFFD}');
    assert(ascii_lower(inner[k]) == '\u{FFFD}');
    reveal_strlit("ON");
    reveal_strlit("forward");
    assert(!same_but_case(inner, "ON"@));
    assert(!same_but_case(inner, "forward"@));
    let empty = Seq::<char>::empty();
    assert(trimmed(empty) == empty);
    assert(decimal_number(empty) is None);
    assert(!same_but_case(empty, "ON"@));
    assert(!same_but_case(empty, "forward"@));
}

/// The discovery of a fan gives the topics that its commands are routed by.
pub proof fn law_discovery_gives_command_topics(name: Seq<char>)
    ensures
        fan_json(name)->Object_0["command_topic"@] == Json::Text(fan_topic(name, "/set"@)),
        fan_json(name)->Object_0["percentage_command_topic"@] == Json::Text(
            fan_topic(name, "/speed/set"@),
        ),
        fan_json(name)->Object_0["preset_mode_command_topic"@] == Json::Text(
            fan_topic(name, "/preset/set"@),
        ),
        fan_json(name)->Object_0["direction_command_topic"@] == Json::Text(
            fan_topic(name, "/direction/set"@),
        ),
        light_json(name)->Object_0["command_topic"@] == Json::Text(fan_topic(name, "/light/set"@)),
{
    reveal_strlit("command_topic");
    reveal_strlit("state_topic");
    reveal_strlit("percentage_command_topic");
    reveal_strlit("percentage_state_topic");
    reveal_strlit("speed_range_min");
    reveal_strlit("speed_range_max");
    reveal_strlit("preset_mode_command_topic");
    reveal_strlit("preset_mode_state_topic");
    reveal_strlit("preset_modes");
    reveal_strlit("direction_command_topic");
    reveal_strlit("direction_state_topic");
    reveal_strlit("availability_topic");
    reveal_strlit("device");
    let (command, percentage, preset, way) = (
        "command_topic"@,
        "percentage_command_topic"@,
        "preset_mode_command_topic"@,
        "direction_command_topic"@,
    );
    assert(command.len() == 13 && percentage.len() == 24 && preset.len() == 25 && way.len() == 23);
    assert("state_topic"@.len() == 11 && "percentage_state_topic"@.len() == 22);
    assert("speed_range_min"@.len() == 15 && "speed_range_max"@.len() == 15);
    assert("preset_mode_state_topic"@.len() == 23 && "preset_modes"@.len() == 12);
    assert("direction_state_topic"@.len() == 21 && "availability_topic"@.len() == 18);
    assert("device"@.len() == 6);
}

/// Digits have no white space around them.
proof fn lemma_trimmed_numeral(n: nat)
    ensures
        trimmed(numeral(n, 10)) == numeral(n, 10),
{
    let text = numeral(n, 10);
    lemma_numeral(n);
    assert(is_digit(text[0]));
    assert(is_digit(text[text.len() - 1]));
    assert(!white_space(text.first()));
    assert(!white_space(text.last()));
}

/// A speed level sent to the speed topic of a target commands that speed, and
/// speed zero turns the target off.
pub proof fn law_speed_commands(
    fans: Seq<FanView>,
    states: Map<Seq<char>, FanState>,
    name: Seq<char>,
    names: Seq<Seq<char>>,
    n: nat,
)
    requires
        !name.contains('/'),
        names.len() > 0,
        n <= 6,
    ensures
        responses_to(fans, states, fan_topic(name, "/speed/set"@), names, numeral(n, 10))[0]
            == (ActionView::Transmit {
            target: name,
            cmd: if n == 0 {
                "off"@
            } else {
                "speed"@ + numeral(n, 10)
            },
        }),
{
    law_command_topics_are_routed(name, numeral(n, 10));
    lemma_trimmed_numeral(n);
    law_whole_numbers(n);
}

/// A preset sent to the preset topic of a target commands that speed.
pub proof fn law_preset_commands(
    fans: Seq<FanView>,
    states: Map<Seq<char>, FanState>,
    name: Seq<char>,
    names: Seq<Seq<char>>,
    n: nat,
)
    requires
        !name.contains('/'),
        names.len() > 0,
        1 <= n <= 6,
    ensures
        responses_to(fans, states, fan_topic(name, "/preset/set"@), names, numeral(n, 10))[0]
            == (ActionView::Transmit { target: name, cmd: "speed"@ + numeral(n, 10) }),
{
    law_command_topics_are_routed(name, numeral(n, 10));
    lemma_trimmed_numeral(n);
    law_whole_numbers(n);
}

/// `ON`, in any case, sent to the command topic of a target sends `speed3`;
/// anything else turns it off.
pub proof fn law_power_commands(
    fans: Seq<FanView>,
    states: Map<Seq<char>, FanState>,
    name: Seq<char>,
    names: Seq<Seq<char>>,
    text: Seq<char>,
)
    requires
        !name.contains('/'),
        names.len() > 0,
    ensures
        responses_to(fans, states, fan_topic(name, "/set"@), names, text)[0]
            == (ActionView::Transmit {
            target: name,
            cmd: if same_but_case(trimmed(text), "ON"@) {
                "speed3"@
            } else {
                "off"@
            },
        }),
{
    law_command_topics_are_routed(name, trimmed(text));
    lemma_speed_three();
}

/// Whether a command is a button of every remote.
pub open spec fn common_command(cmd: Seq<char>) -> bool {
    ||| cmd == "off"@
    ||| cmd == "speed1"@
    ||| cmd == "speed2"@
    ||| cmd == "speed3"@
    ||| cmd == "speed4"@
    ||| cmd == "speed5"@
    ||| cmd == "speed6"@
    ||| cmd == "toggle_light"@
}

/// A command is a button that every remote has, or one for the direction: where
/// `absolute` is set, one of the two that remotes with a button for each
/// direction have, and else the one that toggles it. The flag is that of the fan
/// of the target's name; a room has none, so its direction is toggled.
pub proof fn law_commands_are_buttons(state: FanState, absolute: bool, request: Request)
    requires
        request matches Request::Speed(level) ==> 1 <= level <= 6,
    ensures
        command(state, absolute, request) matches Some(cmd) ==> {
            ||| common_command(cmd)
            ||| absolute && (cmd == "forward"@ || cmd == "reverse"@)
            ||| !absolute && cmd == "toggle_direction"@
        },
{
    reveal_strlit("speed");
    reveal_strlit("speed1");
    reveal_strlit("speed2");
    reveal_strlit("speed3");
    reveal_strlit("speed4");
    reveal_strlit("speed5");
    reveal_strlit("speed6");
    assert(speed_command(1) =~= "speed1"@);
    assert(speed_command(2) =~= "speed2"@);
    assert(speed_command(3) =~= "speed3"@);
    assert(speed_command(4) =~= "speed4"@);
    assert(speed_command(5) =~= "speed5"@);
    assert(speed_command(6) =~= "speed6"@);
}

} // verus!
