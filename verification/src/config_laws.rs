//! Laws of the configuration.

use vstd::prelude::*;

use crate::config::{absolute_direction, is_first_named, texts, FanView, LoadedConfig};

verus! {

/// Whether a fan has direction buttons is told by its own buttons, wherever it
/// stands: a fan that no other of its name comes before has them exactly where
/// `forward` is one of its buttons.
pub proof fn law_direction_buttons(fans: Seq<FanView>, i: int)
    requires
        0 <= i < fans.len(),
        forall|j: int| 0 <= j < i ==> (#[trigger] fans[j]).name != fans[i].name,
    ensures
        absolute_direction(fans, fans[i].name) <==> fans[i].buttons.contains("forward"@),
{
    assert(is_first_named(fans, fans[i].name, i));
    assert forall|k: int| is_first_named(fans, fans[i].name, k) implies k == i by {}
}

/// With distinct names that is so of every fan.
pub proof fn law_distinct_fans_have_their_own_buttons(fans: Seq<FanView>, i: int)
    requires
        0 <= i < fans.len(),
        forall|j: int, k: int|
            0 <= j < k < fans.len() ==> (#[trigger] fans[j]).name != (#[trigger] fans[k]).name,
    ensures
        absolute_direction(fans, fans[i].name) <==> fans[i].buttons.contains("forward"@),
{
    law_direction_buttons(fans, i);
}

/// What is the name of no fan, such as a room, has no direction buttons.
pub proof fn law_rooms_have_no_direction_buttons(fans: Seq<FanView>, name: Seq<char>)
    requires
        forall|j: int| 0 <= j < fans.len() ==> (#[trigger] fans[j]).name != name,
    ensures
        !absolute_direction(fans, name),
{
    if absolute_direction(fans, name) {
        let i = choose|i: int|
            #[trigger] is_first_named(fans, name, i) && fans[i].buttons.contains("forward"@);
        assert(fans[i].name != name);
    }
}

/// The texts of some strings are those of each, in order.
pub proof fn law_texts(strings: Seq<String>, i: int)
    requires
        0 <= i < strings.len(),
    ensures
        texts(strings).len() == strings.len(),
        texts(strings)[i] == strings[i]@,
{
}

/// A configuration is its fans in order, each as it was configured.
pub proof fn law_config_is_its_fans(config: LoadedConfig, i: int)
    requires
        0 <= i < config.fans@.len(),
    ensures
        config@.len() == config.fans@.len(),
        config@[i].name == config.fans@[i].name@,
        config@[i].device_id == config.fans@[i].device_id,
        config@[i].has_light == config.fans@[i].has_light,
        config@[i].buttons.len() == config.fans@[i].buttons@.len(),
        forall|b: int|
            0 <= b < config@[i].buttons.len() ==> #[trigger] config@[i].buttons[b]
                == config.fans@[i].buttons@[b]@,
{
}

} // verus!
