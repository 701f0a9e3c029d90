//! Laws of the HomeKit bridge.

use vstd::arithmetic::power::pow;
use vstd::prelude::*;

use crate::config::FanView;
use crate::discovery_laws::lights;
use crate::homekit::{
    accessory_views, bridge_accessories, fan_accessories, fan_id, light_id, light_of, lights_after,
    nearest_even, nearest_single, not_a_number, pairing_text, percent_command, percent_level,
    pin_digits, scaled_percent, serial, share, spacing, steps, Accessory, AccessoryView, Role,
    RoleView, INFINITY_BITS, SIGN_BIT,
};
use crate::text::{lemma_hex_len, numeral};
use crate::text_laws::{
    digits_in, law_numeral_reads_back, law_padding, law_padding_keeps_the_number, value_in,
};

verus! {

/// Rounding to an integer is off by at most a half.
proof fn lemma_nearest_even(num: nat, den: nat)
    requires
        den > 0,
    ensures
        2 * num - den <= 2 * (nearest_even(num, den) * den) <= 2 * num + den,
{
    let floor = num / den;
    let rest = num % den;
    assert(floor * den + rest == num && 0 <= rest < den) by (nonlinear_arith)
        requires
            floor == num / den,
            rest == num % den,
            den > 0,
    ;
    assert((floor + 1) * den == floor * den + den) by (nonlinear_arith);
}

/// Rounding to an integer keeps the order.
proof fn lemma_nearest_even_monotone(low: nat, high: nat, den: nat)
    requires
        den > 0,
        low <= high,
    ensures
        nearest_even(low, den) <= nearest_even(high, den),
{
    let (a, b) = (low / den, high / den);
    let (x, y) = (low % den, high % den);
    assert(a * den + x == low && b * den + y == high) by (nonlinear_arith)
        requires
            a == low / den,
            x == low % den,
            b == high / den,
            y == high % den,
            den > 0,
    ;
    assert(0 <= x < den && 0 <= y < den) by (nonlinear_arith)
        requires
            x == low % den,
            y == high % den,
            den > 0,
    ;
    assert(a <= b) by (nonlinear_arith)
        requires
            a * den + x <= b * den + y,
            0 <= x,
            y < den,
            den > 0,
    ;
}

/// Rounding to single precision is off by at most half the spacing.
proof fn lemma_nearest_single(num: nat, den: nat)
    requires
        den > 0,
    ensures
        2 * num - den * spacing(num, den) <= 2 * (nearest_single(num, den) * den) <= 2 * num + den
            * spacing(num, den),
{
    let space = spacing(num, den);
    assert(den * space > 0) by (nonlinear_arith)
        requires
            den > 0,
            space >= 1,
    ;
    lemma_nearest_even(num, den * space);
    let count = nearest_even(num, den * space);
    assert(count * (den * space) == (space * count) * den) by (nonlinear_arith);
}

/// Rounding to single precision keeps the order.
proof fn lemma_nearest_single_monotone(low: nat, high: nat, den: nat)
    requires
        den > 0,
        low <= high,
    ensures
        nearest_single(low, den) <= nearest_single(high, den),
{
    let (a, b) = (spacing(low, den), spacing(high, den));
    let (m, n) = (den * a, den * b);
    assert(m > 0 && n > 0) by (nonlinear_arith)
        requires
            den > 0,
            a >= 1,
            b >= 1,
            m == den * a,
            n == den * b,
    ;
    let (x, y) = (nearest_even(low, m), nearest_even(high, n));
    if a == b {
        lemma_nearest_even_monotone(low, high, m);
        assert(a * x <= b * y) by (nonlinear_arith)
            requires
                a == b,
                x <= y,
        ;
    } else {
        // A power of two lies between the two.
        assert(2 * a <= b);
        assert(low < m * 0x100_0000) by (nonlinear_arith)
            requires
                low < den * (a * 0x100_0000),
                m == den * a,
        ;
        lemma_nearest_even_whole(0x100_0000, m);
        lemma_nearest_even_monotone(low, m * 0x100_0000, m);
        assert(high >= n * 0x80_0000) by (nonlinear_arith)
            requires
                high >= den * (b * 0x80_0000),
                n == den * b,
        ;
        lemma_nearest_even_whole(0x80_0000, n);
        lemma_nearest_even_monotone(n * 0x80_0000, high, n);
        assert(a * x <= b * y) by (nonlinear_arith)
            requires
                2 * a <= b,
                x <= 0x100_0000,
                y >= 0x80_0000,
        ;
    }
}

/// A whole number is its own nearest.
proof fn lemma_nearest_even_whole(n: nat, den: nat)
    requires
        den > 0,
    ensures
        nearest_even(den * n, den) == n,
{
    assert((den * n) / den == n && (den * n) % den == 0) by (nonlinear_arith)
        requires
            den > 0,
    ;
}

/// The level is the step of six that is nearest to the percentage, up to
/// rounding: with the percentage at `p`, level `l` means that `6 * p / 100` lies
/// between `l - 1/2` and `l + 1/2`, up to less than 2^-20, with no bound below at
/// level 1 and none above at level 6. In units of 2^-26 that is 40.
pub proof fn law_level_is_nearest(bits: u32)
    requires
        0x4180_0000 <= bits < 0x4300_0000,
    ensures
        ({
            let level = percent_level(bits);
            let steps_of_six = 192 * scaled_percent(bits);
            &&& level >= 2 ==> steps_of_six >= 25 * ((2 * level - 1) * 0x200_0000 - 40)
            &&& level <= 5 ==> steps_of_six < 25 * ((2 * level + 1) * 0x200_0000 + 40)
        }),
{
    let scaled = scaled_percent(bits);
    lemma_nearest_single(32 * scaled, 25);
    lemma_nearest_single(6 * share(bits), 1);
    assert(spacing(32 * scaled, 25) <= 8);
    assert(spacing(6 * share(bits), 1) <= 32);
    assert(steps(bits) * 1 == steps(bits));
}

/// A higher percentage never asks for a lower level.
pub proof fn law_level_is_monotone(low: u32, high: u32)
    requires
        0 < low <= high <= INFINITY_BITS,
    ensures
        1 <= percent_level(low) <= percent_level(high) <= 6,
{
    if 0x4180_0000 <= low && high < 0x4300_0000 {
        assert(scaled_percent(low) <= scaled_percent(high));
        lemma_nearest_single_monotone(32 * scaled_percent(low), 32 * scaled_percent(high), 25);
        lemma_nearest_single_monotone(6 * share(low), 6 * share(high), 1);
    }
}

/// The steps of a percentage, from the numbers that they are computed by.
proof fn lemma_steps_at(bits: u32, scaled: nat, wide: nat, count: nat, wider: nat, last: nat)
    requires
        scaled_percent(bits) == scaled,
        spacing(32 * scaled, 25) == wide,
        nearest_even(32 * scaled, 25 * wide) == count,
        spacing(6 * (wide * count), 1) == wider,
        nearest_even(6 * (wide * count), wider) == last,
    ensures
        steps(bits) == wider * last,
{
    assert(1 * wider == wider);
}

/// The levels begin at 25, 41.666668, 58.333332, 75 and 91.666664 percent.
pub proof fn law_levels_begin(bits: u32)
    requires
        0 < bits <= INFINITY_BITS,
    ensures
        percent_level(bits) == (if bits >= 0x42b7_5555 {
            6u8
        } else if bits >= 0x4296_0000 {
            5
        } else if bits >= 0x4269_5555 {
            4
        } else if bits >= 0x4226_aaab {
            3
        } else if bits >= 0x41c8_0000 {
            2
        } else {
            1
        }),
{
    lemma_steps_at(0x41c7ffff, 13107199, 1, 16777215, 8, 12582911);
    lemma_steps_at(0x41c80000, 13107200, 2, 8388608, 8, 12582912);
    lemma_steps_at(0x4226aaaa, 21845332, 2, 13981012, 16, 10485759);
    lemma_steps_at(0x4226aaab, 21845334, 2, 13981014, 16, 10485760);
    lemma_steps_at(0x42695554, 30583464, 4, 9786708, 16, 14680062);
    lemma_steps_at(0x42695555, 30583466, 4, 9786709, 16, 14680064);
    lemma_steps_at(0x4295ffff, 39321596, 4, 12582911, 32, 9437183);
    lemma_steps_at(0x42960000, 39321600, 4, 12582912, 32, 9437184);
    lemma_steps_at(0x42b75554, 48059728, 4, 15379113, 32, 11534335);
    lemma_steps_at(0x42b75555, 48059732, 4, 15379114, 32, 11534336);
    if bits < 0x41c8_0000 {
        law_level_is_monotone(bits, 0x41c7_ffff);
    } else if bits < 0x4226_aaab {
        law_level_is_monotone(0x41c8_0000, bits);
        law_level_is_monotone(bits, 0x4226_aaaa);
    } else if bits < 0x4269_5555 {
        law_level_is_monotone(0x4226_aaab, bits);
        law_level_is_monotone(bits, 0x4269_5554);
    } else if bits < 0x4296_0000 {
        law_level_is_monotone(0x4269_5555, bits);
        law_level_is_monotone(bits, 0x4295_ffff);
    } else if bits < 0x42b7_5555 {
        law_level_is_monotone(0x4296_0000, bits);
        law_level_is_monotone(bits, 0x42b7_5554);
    } else {
        law_level_is_monotone(0x42b7_5555, bits);
    }
}

/// A percentage that is a number leads to off or to a speed from 1 to 6, and to
/// off exactly where it is zero or below.
pub proof fn law_percent_commands(bits: u32)
    requires
        !not_a_number(bits),
    ensures
        percent_command(bits) == "off"@ <==> bits == 0 || bits >= SIGN_BIT,
        percent_command(bits) != "off"@ ==> 1 <= percent_level(bits) <= 6 && percent_command(bits)
            == "speed"@ + numeral(percent_level(bits) as nat, 10),
{
    reveal_strlit("off");
    reveal_strlit("speed");
    assert(("speed"@ + numeral(percent_level(bits) as nat, 10))[0] == 's');
    assert("off"@[0] == 'o');
}

/// The identifiers of the accessories ascend, so that no two are the same.
pub proof fn law_ids_ascend(name: Seq<char>, fans: Seq<FanView>)
    ensures
        forall|a: int, b: int|
            0 <= a < b < bridge_accessories(name, fans).len() ==> #[trigger] bridge_accessories(
                name,
                fans,
            )[a].id < #[trigger] bridge_accessories(name, fans)[b].id,
        forall|a: int|
            0 <= a < bridge_accessories(name, fans).len() ==> 1 <= #[trigger] bridge_accessories(
                name,
                fans,
            )[a].id < fan_id(fans.len() as int),
    decreases fans.len(),
{
    if fans.len() > 0 {
        law_ids_ascend(name, fans.drop_last());
    }
}

/// Whether one of the accessories has that identifier and that role.
pub open spec fn holds_one(accessories: Seq<AccessoryView>, id: int, role: RoleView) -> bool {
    exists|accessory: AccessoryView|
        #[trigger] accessories.contains(accessory) && accessory.id == id && accessory.role == role
}

/// Each fan has its own identifier, and that of its light is in use exactly where
/// it has a light.
pub proof fn law_ids(name: Seq<char>, fans: Seq<FanView>, i: int)
    requires
        0 <= i < fans.len(),
    ensures
        holds_one(
            bridge_accessories(name, fans),
            fan_id(i),
            RoleView::Fan { target: fans[i].name },
        ),
        fans[i].has_light ==> holds_one(
            bridge_accessories(name, fans),
            light_id(i),
            RoleView::Light { target: fans[i].name },
        ),
        !fans[i].has_light ==> forall|accessory: AccessoryView|
            bridge_accessories(name, fans).contains(accessory) ==> accessory.id != light_id(i),
{
    let all = bridge_accessories(name, fans);
    let mine = fan_accessories(fans[i], i);
    lemma_has_fan(name, fans, i);
    assert(mine.contains(mine[0]));
    if fans[i].has_light {
        assert(mine.contains(mine[1]));
    } else {
        assert forall|accessory: AccessoryView| all.contains(accessory) implies accessory.id
            != light_id(i) by {
            if accessory.id == light_id(i) {
                lemma_only_fan(name, fans, i, accessory);
            }
        }
    }
}

/// The bridge comes first, with identifier 1, whatever fans there are.
pub proof fn law_bridge_is_first(name: Seq<char>, fans: Seq<FanView>)
    ensures
        bridge_accessories(name, fans).len() > 0,
        bridge_accessories(name, fans)[0] == bridge_accessories(name, Seq::empty())[0],
        bridge_accessories(name, fans)[0].id == 1,
        bridge_accessories(name, fans)[0].role == RoleView::Bridge,
    decreases fans.len(),
{
    if fans.len() > 0 {
        law_bridge_is_first(name, fans.drop_last());
    } else {
        assert(fans =~= Seq::empty());
    }
}

/// That a fan gets a light, or loses it, changes no accessory but that light: all
/// others stay as they are, identifier included.
pub proof fn law_only_its_light_changes(
    name: Seq<char>,
    fans: Seq<FanView>,
    k: int,
    has_light: bool,
    accessory: AccessoryView,
)
    requires
        0 <= k < fans.len(),
        accessory.id != light_id(k),
    ensures
        bridge_accessories(name, fans).contains(accessory) <==> bridge_accessories(
            name,
            fans.update(k, FanView { has_light, ..fans[k] }),
        ).contains(accessory),
{
    let others = fans.update(k, FanView { has_light, ..fans[k] });
    assert(fans =~= others.update(k, fans[k]));
    if bridge_accessories(name, fans).contains(accessory) {
        lemma_light_of_one(name, fans, others, k, accessory);
    }
    if bridge_accessories(name, others).contains(accessory) {
        lemma_light_of_one(name, others, fans, k, accessory);
    }
}

/// Fans that differ in the light of one have all other accessories in common.
proof fn lemma_light_of_one(
    name: Seq<char>,
    fans: Seq<FanView>,
    others: Seq<FanView>,
    k: int,
    accessory: AccessoryView,
)
    requires
        0 <= k < fans.len() == others.len(),
        others == fans.update(k, others[k]),
        others[k] == (FanView { has_light: others[k].has_light, ..fans[k] }),
        accessory.id != light_id(k),
        bridge_accessories(name, fans).contains(accessory),
    ensures
        bridge_accessories(name, others).contains(accessory),
{
    let i = lemma_whose(name, fans, accessory);
    if i < 0 {
        law_bridge_is_first(name, fans);
        law_bridge_is_first(name, others);
        assert(bridge_accessories(name, others).contains(bridge_accessories(name, others)[0]));
    } else {
        lemma_has_fan(name, others, i);
        let mine = fan_accessories(others[i], i);
        let a = fan_accessories(fans[i], i).index_of(accessory);
        assert(mine[a] == accessory);
        assert(mine.contains(accessory));
    }
}

/// Whose an accessory is: that of a fan, or with -1 the bridge itself.
proof fn lemma_whose(name: Seq<char>, fans: Seq<FanView>, accessory: AccessoryView) -> (i: int)
    requires
        bridge_accessories(name, fans).contains(accessory),
    ensures
        -1 <= i < fans.len(),
        i < 0 ==> accessory == bridge_accessories(name, fans)[0],
        i >= 0 ==> fan_accessories(fans[i], i).contains(accessory),
    decreases fans.len(),
{
    if fans.len() == 0 {
        -1
    } else {
        let before = bridge_accessories(name, fans.drop_last());
        let added = fan_accessories(fans.last(), fans.len() - 1);
        let k = bridge_accessories(name, fans).index_of(accessory);
        law_bridge_is_first(name, fans.drop_last());
        if k < before.len() {
            assert(before[k] == accessory);
            lemma_whose(name, fans.drop_last(), accessory)
        } else {
            assert(added[k - before.len()] == accessory);
            fans.len() - 1
        }
    }
}

/// A fan, or a light, has the same accessory whichever other fans have lights.
pub proof fn law_lights_renumber_nothing(
    name: Seq<char>,
    fans: Seq<FanView>,
    others: Seq<FanView>,
    i: int,
    accessory: AccessoryView,
)
    requires
        0 <= i < fans.len() == others.len(),
        forall|j: int|
            0 <= j < fans.len() ==> (#[trigger] fans[j]).name == others[j].name
                && fans[j].device_id == others[j].device_id,
        accessory.id == fan_id(i) || accessory.id == light_id(i) && others[i].has_light,
        bridge_accessories(name, fans).contains(accessory),
    ensures
        bridge_accessories(name, others).contains(accessory),
{
    lemma_has_fan(name, others, i);
    lemma_only_fan(name, fans, i, accessory);
    assert(fans[i].name == others[i].name);
    let mine = fan_accessories(others[i], i);
    if accessory.id == fan_id(i) {
        assert(accessory == mine[0]);
    } else {
        assert(accessory == mine[1]);
    }
    assert(mine.contains(accessory));
}

/// The accessories of fan `i` are among those of the bridge.
proof fn lemma_has_fan(name: Seq<char>, fans: Seq<FanView>, i: int)
    requires
        0 <= i < fans.len(),
    ensures
        forall|accessory: AccessoryView|
            #[trigger] fan_accessories(fans[i], i).contains(accessory)
                ==> bridge_accessories(name, fans).contains(accessory),
    decreases fans.len(),
{
    let before = bridge_accessories(name, fans.drop_last());
    let added = fan_accessories(fans.last(), fans.len() - 1);
    let all = bridge_accessories(name, fans);
    assert forall|accessory: AccessoryView|
        #[trigger] fan_accessories(fans[i], i).contains(accessory) implies all.contains(
        accessory,
    ) by {
        if i == fans.len() - 1 {
            let k = added.index_of(accessory);
            assert(all[before.len() + k] == accessory);
        } else {
            lemma_has_fan(name, fans.drop_last(), i);
            assert(fans.drop_last()[i] == fans[i]);
            let k = before.index_of(accessory);
            assert(all[k] == accessory);
        }
    }
}

/// An accessory with an identifier of fan `i` is one of its accessories.
proof fn lemma_only_fan(name: Seq<char>, fans: Seq<FanView>, i: int, accessory: AccessoryView)
    requires
        0 <= i < fans.len(),
        bridge_accessories(name, fans).contains(accessory),
        accessory.id == fan_id(i) || accessory.id == light_id(i),
    ensures
        fan_accessories(fans[i], i).contains(accessory),
    decreases fans.len(),
{
    let before = bridge_accessories(name, fans.drop_last());
    let added = fan_accessories(fans.last(), fans.len() - 1);
    let all = bridge_accessories(name, fans);
    let k = all.index_of(accessory);
    law_ids_ascend(name, fans.drop_last());
    if k < before.len() {
        assert(before[k] == accessory);
        assert(before[k].id < fan_id(fans.len() - 1));
        lemma_only_fan(name, fans.drop_last(), i, accessory);
        assert(fans.drop_last()[i] == fans[i]);
    } else {
        assert(added[k - before.len()] == accessory);
        assert(i == fans.len() - 1);
    }
}

/// A light that was asked to be on or off is, no other light is touched, and
/// asking again toggles nothing.
pub proof fn law_light_settles(
    lights: Map<Seq<char>, bool>,
    target: Seq<char>,
    on: bool,
    other: Seq<char>,
)
    ensures
        light_of(lights_after(lights, target, on), target) == on,
        other != target ==> light_of(lights_after(lights, target, on), other) == light_of(
            lights,
            other,
        ),
        lights_after(lights_after(lights, target, on), target, on) == lights_after(
            lights,
            target,
            on,
        ),
{
}

/// The command for every percentage, by the bits of the single-precision number:
/// what is no number is speed 0, zero and what is negative is off, and above that
/// the levels begin at 25, 41.666668, 58.333332, 75 and 91.666664 percent.
pub proof fn law_every_percentage(bits: u32)
    ensures
        percent_command(bits) == (if 0x7f80_0000 < bits < 0x8000_0000 || bits > 0xff80_0000 {
            "speed0"@
        } else if bits == 0 || bits >= 0x8000_0000 {
            "off"@
        } else if bits >= 0x42b7_5555 {
            "speed6"@
        } else if bits >= 0x4296_0000 {
            "speed5"@
        } else if bits >= 0x4269_5555 {
            "speed4"@
        } else if bits >= 0x4226_aaab {
            "speed3"@
        } else if bits >= 0x41c8_0000 {
            "speed2"@
        } else {
            "speed1"@
        }),
{
    if 0 < bits <= INFINITY_BITS {
        law_levels_begin(bits);
    }
    reveal_strlit("speed");
    reveal_strlit("speed1");
    reveal_strlit("speed2");
    reveal_strlit("speed3");
    reveal_strlit("speed4");
    reveal_strlit("speed5");
    reveal_strlit("speed6");
    assert("speed"@ + numeral(1, 10) =~= "speed1"@);
    assert("speed"@ + numeral(2, 10) =~= "speed2"@);
    assert("speed"@ + numeral(3, 10) =~= "speed3"@);
    assert("speed"@ + numeral(4, 10) =~= "speed4"@);
    assert("speed"@ + numeral(5, 10) =~= "speed5"@);
    assert("speed"@ + numeral(6, 10) =~= "speed6"@);
}

/// A light is assumed to be what was recorded of it, and off where nothing was.
pub proof fn law_lights_are_off_at_first(lights: Map<Seq<char>, bool>, target: Seq<char>)
    ensures
        !light_of(Map::empty(), target),
        lights.contains_key(target) ==> light_of(lights, target) == lights[target],
        !lights.contains_key(target) ==> !light_of(lights, target),
{
}

/// The lights after some requests, each for a target to be on or off, in order.
pub open spec fn lights_then(requests: Seq<(Seq<char>, bool)>) -> Map<Seq<char>, bool>
    decreases requests.len(),
{
    if requests.len() == 0 {
        Map::empty()
    } else {
        lights_after(
            lights_then(requests.drop_last()),
            requests.last().0,
            requests.last().1,
        )
    }
}

/// How often the light of `target` is toggled on these requests.
pub open spec fn toggles(requests: Seq<(Seq<char>, bool)>, target: Seq<char>) -> nat
    decreases requests.len(),
{
    if requests.len() == 0 {
        0
    } else {
        let before = lights_then(requests.drop_last());
        toggles(requests.drop_last(), target) + if requests.last().0 == target && light_of(
            before,
            target,
        ) != requests.last().1 {
            1nat
        } else {
            0
        }
    }
}

/// What was asked of the light of `target` last; off before anything was.
pub open spec fn asked_last(requests: Seq<(Seq<char>, bool)>, target: Seq<char>) -> bool
    decreases requests.len(),
{
    if requests.len() == 0 {
        false
    } else if requests.last().0 == target {
        requests.last().1
    } else {
        asked_last(requests.drop_last(), target)
    }
}

/// After any requests, a light that was off and has been toggled each time is as it
/// was asked to be last: it has been toggled an odd number of times exactly where
/// that is on.
pub proof fn law_toggles_add_up(requests: Seq<(Seq<char>, bool)>, target: Seq<char>)
    ensures
        light_of(lights_then(requests), target) == asked_last(requests, target),
        toggles(requests, target) % 2 == 1 <==> asked_last(requests, target),
    decreases requests.len(),
{
    if requests.len() > 0 {
        law_toggles_add_up(requests.drop_last(), target);
    }
}

/// An accessory of this maker.
pub open spec fn accessory_of(
    id: int,
    role: RoleView,
    name: Seq<char>,
    serial_number: Seq<char>,
) -> AccessoryView {
    AccessoryView {
        id,
        role,
        name,
        manufacturer: "fan-controller"@,
        model: "OOK-433"@,
        serial_number,
    }
}

/// The accessories: first the bridge, with identifier 1, and then each fan in its
/// place, the fan at `i` with identifier `2 + 2 * i`, and right behind it its light,
/// with the identifier after that, where it has one. There are no others.
pub proof fn law_accessories(name: Seq<char>, fans: Seq<FanView>, i: int)
    requires
        0 <= i < fans.len(),
    ensures
        ({
            let all = bridge_accessories(name, fans);
            let fan = fans[i];
            let at = 1 + i + lights(fans.take(i));
            &&& all.len() == 1 + fans.len() + lights(fans)
            &&& all[0] == accessory_of(1, RoleView::Bridge, name, "fan-controller-bridge"@)
            &&& all[at] == accessory_of(
                2 + 2 * i,
                RoleView::Fan { target: fan.name },
                fan.name,
                serial(fan.device_id) + "-fan"@,
            )
            &&& fan.has_light ==> all[at + 1] == accessory_of(
                3 + 2 * i,
                RoleView::Light { target: fan.name },
                fan.name + " light"@,
                serial(fan.device_id) + "-light"@,
            )
        }),
    decreases fans.len(),
{
    lemma_accessories_len(name, fans);
    lemma_accessories_len(name, fans.drop_last());
    law_first_accessory(name, fans);
    let all = bridge_accessories(name, fans);
    let before = bridge_accessories(name, fans.drop_last());
    let added = fan_accessories(fans.last(), fans.len() - 1);
    let at = 1 + i + lights(fans.take(i));
    if i < fans.len() - 1 {
        law_accessories(name, fans.drop_last(), i);
        assert(fans.drop_last().take(i) =~= fans.take(i));
        assert(fans.drop_last()[i] == fans[i]);
        lemma_accessory_fits(fans.drop_last(), i);
        assert(all[at] == before[at]);
        if fans[i].has_light {
            assert(all[at + 1] == before[at + 1]);
        }
    } else {
        assert(fans.take(i) =~= fans.drop_last());
        assert(all[at] == added[0]);
        if fans[i].has_light {
            assert(all[at + 1] == added[1]);
        }
    }
}

/// Whatever fans there are, the bridge comes first, and without fans it is alone.
pub proof fn law_first_accessory(name: Seq<char>, fans: Seq<FanView>)
    ensures
        bridge_accessories(name, fans).len() > 0,
        bridge_accessories(name, fans)[0] == accessory_of(
            1,
            RoleView::Bridge,
            name,
            "fan-controller-bridge"@,
        ),
        fans.len() == 0 ==> bridge_accessories(name, fans).len() == 1,
    decreases fans.len(),
{
    if fans.len() > 0 {
        law_first_accessory(name, fans.drop_last());
    }
}

proof fn lemma_accessories_len(name: Seq<char>, fans: Seq<FanView>)
    ensures
        bridge_accessories(name, fans).len() == 1 + fans.len() + lights(fans),
    decreases fans.len(),
{
    if fans.len() > 0 {
        lemma_accessories_len(name, fans.drop_last());
    }
}

proof fn lemma_accessory_fits(fans: Seq<FanView>, i: int)
    requires
        0 <= i < fans.len(),
    ensures
        1 + i + lights(fans.take(i)) + (if fans[i].has_light {
            1int
        } else {
            0
        }) < 1 + fans.len() + lights(fans),
    decreases fans.len(),
{
    if i < fans.len() - 1 {
        lemma_accessory_fits(fans.drop_last(), i);
        assert(fans.drop_last().take(i) =~= fans.take(i));
        assert(fans.drop_last()[i] == fans[i]);
    } else {
        assert(fans.take(i) =~= fans.drop_last());
    }
}

/// A serial number is the identifier of the device in base sixteen, with five digits
/// for identifiers of 20 bits, and more without a zero in front for larger ones.
pub proof fn law_serial_numbers(device_id: u32)
    ensures
        digits_in(serial(device_id), 16),
        value_in(serial(device_id), 16) == device_id,
        serial(device_id).len() >= 5,
        device_id < 0x10_0000 ==> serial(device_id).len() == 5,
        serial(device_id).len() > 5 ==> serial(device_id)[0] != '0',
{
    law_numeral_reads_back(device_id as nat, 16);
    law_padding(numeral(device_id as nat, 16), 5);
    law_padding_keeps_the_number(numeral(device_id as nat, 16), 5, 16);
    if device_id < 0x10_0000 {
        assert(pow(16, 5) == 0x10_0000) by {
            reveal(pow);
            reveal_with_fuel(pow, 6);
        }
        lemma_hex_len(device_id as nat, 5);
    }
}

/// What an accessory is is what it holds, and some accessories are each of them in
/// order.
pub proof fn law_accessories_are_what_they_hold(accessories: Seq<Accessory>, i: int)
    requires
        0 <= i < accessories.len(),
    ensures
        ({
            let held = accessories[i];
            let view = accessory_views(accessories)[i];
            &&& accessory_views(accessories).len() == accessories.len()
            &&& view.id == held.id
            &&& view.name == held.name@
            &&& view.manufacturer == held.manufacturer@
            &&& view.model == held.model@
            &&& view.serial_number == held.serial_number@
            &&& held.role is Bridge <==> view.role is Bridge
            &&& held.role matches Role::Fan { target } ==> view.role == (RoleView::Fan {
                target: target@,
            })
            &&& held.role matches Role::Light { target } ==> view.role == (RoleView::Light {
                target: target@,
            })
        }),
{
}

/// The digits of a pin are those of its parts, one after the other, and of one
/// number they are its numeral.
pub proof fn law_pin_digits(a: Seq<u8>, b: Seq<u8>, digit: u8)
    ensures
        pin_digits(a + b) == pin_digits(a) + pin_digits(b),
        pin_digits(seq![digit]) == numeral(digit as nat, 10),
    decreases b.len(),
{
    let none = Seq::<u8>::empty();
    assert(seq![digit].drop_last() =~= none);
    assert(pin_digits(none) =~= Seq::empty());
    assert(pin_digits(seq![digit]) =~= numeral(digit as nat, 10));
    if b.len() == 0 {
        assert(a + b =~= a);
        assert(pin_digits(a + b) =~= pin_digits(a) + pin_digits(b));
    } else {
        law_pin_digits(a, b.drop_last(), digit);
        assert((a + b).drop_last() =~= a + b.drop_last());
        assert(pin_digits(a + b) =~= pin_digits(a) + pin_digits(b));
    }
}

/// The pairing code of a pin of eight numbers is the first eight characters of its
/// digits, with a dash behind the third and the fifth.
pub proof fn law_pairing_code(pin: Seq<u8>)
    requires
        pin.len() == 8,
    ensures
        ({
            let code = pairing_text(pin);
            let digits = pin_digits(pin);
            &&& code.len() == 10
            &&& code[3] == '-' && code[6] == '-'
            &&& code[0] == digits[0] && code[1] == digits[1] && code[2] == digits[2]
            &&& code[4] == digits[3] && code[5] == digits[4]
            &&& code[7] == digits[5] && code[8] == digits[6] && code[9] == digits[7]
        }),
{
    reveal_strlit("-");
    lemma_pin_len(pin);
}

proof fn lemma_pin_len(pin: Seq<u8>)
    ensures
        pin_digits(pin).len() >= pin.len(),
    decreases pin.len(),
{
    if pin.len() > 0 {
        lemma_pin_len(pin.drop_last());
        law_numeral_reads_back(pin.last() as nat, 10);
    }
}

/// Of a pin of digits, the pairing code shows each in its place.
pub proof fn law_digits_of_pairing_code(pin: Seq<u8>, i: int)
    requires
        pin.len() == 8,
        forall|k: int| 0 <= k < 8 ==> #[trigger] pin[k] < 10,
        0 <= i < 8,
    ensures
        ({
            let at = if i < 3 {
                i
            } else if i < 5 {
                i + 1
            } else {
                i + 2
            };
            pairing_text(pin)[at] as int == '0' as int + pin[i]
        }),
{
    law_pairing_code(pin);
    lemma_pin_of_digits(pin, i);
}

proof fn lemma_pin_of_digits(pin: Seq<u8>, i: int)
    requires
        forall|k: int| 0 <= k < pin.len() ==> #[trigger] pin[k] < 10,
        0 <= i < pin.len(),
    ensures
        pin_digits(pin).len() == pin.len(),
        pin_digits(pin)[i] as int == '0' as int + pin[i],
    decreases pin.len(),
{
    let head = pin.drop_last();
    assert forall|k: int| 0 <= k < head.len() implies #[trigger] head[k] < 10 by {
        assert(head[k] == pin[k]);
    }
    assert(pin[pin.len() - 1] < 10);
    if head.len() > 0 {
        lemma_pin_of_digits(
            head,
            if i < head.len() {
                i
            } else {
                0
            },
        );
    }
}

} // verus!
