//! Bridge between HomeKit and the fans.
//!
//! Each fan is an accessory with power and speed, and its light, if it has one,
//! is another.

use vstd::hash_map::StringHashMap;
use vstd::prelude::*;
use vstd::string::*;

use crate::config::{Fan, FanView, LoadedConfig};
use crate::discovery::{MANUFACTURER, MODEL};
use crate::text::{numeral, numeral_chars, padded_hex, text_of, zero_padded};

verus! {

/// What a single-precision number is at most, as bits: infinity.
pub const INFINITY_BITS: u32 = 0x7f80_0000;

/// The bit that is set in negative single-precision numbers.
pub const SIGN_BIT: u32 = 0x8000_0000;

/// A percentage from 16 to below 128, given by its bits, times 2^19: an integer.
pub open spec fn scaled_percent(bits: u32) -> nat
    recommends
        0x4180_0000 <= bits < 0x4300_0000,
{
    let significand: nat = (0x80_0000 + bits % 0x80_0000) as nat;
    if bits < 0x4200_0000 {
        significand
    } else if bits < 0x4280_0000 {
        2 * significand
    } else {
        4 * significand
    }
}

/// The integer nearest to `num / den`, and the even one of two.
pub open spec fn nearest_even(num: nat, den: nat) -> nat
    recommends
        den > 0,
{
    let floor = num / den;
    let rest = num % den;
    if 2 * rest > den || (2 * rest == den && floor % 2 == 1) {
        floor + 1
    } else {
        floor
    }
}

/// How far apart single-precision numbers are around `num / den`, in units in
/// which numbers from 2^23 to 2^24 are one apart. For `num / den` from 2^23 to
/// below 2^29.
pub open spec fn spacing(num: nat, den: nat) -> nat {
    if num < den * 0x100_0000 {
        1
    } else if num < den * 0x200_0000 {
        2
    } else if num < den * 0x400_0000 {
        4
    } else if num < den * 0x800_0000 {
        8
    } else if num < den * 0x1000_0000 {
        16
    } else {
        32
    }
}

/// The single-precision number nearest to `num / den`, in the same units.
pub open spec fn nearest_single(num: nat, den: nat) -> nat {
    spacing(num, den) * nearest_even(num, den * spacing(num, den))
}

/// A percentage from 16 to below 128, divided by 100, to single precision and in
/// units of 2^-26.
pub open spec fn share(bits: u32) -> nat {
    nearest_single(32 * scaled_percent(bits), 25)
}

/// That share multiplied by 6, to single precision and in the same units.
pub open spec fn steps(bits: u32) -> nat {
    nearest_single(6 * share(bits), 1)
}

/// The speed level for a percentage above zero, a single-precision number given
/// by its bits, which are ordered as the numbers are: the percentage divided by
/// 100 and multiplied by 6, rounded to the nearest integer and brought within 1
/// to 6. Below 16 and from 128 on that is 1 and 6.
pub open spec fn percent_level(bits: u32) -> u8 {
    if bits < 0x4180_0000 {
        1
    } else if bits >= 0x4300_0000 {
        6
    } else {
        let level = (steps(bits) + 0x200_0000) / 0x400_0000;
        if level < 1 {
            1
        } else if level > 6 {
            6
        } else {
            level as u8
        }
    }
}

fn round_to_even(num: u64, den: u64) -> (nearest: u64)
    requires
        0 < den <= 0x1000,
        num <= 0xffff_ffff,
    ensures
        nearest == nearest_even(num as nat, den as nat),
        nearest * den <= num + den,
{
    let floor: u64 = num / den;
    let rest: u64 = num % den;
    assert(floor * den + rest == num && floor <= num) by (nonlinear_arith)
        requires
            floor == num / den,
            rest == num % den,
            den > 0,
    ;
    if 2 * rest > den || (2 * rest == den && floor % 2 == 1) {
        assert((floor + 1) * den == floor * den + den) by (nonlinear_arith);
        floor + 1
    } else {
        floor
    }
}

fn round_to_single(num: u64, den: u64) -> (nearest: u64)
    requires
        0 < den <= 25,
        num <= 0xffff_ffff,
    ensures
        nearest == nearest_single(num as nat, den as nat),
        nearest * den <= num + 32 * den,
{
    let space: u64 = if num < den * 0x100_0000 {
        1
    } else if num < den * 0x200_0000 {
        2
    } else if num < den * 0x400_0000 {
        4
    } else if num < den * 0x800_0000 {
        8
    } else if num < den * 0x1000_0000 {
        16
    } else {
        32
    };
    let count: u64 = round_to_even(num, den * space);
    assert(count * (den * space) == (space * count) * den) by (nonlinear_arith);
    assert(space * count <= (space * count) * den) by (nonlinear_arith)
        requires
            den >= 1,
            space >= 1,
    ;
    space * count
}

/// The speed level for a percentage above zero.
fn level_of(percent: u32) -> (level: u8)
    ensures
        level == percent_level(percent),
{
    if percent < 0x4180_0000 {
        return 1;
    }
    if percent >= 0x4300_0000 {
        return 6;
    }
    let significand: u64 = 0x80_0000 + (percent % 0x80_0000) as u64;
    let scaled: u64 = if percent < 0x4200_0000 {
        significand
    } else if percent < 0x4280_0000 {
        2 * significand
    } else {
        4 * significand
    };
    let share: u64 = round_to_single(32 * scaled, 25);
    let steps: u64 = round_to_single(6 * share, 1);
    let level: u64 = (steps + 0x200_0000) / 0x400_0000;
    if level < 1 {
        1
    } else if level > 6 {
        6
    } else {
        level as u8
    }
}

/// Whether the bits are those of no number.
pub open spec fn not_a_number(bits: u32) -> bool {
    INFINITY_BITS < bits < SIGN_BIT || bits > SIGN_BIT + INFINITY_BITS
}

/// The command for a percentage, a single-precision number given by its bits:
/// off at zero and below, and the speed level above. What is no number has no
/// level and comes out as zero.
pub open spec fn percent_command(bits: u32) -> Seq<char> {
    if not_a_number(bits) {
        "speed0"@
    } else if bits == 0 || bits >= SIGN_BIT {
        "off"@
    } else {
        "speed"@ + numeral(percent_level(bits) as nat, 10)
    }
}

/// Maps a rotation speed in percent, given by the bits of the single-precision
/// number, to a fan command.
pub fn speed_cmd(percent: u32) -> (cmd: String)
    ensures
        cmd@ == percent_command(percent),
{
    if (INFINITY_BITS < percent && percent < SIGN_BIT) || percent > SIGN_BIT + INFINITY_BITS {
        return "speed0".to_owned();
    }
    if percent == 0 || percent >= SIGN_BIT {
        return "off".to_owned();
    }
    let level: u64 = level_of(percent) as u64;
    let digits: Vec<char> = numeral_chars(level, 10);
    "speed".to_owned().concat(text_of(digits.as_slice()).as_str())
}

/// The command for power: the protocol has no bare "on", so a fan that is
/// turned on runs at a middle speed.
pub fn power_cmd(on: bool) -> (cmd: String)
    ensures
        cmd@ == (if on {
            "speed3"@
        } else {
            "off"@
        }),
{
    if on {
        "speed3".to_owned()
    } else {
        "off".to_owned()
    }
}

/// Whether a light is assumed to be on; it is off before the first command.
pub open spec fn light_of(lights: Map<Seq<char>, bool>, target: Seq<char>) -> bool {
    lights.contains_key(target) && lights[target]
}

/// The lights after `target` was asked to be on or off.
pub open spec fn lights_after(
    lights: Map<Seq<char>, bool>,
    target: Seq<char>,
    on: bool,
) -> Map<Seq<char>, bool> {
    if light_of(lights, target) != on {
        lights.insert(target, on)
    } else {
        lights
    }
}

/// The assumed state of each light. The remotes only toggle lights, so the
/// state drifts where a remote is used.
pub struct Lights {
    pub light_on: StringHashMap<bool>,
}

impl Lights {
    /// All lights off.
    pub fn new() -> (lights: Self)
        ensures
            lights.light_on@ == Map::<Seq<char>, bool>::empty(),
    {
        Lights { light_on: StringHashMap::new() }
    }

    /// Takes in that a light is to be on or off, and hands out the command for
    /// that, if it is not yet assumed to be.
    pub fn request(&mut self, target: &str, on: bool) -> (cmd: Option<String>)
        ensures
            match cmd {
                Some(cmd) => light_of(old(self).light_on@, target@) != on && cmd@
                    == "toggle_light"@,
                None => light_of(old(self).light_on@, target@) == on,
            },
            final(self).light_on@ == lights_after(old(self).light_on@, target@, on),
    {
        let current: bool = match self.light_on.get(target) {
            Some(on) => *on,
            None => false,
        };
        if current != on {
            self.light_on.insert(target.to_owned(), on);
            Some("toggle_light".to_owned())
        } else {
            None
        }
    }
}

/// What an accessory is for.
pub enum Role {
    Bridge,
    /// Power and speed of a fan.
    Fan { target: String },
    /// The light of a fan.
    Light { target: String },
}

/// An accessory to offer.
pub struct Accessory {
    pub id: u64,
    pub role: Role,
    pub name: String,
    pub manufacturer: String,
    pub model: String,
    pub serial_number: String,
}

/// What an accessory is for.
#[verifier::ext_equal]
pub enum RoleView {
    Bridge,
    Fan { target: Seq<char> },
    Light { target: Seq<char> },
}

/// What an accessory is.
#[verifier::ext_equal]
pub struct AccessoryView {
    pub id: int,
    pub role: RoleView,
    pub name: Seq<char>,
    pub manufacturer: Seq<char>,
    pub model: Seq<char>,
    pub serial_number: Seq<char>,
}

impl View for Role {
    type V = RoleView;

    open spec fn view(&self) -> RoleView {
        match self {
            Role::Bridge => RoleView::Bridge,
            Role::Fan { target } => RoleView::Fan { target: target@ },
            Role::Light { target } => RoleView::Light { target: target@ },
        }
    }
}

impl View for Accessory {
    type V = AccessoryView;

    open spec fn view(&self) -> AccessoryView {
        AccessoryView {
            id: self.id as int,
            role: self.role@,
            name: self.name@,
            manufacturer: self.manufacturer@,
            model: self.model@,
            serial_number: self.serial_number@,
        }
    }
}

/// What some accessories are.
pub open spec fn accessory_views(accessories: Seq<Accessory>) -> Seq<AccessoryView> {
    accessories.map_values(|accessory: Accessory| accessory@)
}

/// An accessory of this maker.
pub open spec fn made(id: int, role: RoleView, name: Seq<char>, serial: Seq<char>) -> AccessoryView {
    AccessoryView {
        id,
        role,
        name,
        manufacturer: MANUFACTURER@,
        model: MODEL@,
        serial_number: serial,
    }
}

/// The identifier of a device as its serial number.
pub open spec fn serial(device_id: u32) -> Seq<char> {
    zero_padded(numeral(device_id as nat, 16), 5)
}

/// The identifier of fan `i`. Two are reserved for each fan, for the fan and
/// for its light, so that no light renumbers other accessories; 1 is the bridge.
pub open spec fn fan_id(i: int) -> int {
    2 + 2 * i
}

/// The identifier of the light of fan `i`.
pub open spec fn light_id(i: int) -> int {
    fan_id(i) + 1
}

/// The accessories of fan `i`.
pub open spec fn fan_accessories(fan: FanView, i: int) -> Seq<AccessoryView> {
    let entity = made(
        fan_id(i),
        RoleView::Fan { target: fan.name },
        fan.name,
        serial(fan.device_id) + "-fan"@,
    );
    let light = made(
        light_id(i),
        RoleView::Light { target: fan.name },
        fan.name + " light"@,
        serial(fan.device_id) + "-light"@,
    );
    if fan.has_light {
        seq![entity, light]
    } else {
        seq![entity]
    }
}

/// The accessories of a bridge of that name: the bridge, and those of each fan
/// in order.
pub open spec fn bridge_accessories(name: Seq<char>, fans: Seq<FanView>) -> Seq<AccessoryView>
    decreases fans.len(),
{
    if fans.len() == 0 {
        seq![made(1, RoleView::Bridge, name, "fan-controller-bridge"@)]
    } else {
        bridge_accessories(name, fans.drop_last()) + fan_accessories(fans.last(), fans.len() - 1)
    }
}

fn make(id: u64, role: Role, name: String, serial_number: String) -> (accessory: Accessory)
    ensures
        accessory@ == made(id as int, role@, name@, serial_number@),
{
    Accessory {
        id,
        role,
        name,
        manufacturer: MANUFACTURER.to_owned(),
        model: MODEL.to_owned(),
        serial_number,
    }
}

/// Adds the accessories of fan `i`.
fn add_fan(accessories: &mut Vec<Accessory>, fan: &Fan, i: usize)
    requires
        i < 0x7fff_ffff_ffff_ffff,
    ensures
        accessory_views(final(accessories)@) == accessory_views(old(accessories)@)
            + fan_accessories(fan@, i as int),
{
    let ghost before = accessory_views(accessories@);
    let id: u64 = 2 + 2 * (i as u64);
    let serial: String = padded_hex(fan.device_id as u64, 5);
    accessories.push(
        make(
            id,
            Role::Fan { target: fan.name.clone() },
            fan.name.clone(),
            serial.clone().concat("-fan"),
        ),
    );
    if fan.has_light {
        accessories.push(
            make(
                id + 1,
                Role::Light { target: fan.name.clone() },
                fan.name.clone().concat(" light"),
                serial.concat("-light"),
            ),
        );
    }
    assert(accessory_views(accessories@) =~= before + fan_accessories(fan@, i as int));
}

/// The accessories of a bridge of that name.
pub fn accessories(name: &str, config: &LoadedConfig) -> (accessories: Vec<Accessory>)
    requires
        config.fans@.len() <= 0x7fff_ffff_ffff_ffff,
    ensures
        accessory_views(accessories@) == bridge_accessories(name@, config@),
{
    let ghost fans = config@;
    let mut accessories: Vec<Accessory> = Vec::new();
    accessories.push(make(1, Role::Bridge, name.to_owned(), "fan-controller-bridge".to_owned()));
    let mut i: usize = 0;
    assert(accessory_views(accessories@) =~= bridge_accessories(name@, fans.take(0)));
    while i < config.fans.len()
        invariant
            i <= config.fans@.len() <= 0x7fff_ffff_ffff_ffff,
            fans == config@,
            accessory_views(accessories@) == bridge_accessories(name@, fans.take(i as int)),
        decreases config.fans@.len() - i,
    {
        add_fan(&mut accessories, &config.fans[i], i);
        assert(fans.take(i + 1).drop_last() =~= fans.take(i as int));
        assert(fans.take(i + 1).last() == config.fans@[i as int]@);
        i = i + 1;
    }
    assert(fans.take(i as int) =~= fans);
    accessories
}

/// The digits of a pin, each in decimal.
pub open spec fn pin_digits(pin: Seq<u8>) -> Seq<char>
    decreases pin.len(),
{
    if pin.len() == 0 {
        Seq::empty()
    } else {
        pin_digits(pin.drop_last()) + numeral(pin.last() as nat, 10)
    }
}

/// The pairing code of a pin: the first eight digits of its text, as three, two
/// and three.
pub open spec fn pairing_text(pin: Seq<u8>) -> Seq<char> {
    let digits = pin_digits(pin);
    digits.subrange(0, 3) + "-"@ + digits.subrange(3, 5) + "-"@ + digits.subrange(5, 8)
}

/// Adds the characters of `chars` from `start` to `end`.
fn push_range(text: &mut String, chars: &Vec<char>, start: usize, end: usize)
    requires
        start <= end <= chars@.len(),
    ensures
        final(text)@ == old(text)@ + chars@.subrange(start as int, end as int),
{
    let ghost before = text@;
    let mut i: usize = start;
    assert(text@ =~= before + chars@.subrange(start as int, i as int));
    while i < end
        invariant
            start <= i <= end <= chars@.len(),
            text@ == before + chars@.subrange(start as int, i as int),
        decreases end - i,
    {
        text.push(chars[i]);
        i = i + 1;
        assert(text@ =~= before + chars@.subrange(start as int, i as int));
    }
}

/// The pairing code of a pin.
pub fn pairing_code(pin: [u8; 8]) -> (code: String)
    ensures
        code@ == pairing_text(pin@),
{
    let mut digits: Vec<char> = Vec::new();
    let mut i: usize = 0;
    assert(pin@.take(0) =~= Seq::empty());
    while i < 8
        invariant
            i <= 8,
            digits@ == pin_digits(pin@.take(i as int)),
            digits@.len() >= i,
        decreases 8 - i,
    {
        let ghost before = digits@;
        let mut digit: Vec<char> = numeral_chars(pin[i] as u64, 10);
        assert(digit@.len() >= 1);
        digits.append(&mut digit);
        assert(pin@.take(i + 1).drop_last() =~= pin@.take(i as int));
        i = i + 1;
    }
    assert(pin@.take(8) =~= pin@);
    let mut code: String = String::new();
    push_range(&mut code, &digits, 0, 3);
    code.append("-");
    push_range(&mut code, &digits, 3, 5);
    code.append("-");
    push_range(&mut code, &digits, 5, 8);
    assert(code@ =~= pairing_text(pin@));
    code
}

} // verus!
