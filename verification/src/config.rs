//! The configured fans.

use vstd::prelude::*;

verus! {

/// A configured fan.
pub struct Fan {
    pub name: String,
    /// The identifier that its remote sends, 20 bits.
    pub device_id: u32,
    /// Whether it has a physical light.
    pub has_light: bool,
    /// The names of the buttons of its remote.
    pub buttons: Vec<String>,
}

/// What a configured fan is.
#[verifier::ext_equal]
pub struct FanView {
    pub name: Seq<char>,
    pub device_id: u32,
    pub has_light: bool,
    pub buttons: Seq<Seq<char>>,
}

/// The texts of some strings.
pub open spec fn texts(strings: Seq<String>) -> Seq<Seq<char>> {
    strings.map_values(|string: String| string@)
}

impl View for Fan {
    type V = FanView;

    open spec fn view(&self) -> FanView {
        FanView {
            name: self.name@,
            device_id: self.device_id,
            has_light: self.has_light,
            buttons: texts(self.buttons@),
        }
    }
}

/// The configuration.
pub struct LoadedConfig {
    pub fans: Vec<Fan>,
}

impl View for LoadedConfig {
    type V = Seq<FanView>;

    open spec fn view(&self) -> Seq<FanView> {
        self.fans@.map_values(|fan: Fan| fan@)
    }
}

/// Whether fan `i` is the first of its name.
pub open spec fn is_first_named(fans: Seq<FanView>, name: Seq<char>, i: int) -> bool {
    &&& 0 <= i < fans.len()
    &&& fans[i].name == name
    &&& forall|j: int| 0 <= j < i ==> (#[trigger] fans[j]).name != name
}

/// Whether the fan of that name has a button of its own for each direction;
/// others only toggle it.
pub open spec fn absolute_direction(fans: Seq<FanView>, name: Seq<char>) -> bool {
    exists|i: int|
        #[trigger] is_first_named(fans, name, i) && fans[i].buttons.contains("forward"@)
}

/// Whether `strings` hold `text`.
pub fn holds(strings: &Vec<String>, text: &String) -> (found: bool)
    ensures
        found == texts(strings@).contains(text@),
{
    let mut i: usize = 0;
    while i < strings.len()
        invariant
            i <= strings@.len(),
            forall|j: int| 0 <= j < i ==> #[trigger] texts(strings@)[j] != text@,
        decreases strings@.len() - i,
    {
        if strings[i] == *text {
            assert(texts(strings@)[i as int] == text@);
            return true;
        }
        i = i + 1;
    }
    false
}

impl LoadedConfig {
    /// Whether the fan of that name has a button of its own for each direction.
    pub fn has_absolute_direction(&self, name: &String) -> (absolute: bool)
        ensures
            absolute == absolute_direction(self@, name@),
    {
        let mut i: usize = 0;
        while i < self.fans.len()
            invariant
                i <= self.fans@.len(),
                forall|j: int| 0 <= j < i ==> (#[trigger] self@[j]).name != name@,
            decreases self.fans@.len() - i,
        {
            if self.fans[i].name == *name {
                let forward: String = "forward".to_owned();
                let absolute: bool = holds(&self.fans[i].buttons, &forward);
                proof {
                    assert(self@[i as int] == self.fans@[i as int]@);
                    assert(is_first_named(self@, name@, i as int));
                    assert forall|k: int| is_first_named(self@, name@, k) implies k == i by {}
                }
                return absolute;
            }
            assert(self@[i as int].name != name@);
            i = i + 1;
        }
        false
    }
}

} // verus!
