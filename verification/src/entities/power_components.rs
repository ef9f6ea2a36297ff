use rltk::RandomNumberGenerator;
use vstd::prelude::*;

use crate::entities::intents::Interactable;

verus! {

/// Membership of a power network.
#[derive(Clone, Copy, Debug, Default)]
pub struct PowerNode {
    pub network_id: usize,
    pub dirty: bool,
}

impl PowerNode {
    /// A node in a network of its own, with a random id, waiting to be connected.
    pub fn new(rng: &mut RandomNumberGenerator) -> (n: PowerNode)
        ensures
            n.dirty,
    {
        let id = crate::rng::random_int(rng);
        PowerNode { network_id: id as usize, dirty: true }
    }
}

/// How a powered device is described, from whether it is switched on and whether
/// the power available covers what it draws.
pub open spec fn power_state_text(on: bool, powered: bool) -> Seq<char> {
    if on && powered {
        "on, powered"@
    } else if on {
        "on, not powered"@
    } else if powered {
        "off, powered"@
    } else {
        "off, not powered"@
    }
}

/// How a powered device is described, from whether it is switched on and whether
/// the power available covers what it draws.
pub fn power_state_description(on: bool, powered: bool) -> (s: String)
    ensures
        s@ == power_state_text(on, powered),
{
    if on && powered {
        "on, powered".to_owned()
    } else if on && !powered {
        "on, not powered".to_owned()
    } else if !on && powered {
        "off, powered".to_owned()
    } else {
        "off, not powered".to_owned()
    }
}

/// Marks a breaker box.
#[derive(Clone, Copy, Debug, Default)]
pub struct BreakerBox {}

/// A switch that turns a device or a network on and off.
#[derive(Clone, Debug)]
pub struct PowerSwitch {
    pub on: bool,
    pub interaction_description: String,
    pub interaction_id: u32,
}

/// What using a switch does next: turn it off when on, on when off.
pub open spec fn switch_action(on: bool) -> Seq<char> {
    if on {
        "Turn off"@
    } else {
        "Turn on"@
    }
}

/// How a switch is described: `on` or `off`.
pub open spec fn switch_state(on: bool) -> Seq<char> {
    if on {
        "on"@
    } else {
        "off"@
    }
}

/// A switch as plain values: on, the description of its interaction, the
/// interaction's id.
pub open spec fn switch_view(s: PowerSwitch) -> (bool, Seq<char>, u32) {
    (s.on, s.interaction_description@, s.interaction_id)
}

/// A switch after it is flipped.
pub open spec fn switch_toggled(s: (bool, Seq<char>, u32)) -> (bool, Seq<char>, u32) {
    (!s.0, switch_action(!s.0), s.2)
}

/// Flipping a switch twice gives back the switch as it was, when its description
/// matches its state, as every switch that `PowerSwitch::new` makes does.
pub proof fn lemma_switch_toggle_twice(s: PowerSwitch)
    requires
        s.interaction_description@ == switch_action(s.on),
    ensures
        switch_toggled(switch_toggled(switch_view(s))) == switch_view(s),
{
}

impl PowerSwitch {
    /// A switch in the given state with a random interaction id.
    pub fn new(on: bool, rng: &mut RandomNumberGenerator) -> (s: PowerSwitch)
        ensures
            s.on == on,
            s.interaction_description@ == switch_action(on),
    {
        let description = if on {
            "Turn off".to_owned()
        } else {
            "Turn on".to_owned()
        };
        let id = crate::rng::random_int(rng);
        PowerSwitch { on, interaction_description: description, interaction_id: id as u32 }
    }

    /// Flips the switch.
    pub fn toggle(&mut self)
        ensures
            switch_view(*final(self)) == switch_toggled(switch_view(*old(self))),
            final(self).on == !old(self).on,
            final(self).interaction_description@ == switch_action(final(self).on),
            final(self).interaction_id == old(self).interaction_id,
    {
        self.on = !self.on;
        if self.on {
            self.interaction_description = "Turn off".to_owned();
        } else {
            self.interaction_description = "Turn on".to_owned();
        }
    }

    /// `on` or `off`.
    pub fn state_description(&self) -> (s: String)
        ensures
            s@ == switch_state(self.on),
    {
        if self.on {
            "on".to_owned()
        } else {
            "off".to_owned()
        }
    }
}

impl Interactable for PowerSwitch {
    fn interact(&mut self)
        ensures
            final(self).on == !old(self).on,
            final(self).interaction_description@ == switch_action(final(self).on),
            final(self).interaction_id == old(self).interaction_id,
    {
        self.toggle();
    }

    fn interaction_id(&self) -> (id: u32)
        ensures
            id == self.interaction_id,
    {
        self.interaction_id
    }

    fn interaction_description(&self) -> (s: String)
        ensures
            s@ == self.interaction_description@,
    {
        self.interaction_description.clone()
    }

    fn state_description(&self) -> (s: String)
        ensures
            s@ == switch_state(self.on),
    {
        PowerSwitch::state_description(self)
    }
}

} // verus!
