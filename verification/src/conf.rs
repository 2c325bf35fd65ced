//! The configuration data model: per-axis shaping options for both sticks
//! and both triggers, with structural defaults and the reload decision the
//! configuration watcher acts on.

use vstd::prelude::*;
use crate::input::stick::StickOptions;
use crate::input::trigger::TriggerOptions;

verus! {

#[derive(Clone, Copy, Debug)]
pub struct Sticks {
    pub left: StickOptions,
    pub right: StickOptions,
}

impl Sticks {
    /// Both sticks carry valid shaping options.
    pub open spec fn valid(self) -> bool {
        self.left.valid() && self.right.valid()
    }

    /// Identity curves on both sticks.
    pub open spec fn is_default(self) -> bool {
        self.left.is_default() && self.right.is_default()
    }
}

impl Default for Sticks {
    /// Identity curves on both sticks.
    fn default() -> (r: Self)
        ensures
            r.is_default(),
            r.valid(),
    {
        Self { left: StickOptions::default(), right: StickOptions::default() }
    }
}

impl PartialEq for Sticks {
    fn eq(&self, other: &Self) -> (r: bool) {
        self.left == other.left && self.right == other.right
    }
}

impl Eq for Sticks {

}

impl vstd::std_specs::cmp::PartialEqSpecImpl for Sticks {
    open spec fn obeys_eq_spec() -> bool {
        true
    }

    open spec fn eq_spec(&self, other: &Self) -> bool {
        self.left == other.left && self.right == other.right
    }
}

#[derive(Clone, Copy, Debug)]
pub struct Triggers {
    pub left: TriggerOptions,
    pub right: TriggerOptions,
}

impl Triggers {
    /// Both triggers carry valid shaping options.
    pub open spec fn valid(self) -> bool {
        self.left.valid() && self.right.valid()
    }

    /// Identity curves on both triggers.
    pub open spec fn is_default(self) -> bool {
        self.left.is_default() && self.right.is_default()
    }
}

impl Default for Triggers {
    /// Identity curves on both triggers.
    fn default() -> (r: Self)
        ensures
            r.is_default(),
            r.valid(),
    {
        Self { left: TriggerOptions::default(), right: TriggerOptions::default() }
    }
}

impl PartialEq for Triggers {
    fn eq(&self, other: &Self) -> (r: bool) {
        self.left == other.left && self.right == other.right
    }
}

impl Eq for Triggers {

}

impl vstd::std_specs::cmp::PartialEqSpecImpl for Triggers {
    open spec fn obeys_eq_spec() -> bool {
        true
    }

    open spec fn eq_spec(&self, other: &Self) -> bool {
        self.left == other.left && self.right == other.right
    }
}

#[derive(Clone, Copy, Debug)]
pub struct Config {
    pub stick: Sticks,
    pub trigger: Triggers,
}

impl Config {
    /// Every axis carries valid shaping options.
    pub open spec fn valid(self) -> bool {
        self.stick.valid() && self.trigger.valid()
    }

    /// The identity configuration: every axis untouched.
    pub open spec fn is_default(self) -> bool {
        self.stick.is_default() && self.trigger.is_default()
    }
}

impl Default for Config {
    /// The identity configuration: every axis untouched.
    fn default() -> (r: Self)
        ensures
            r.is_default(),
            r.valid(),
    {
        Self { stick: Sticks::default(), trigger: Triggers::default() }
    }
}

impl PartialEq for Config {
    fn eq(&self, other: &Self) -> (r: bool) {
        self.stick == other.stick && self.trigger == other.trigger
    }
}

impl Eq for Config {

}

impl vstd::std_specs::cmp::PartialEqSpecImpl for Config {
    open spec fn obeys_eq_spec() -> bool {
        true
    }

    open spec fn eq_spec(&self, other: &Self) -> bool {
        self.stick == other.stick && self.trigger == other.trigger
    }
}

/// The reload decision: a freshly parsed document replaces the stored
/// configuration, and the caller is told whether anything actually changed
/// (only then is a change event owed); a failed parse keeps the stored value.
pub fn apply_reload(current: &mut Config, loaded: Option<Config>) -> (changed: bool)
    ensures
        match loaded {
            Some(c) => *final(current) == c && changed == (c != *old(current)),
            None => *final(current) == *old(current) && !changed,
        },
{
    match loaded {
        Some(c) => {
            let differs = c != *current;
            *current = c;
            differs
        },
        None => false,
    }
}

} // verus!
