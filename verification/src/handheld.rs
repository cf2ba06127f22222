//! The tool a unit holds, and the edges of its activation.

use crate::geometry::Entity;
use vstd::prelude::*;

verus! {

/// Number of frame ends for which a change of activation stays visible.
pub const EDGE_FRAMES: u8 = 2;

/// A handheld tool: who owns it, whether it runs, and for how many more
/// frame ends its last switch-on and switch-off count as just happened.
pub struct Handheld {
    pub owner: Option<Entity>,
    activated: bool,
    just_activated: u8,
    just_deactivated: u8,
}

impl Handheld {
    /// The unit that holds the tool.
    pub closed spec fn holder(self) -> Option<Entity> {
        self.owner
    }

    /// Whether the tool runs.
    pub closed spec fn is_on(self) -> bool {
        self.activated
    }

    /// Frame ends left during which the last switch-on counts as fresh.
    pub closed spec fn on_edge(self) -> int {
        self.just_activated as int
    }

    /// Frame ends left during which the last switch-off counts as fresh.
    pub closed spec fn off_edge(self) -> int {
        self.just_deactivated as int
    }

    /// The tool after a request to switch it on.
    pub open spec fn switched_on(self, after: Handheld) -> bool {
        &&& after.holder() == self.holder()
        &&& after.is_on()
        &&& after.off_edge() == self.off_edge()
        &&& after.on_edge() == (if self.is_on() {
            self.on_edge()
        } else {
            EDGE_FRAMES as int
        })
    }

    /// The tool after a request to switch it off.
    pub open spec fn switched_off(self, after: Handheld) -> bool {
        &&& after.holder() == self.holder()
        &&& !after.is_on()
        &&& after.on_edge() == self.on_edge()
        &&& after.off_edge() == (if self.is_on() {
            EDGE_FRAMES as int
        } else {
            self.off_edge()
        })
    }

    /// An idle tool.
    pub fn new(owner: Option<Entity>) -> (handheld: Self)
        ensures
            handheld.holder() == owner,
            !handheld.is_on(),
            handheld.on_edge() == 0,
            handheld.off_edge() == 0,
    {
        Self { owner, activated: false, just_activated: 0, just_deactivated: 0 }
    }

    pub fn activated(&self) -> (on: bool)
        ensures
            on == self.is_on(),
    {
        self.activated
    }

    pub fn just_activated(&self) -> (fresh: bool)
        ensures
            fresh == (self.on_edge() > 0),
    {
        self.just_activated > 0
    }

    pub fn just_deactivated(&self) -> (fresh: bool)
        ensures
            fresh == (self.off_edge() > 0),
    {
        self.just_deactivated > 0
    }

    /// One frame end passes for the switch-on edge.
    pub fn just_activated_dec(&mut self)
        ensures
            final(self).holder() == old(self).holder(),
            final(self).is_on() == old(self).is_on(),
            final(self).off_edge() == old(self).off_edge(),
            final(self).on_edge() == (if old(self).on_edge() > 0 {
                old(self).on_edge() - 1
            } else {
                0
            }),
    {
        if self.just_activated > 0 {
            self.just_activated -= 1;
        }
    }

    /// One frame end passes for the switch-off edge.
    pub fn just_deactivated_dec(&mut self)
        ensures
            final(self).holder() == old(self).holder(),
            final(self).is_on() == old(self).is_on(),
            final(self).on_edge() == old(self).on_edge(),
            final(self).off_edge() == (if old(self).off_edge() > 0 {
                old(self).off_edge() - 1
            } else {
                0
            }),
    {
        if self.just_deactivated > 0 {
            self.just_deactivated -= 1;
        }
    }

    /// Switches the tool on. A tool that already runs is left as it is.
    pub fn activate(&mut self)
        ensures
            old(self).switched_on(*final(self)),
    {
        if !self.activated {
            self.activated = true;
            self.just_activated = EDGE_FRAMES;
        }
    }

    /// Switches the tool off. A tool that is already off is left as it is.
    pub fn deactivate(&mut self)
        ensures
            old(self).switched_off(*final(self)),
    {
        if self.activated {
            self.activated = false;
            self.just_deactivated = EDGE_FRAMES;
        }
    }
}

} // verus!
