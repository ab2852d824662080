use vstd::prelude::*;
use super::{AppliableBox, Applier, Change, Trigger};
use crate::common::{Capacity, DURATION_PERMANENT, ID, Scene, Target, Timed};
use std::rc::Rc;

verus! {

/// A timed source of a change with a target, replaced by its successor when it expires.
#[derive(Debug, Clone, Copy)]
pub struct Status {
    id: ID,
    change: Change,
    trigger: Trigger,
    duration: Capacity,
    target: Target,
    is_every_turn: bool,
    is_expired: bool,
    next_id: Option<ID>,
}

impl Status {
    /// The identifier.
    pub closed spec fn id(&self) -> ID {
        self.id
    }

    /// The change the status yields.
    pub closed spec fn change(&self) -> Change {
        self.change
    }

    /// When the status takes effect.
    pub closed spec fn trigger(&self) -> Trigger {
        self.trigger
    }

    /// The remaining duration, as a capacity.
    pub closed spec fn duration_capacity(&self) -> Capacity {
        self.duration
    }

    /// What the status targets.
    pub closed spec fn target(&self) -> Target {
        self.target
    }

    /// Whether the status applies again every turn.
    pub closed spec fn every_turn(&self) -> bool {
        self.is_every_turn
    }

    /// Whether the status has expired.
    pub closed spec fn expired(&self) -> bool {
        self.is_expired
    }

    /// The status that replaces this one when it expires.
    pub closed spec fn next(&self) -> Option<ID> {
        self.next_id
    }

    /// Creates a status; it lasts at least a turn, targets its bearer, the enemy or the map,
    /// and only a timed status has a successor.
    pub fn new(
        id: ID,
        change: Change,
        trigger: Trigger,
        duration: u16,
        target: Target,
        is_every_turn: bool,
        next_id: Option<ID>,
    ) -> (status: Self)
        requires
            duration > 0,
            target is This || target is Enemy || target is OnMap,
            duration == DURATION_PERMANENT ==> next_id is None,
        ensures
            status.id() == id,
            status.change() == change,
            status.trigger() == trigger,
            status.duration_capacity() == Capacity::spec_from_duration(duration),
            status.target() == target,
            status.every_turn() == is_every_turn,
            !status.expired(),
            status.next() == next_id,
    {
        let duration: Capacity = Capacity::from_duration(duration);

        Self { id, change, trigger, duration, target, is_every_turn, is_expired: false, next_id }
    }

    /// Gets the identifier.
    pub fn get_id(&self) -> (id: ID)
        ensures
            id == self.id(),
    {
        self.id
    }

    /// Gets the change the status yields.
    pub fn get_change(&self) -> (change: Change)
        ensures
            change == self.change(),
    {
        self.change
    }

    /// Gets when the status takes effect.
    pub fn get_trigger(&self) -> (trigger: Trigger)
        ensures
            trigger == self.trigger(),
    {
        self.trigger
    }

    /// Gets whether the status applies again every turn.
    pub fn is_every_turn(&self) -> (is_every_turn: bool)
        ensures
            is_every_turn == self.every_turn(),
    {
        self.is_every_turn
    }

    /// Gets whether the status has expired.
    pub fn is_expired(&self) -> (is_expired: bool)
        ensures
            is_expired == self.expired(),
    {
        self.is_expired
    }

    /// Gets the status that replaces this one when it expires.
    pub fn get_next_id(&self) -> (next_id: Option<ID>)
        ensures
            next_id == self.next(),
    {
        self.next_id
    }

    /// Records the unit that applied a status targeting the map; other targets are unchanged.
    pub fn set_applier_id(&mut self, unit_id: ID)
        ensures
            final(self).target() == if old(self).target() is OnMap { Target::OnMap(unit_id) } else { old(self).target() },
            final(self).id() == old(self).id(),
            final(self).change() == old(self).change(),
            final(self).trigger() == old(self).trigger(),
            final(self).duration_capacity() == old(self).duration_capacity(),
            final(self).every_turn() == old(self).every_turn(),
            final(self).expired() == old(self).expired(),
            final(self).next() == old(self).next(),
    {
        if let Target::OnMap(..) = self.target {
            self.target = Target::OnMap(unit_id);
        }
    }
}

impl Applier for Status {
    open spec fn valid_in(&self, scene: Scene) -> bool {
        self.change().valid_in(scene)
    }

    /// A status always yields its change.
    fn try_yield_appliable(&self, scene: Rc<Scene>) -> (appliable: Option<AppliableBox>)
        ensures
            appliable == Some(self.change().appliable_of(*scene)),
    {
        Some(self.change.appliable(scene))
    }

    fn get_target(&self) -> (target: Target)
        ensures
            target == self.target(),
    {
        self.target
    }
}

impl Timed for Status {
    open spec fn duration(&self) -> u16 {
        self.duration_capacity().duration()
    }

    fn get_duration(&self) -> (duration: u16) {
        self.duration.get_duration()
    }

    /// A permanent status never expires; a timed one loses a turn while above zero,
    /// and at zero is marked expired. The result says whether it has just expired.
    fn decrement_duration(&mut self) -> (is_expired: bool)
        ensures
            match old(self).duration_capacity() {
                Capacity::Constant(..) => !is_expired && *final(self) == *old(self),
                Capacity::Quantity(d, m) => if d == 0 {
                    &&& is_expired
                    &&& final(self).expired()
                    &&& final(self).duration_capacity() == old(self).duration_capacity()
                } else {
                    &&& !is_expired
                    &&& final(self).expired() == old(self).expired()
                    &&& final(self).duration_capacity() == Capacity::Quantity((d - 1) as u16, m)
                },
            },
            final(self).id() == old(self).id(),
            final(self).change() == old(self).change(),
            final(self).trigger() == old(self).trigger(),
            final(self).target() == old(self).target(),
            final(self).every_turn() == old(self).every_turn(),
            final(self).next() == old(self).next(),
    {
        match self.duration {
            Capacity::Constant(..) => false,
            Capacity::Quantity(d, m) => {
                if d == 0 {
                    self.is_expired = true;

                    true
                } else {
                    self.duration = Capacity::Quantity(d - 1, m);

                    false
                }
            },
        }
    }
}

} // verus!
