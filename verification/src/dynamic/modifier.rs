use vstd::prelude::*;
use super::{Adjustment, Appliable, AppliableKind, Attribute, Effect};
use crate::common::{Capacity, DURATION_PERMANENT, ID, ID_UNINITIALISED, ShortList, Timed};

verus! {

/// A timed change to statistics.
#[derive(Debug, Clone, Copy)]
pub struct Modifier {
    id: ID,
    adjustments: ShortList<Adjustment>,
    duration: Capacity,
    can_stack: bool,
    is_every_turn: bool,
    next_id: Option<ID>,
    applier_id: Option<ID>,
}

impl Modifier {
    /// The identifier.
    pub closed spec fn id(&self) -> ID {
        self.id
    }

    /// The statistic adjustments.
    pub closed spec fn adjustments(&self) -> Seq<Adjustment> {
        self.adjustments@
    }

    /// The remaining duration, as a capacity.
    pub closed spec fn duration_capacity(&self) -> Capacity {
        self.duration
    }

    /// Whether several copies may be applied at once.
    pub closed spec fn stacks(&self) -> bool {
        self.can_stack
    }

    /// Whether the modifier is applied again at the start of every turn.
    pub closed spec fn every_turn(&self) -> bool {
        self.is_every_turn
    }

    /// The modifier that replaces this one when it expires.
    pub closed spec fn next(&self) -> Option<ID> {
        self.next_id
    }

    /// The unit that applied the modifier.
    pub closed spec fn applier(&self) -> Option<ID> {
        self.applier_id
    }

    /// This modifier, recorded as applied by `applier_id`.
    pub closed spec fn with_applier(self, applier_id: ID) -> Modifier {
        Modifier { applier_id: Some(applier_id), ..self }
    }

    /// This modifier, with its every-turn flag set to `is_every_turn`.
    pub closed spec fn with_every_turn(self, is_every_turn: bool) -> Modifier {
        Modifier { is_every_turn, ..self }
    }

    /// This modifier, with `duration` as its remaining duration capacity.
    pub closed spec fn with_duration(self, duration: Capacity) -> Modifier {
        Modifier { duration, ..self }
    }

    /// Two modifiers that differ at most in their applier are equal once the applier is set.
    pub proof fn lemma_with_applier(self, applier_id: ID)
        ensures
            self.with_applier(applier_id).id() == self.id(),
            self.with_applier(applier_id).adjustments() == self.adjustments(),
            self.with_applier(applier_id).duration_capacity() == self.duration_capacity(),
            self.with_applier(applier_id).next() == self.next(),
            self.with_applier(applier_id).stacks() == self.stacks(),
            self.with_applier(applier_id).every_turn() == self.every_turn(),
            self.with_applier(applier_id).applier() == Some(applier_id),
    {
    }

    /// Creates a modifier; a duration of `DURATION_PERMANENT` makes it permanent.
    pub fn new(
        id: ID,
        adjustments: ShortList<Adjustment>,
        duration: u16,
        can_stack: bool,
        is_every_turn: bool,
        next_id: Option<ID>,
    ) -> (modifier: Self)
        ensures
            modifier.id() == id,
            modifier.adjustments() == adjustments@,
            modifier.duration_capacity() == Capacity::spec_from_duration(duration),
            modifier.stacks() == can_stack,
            modifier.every_turn() == is_every_turn,
            modifier.next() == next_id,
            modifier.applier() == None::<ID>,
    {
        let duration: Capacity = Capacity::from_duration(duration);
        let applier_id: Option<ID> = None;

        Self { id, adjustments, duration, can_stack, is_every_turn, next_id, applier_id }
    }

    /// Gets the identifier.
    pub fn get_id(&self) -> (id: ID)
        ensures
            id == self.id(),
    {
        self.id
    }

    /// Gets whether the modifier is applied again at the start of every turn.
    pub fn is_every_turn(&self) -> (is_every_turn: bool)
        ensures
            is_every_turn == self.every_turn(),
    {
        self.is_every_turn
    }

    /// Gets whether several copies may be applied at once.
    pub fn can_stack(&self) -> (can_stack: bool)
        ensures
            can_stack == self.stacks(),
    {
        self.can_stack
    }

    /// Gets the modifier that replaces this one when it expires.
    pub fn get_next_id(&self) -> (next_id: Option<ID>)
        ensures
            next_id == self.next(),
    {
        self.next_id
    }

    /// Sets whether the modifier is applied again at the start of every turn.
    pub fn set_is_every_turn(&mut self, is_every_turn: bool)
        ensures
            *final(self) == old(self).with_every_turn(is_every_turn),
    {
        self.is_every_turn = is_every_turn;
    }

    /// Whether two modifiers are the same modifier: they have the same identifier.
    pub fn is_same(&self, other: &Self) -> (is_same: bool)
        ensures
            is_same == (self.id() == other.id()),
    {
        self.id == other.id
    }

    /// Whether the duration survives a decrement: it is permanent or above zero.
    pub open spec fn survives(self) -> bool {
        self.duration_capacity() is Constant || self.duration_capacity().current() > 0
    }

    /// The object after a decrement of its duration: a timed one above zero loses a turn.
    pub closed spec fn decremented(self) -> Modifier {
        match self.duration {
            Capacity::Quantity(d, m) => if d > 0 {
                self.with_duration(Capacity::Quantity((d - 1) as u16, m))
            } else {
                self
            },
            Capacity::Constant(..) => self,
        }
    }

    /// Changing whether it applies each turn keeps everything else.
    pub proof fn lemma_with_every_turn(self, is_every_turn: bool)
        ensures
            self.with_every_turn(is_every_turn).id() == self.id(),
            self.with_every_turn(is_every_turn).adjustments() == self.adjustments(),
            self.with_every_turn(is_every_turn).next() == self.next(),
            self.with_every_turn(is_every_turn).stacks() == self.stacks(),
            self.with_every_turn(is_every_turn).every_turn() == is_every_turn,
    {
    }

    /// A decrement keeps everything but the duration, which loses one turn when above zero.
    pub proof fn lemma_decremented(self)
        ensures
            self.decremented().id() == self.id(),
            self.decremented().applier() == self.applier(),
            self.decremented().adjustments() == self.adjustments(),
            self.decremented().next() == self.next(),
            self.decremented().stacks() == self.stacks(),
            self.decremented().every_turn() == self.every_turn(),
            self.decremented().duration_capacity() == match self.duration_capacity() {
                Capacity::Quantity(d, m) => if d > 0 { Capacity::Quantity((d - 1) as u16, m) } else { Capacity::Quantity(d, m) },
                Capacity::Constant(c, m, b) => Capacity::Constant(c, m, b),
            },
    {
    }

    /// The kind of a modifier names its identifier.
    pub proof fn lemma_kind(&self)
        ensures
            self.kind_of() == AppliableKind::Modifier(self.id()),
    {
    }
}

impl Appliable for Modifier {
    open spec fn kind_of(&self) -> AppliableKind {
        AppliableKind::Modifier(self.id())
    }

    open spec fn adjustments_of(&self) -> Seq<Adjustment> {
        self.adjustments()
    }

    open spec fn stack_or_flat(&self) -> bool {
        self.stacks()
    }

    open spec fn applier_of(&self) -> Option<ID> {
        self.applier()
    }

    fn modifier(&self) -> (modifier: Modifier)
        ensures
            modifier == *self,
    {
        *self
    }

    fn effect(&self) -> (effect: Effect) {
        proof {
            self.lemma_kind();
        }
        unreached()
    }

    fn attribute(&self) -> (attribute: Attribute) {
        proof {
            self.lemma_kind();
        }
        unreached()
    }

    fn kind(&self) -> (kind: AppliableKind) {
        AppliableKind::Modifier(self.id)
    }

    fn get_adjustments(&self) -> (adjustments: ShortList<Adjustment>) {
        self.adjustments
    }

    fn can_stack_or_is_flat(&self) -> (result: bool) {
        self.can_stack
    }

    fn get_applier_id(&self) -> (applier_id: Option<ID>) {
        self.applier_id
    }

    fn set_applier_id(&mut self, applier_id: ID)
        ensures
            *final(self) == old(self).with_applier(applier_id),
    {
        self.applier_id = Some(applier_id);
    }
}

impl Timed for Modifier {
    open spec fn duration(&self) -> u16 {
        self.duration_capacity().duration()
    }

    fn get_duration(&self) -> (duration: u16) {
        self.duration.get_duration()
    }

    /// A permanent modifier survives; a timed one survives while its duration is above zero,
    /// and loses a turn of it.
    fn decrement_duration(&mut self) -> (is_survived: bool)
        ensures
            is_survived == old(self).survives(),
            *final(self) == old(self).decremented(),
    {
        match self.duration {
            Capacity::Constant(..) => true,
            Capacity::Quantity(d, m) => {
                if d > 0 {
                    self.duration = Capacity::Quantity(d - 1, m);
                    true
                } else {
                    false
                }
            },
        }
    }
}

impl Default for Modifier {
    /// A modifier with no identifier and no adjustments.
    fn default() -> (modifier: Self)
        ensures
            modifier.id() == ID_UNINITIALISED,
            modifier.adjustments() == Seq::<Adjustment>::empty(),
            modifier.duration_capacity() == Capacity::Constant(1, 0, 0),
            !modifier.stacks(),
            !modifier.every_turn(),
            modifier.next() == None::<ID>,
            modifier.applier() == None::<ID>,
    {
        let filler: Adjustment = (super::StatisticKind::Tile(false), 0, false);
        let adjustments: ShortList<Adjustment> = ShortList::empty(filler);

        Self {
            id: ID_UNINITIALISED,
            adjustments,
            duration: Capacity::Constant(1, 0, 0),
            can_stack: false,
            is_every_turn: false,
            next_id: None,
            applier_id: None,
        }
    }
}

} // verus!
