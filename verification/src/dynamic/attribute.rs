use vstd::prelude::*;
use super::{Adjustment, Appliable, AppliableBox, AppliableKind, Applier, Effect, Modifier, Trigger};
use crate::common::{Capacity, ID, Scene, ShortList, Target, Timed};
use std::rc::Rc;

verus! {

/// A timed source of a change, applied when its trigger happens.
#[derive(Debug, Clone, Copy)]
pub struct Attribute {
    id: ID,
    kind: AppliableKind,
    trigger: Trigger,
    duration: Capacity,
    applier_id: Option<ID>,
}

impl Attribute {
    /// The identifier.
    pub closed spec fn id(&self) -> ID {
        self.id
    }

    /// The change this attribute yields.
    pub closed spec fn appliable_kind(&self) -> AppliableKind {
        self.kind
    }

    /// When the attribute takes effect.
    pub closed spec fn trigger(&self) -> Trigger {
        self.trigger
    }

    /// The remaining duration, as a capacity.
    pub closed spec fn duration_capacity(&self) -> Capacity {
        self.duration
    }

    /// The unit that applied the attribute.
    pub closed spec fn applier(&self) -> Option<ID> {
        self.applier_id
    }

    /// This attribute, recorded as applied by `applier_id`.
    pub closed spec fn with_applier(self, applier_id: ID) -> Attribute {
        Attribute { applier_id: Some(applier_id), ..self }
    }

    /// This attribute, with `duration` as its remaining duration capacity.
    pub closed spec fn with_duration(self, duration: Capacity) -> Attribute {
        Attribute { duration, ..self }
    }

    /// What an attribute targets, by its trigger.
    pub open spec fn target_of(trigger: Trigger) -> Target {
        match trigger {
            Trigger::OnHit => Target::Enemy,
            Trigger::OnAttack => Target::Enemy,
            Trigger::OnOccupy => Target::OnMap(0),
            Trigger::Always => Target::This,
        }
    }

    /// Setting the applier keeps everything else.
    pub proof fn lemma_with_applier(self, applier_id: ID)
        ensures
            self.with_applier(applier_id).id() == self.id(),
            self.with_applier(applier_id).appliable_kind() == self.appliable_kind(),
            self.with_applier(applier_id).trigger() == self.trigger(),
            self.with_applier(applier_id).duration_capacity() == self.duration_capacity(),
            self.with_applier(applier_id).applier() == Some(applier_id),
    {
    }

    /// Creates an attribute; a duration of `DURATION_PERMANENT` makes it permanent.
    pub fn new(id: ID, kind: AppliableKind, trigger: Trigger, duration: u16) -> (attribute: Self)
        requires
            duration > 0,
        ensures
            attribute.id() == id,
            attribute.appliable_kind() == kind,
            attribute.trigger() == trigger,
            attribute.duration_capacity() == Capacity::spec_from_duration(duration),
            attribute.applier() == None::<ID>,
    {
        let duration: Capacity = Capacity::from_duration(duration);
        let applier_id: Option<ID> = None;

        Self { id, kind, trigger, duration, applier_id }
    }

    /// Gets the identifier.
    pub fn get_id(&self) -> (id: ID)
        ensures
            id == self.id(),
    {
        self.id
    }

    /// Gets the change this attribute yields.
    pub fn get_kind(&self) -> (kind: AppliableKind)
        ensures
            kind == self.appliable_kind(),
    {
        self.kind
    }

    /// Gets when the attribute takes effect.
    pub fn get_trigger(&self) -> (trigger: Trigger)
        ensures
            trigger == self.trigger(),
    {
        self.trigger
    }

    /// Whether the duration survives a decrement: it is permanent or above zero.
    pub open spec fn survives(self) -> bool {
        self.duration_capacity() is Constant || self.duration_capacity().current() > 0
    }

    /// The object after a decrement of its duration: a timed one above zero loses a turn.
    pub closed spec fn decremented(self) -> Attribute {
        match self.duration {
            Capacity::Quantity(d, m) => if d > 0 {
                self.with_duration(Capacity::Quantity((d - 1) as u16, m))
            } else {
                self
            },
            Capacity::Constant(..) => self,
        }
    }

    /// A decrement keeps everything but the duration, which loses one turn when above zero.
    pub proof fn lemma_decremented(self)
        ensures
            self.decremented().id() == self.id(),
            self.decremented().applier() == self.applier(),
            self.decremented().appliable_kind() == self.appliable_kind(),
            self.decremented().trigger() == self.trigger(),
            self.decremented().duration_capacity() == match self.duration_capacity() {
                Capacity::Quantity(d, m) => if d > 0 { Capacity::Quantity((d - 1) as u16, m) } else { Capacity::Quantity(d, m) },
                Capacity::Constant(c, m, b) => Capacity::Constant(c, m, b),
            },
    {
    }

    /// The kind of an attribute names its identifier.
    pub proof fn lemma_kind(&self)
        ensures
            self.kind_of() == AppliableKind::Attribute(self.id()),
            self.applier_of() == self.applier(),
            !self.stack_or_flat(),
    {
    }
}

impl Appliable for Attribute {
    open spec fn kind_of(&self) -> AppliableKind {
        AppliableKind::Attribute(self.id())
    }

    open spec fn adjustments_of(&self) -> Seq<Adjustment> {
        Seq::empty()
    }

    open spec fn stack_or_flat(&self) -> bool {
        false
    }

    open spec fn applier_of(&self) -> Option<ID> {
        self.applier()
    }

    fn modifier(&self) -> (modifier: Modifier) {
        unreached()
    }

    fn effect(&self) -> (effect: Effect) {
        unreached()
    }

    fn attribute(&self) -> (attribute: Attribute)
        ensures
            attribute == *self,
    {
        *self
    }

    fn kind(&self) -> (kind: AppliableKind) {
        AppliableKind::Attribute(self.id)
    }

    fn get_adjustments(&self) -> (adjustments: ShortList<Adjustment>) {
        unreached()
    }

    fn can_stack_or_is_flat(&self) -> (result: bool) {
        false
    }

    fn get_applier_id(&self) -> (applier_id: Option<ID>) {
        self.applier_id
    }

    fn set_applier_id(&mut self, applier_id: ID)
        ensures
            *final(self) == old(self).with_applier(applier_id),
    {
        self.applier_id = Some(applier_id);
    }
}

impl Applier for Attribute {
    open spec fn valid_in(&self, scene: Scene) -> bool {
        scene.valid_kind(self.appliable_kind())
    }

    /// An attribute always yields the change it names, taken from the scene.
    fn try_yield_appliable(&self, scene: Rc<Scene>) -> (appliable: Option<AppliableBox>)
        ensures
            appliable == Some(scene.appliable_of(self.appliable_kind())),
    {
        proof {
            assert(self.valid_in(*scene));
            assert(scene.valid_kind(self.kind));
        }
        Some(self.kind.appliable(scene))
    }

    fn get_target(&self) -> (target: Target)
        ensures
            target == Attribute::target_of(self.trigger()),
    {
        match self.trigger {
            Trigger::OnHit => Target::Enemy,
            Trigger::OnAttack => Target::Enemy,
            Trigger::OnOccupy => Target::OnMap(0),
            Trigger::Always => Target::This,
        }
    }
}

impl Timed for Attribute {
    open spec fn duration(&self) -> u16 {
        self.duration_capacity().duration()
    }

    fn get_duration(&self) -> (duration: u16) {
        self.duration.get_duration()
    }

    /// A permanent attribute survives; a timed one survives while its duration is above zero,
    /// and loses a turn of it.
    fn decrement_duration(&mut self) -> (is_survived: bool)
        ensures
            is_survived == old(self).survives(),
            *final(self) == old(self).decremented(),
    {
        match self.duration {
            Capacity::Constant(..) => true,
            Capacity::Quantity(d, m) => {
                if d > 0 {
                    self.duration = Capacity::Quantity(d - 1, m);
                    true
                } else {
                    false
                }
            },
        }
    }
}

} // verus!
