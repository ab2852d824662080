use vstd::prelude::*;
use super::{Adjustment, Appliable, AppliableKind, Attribute, Modifier};
use crate::common::{ID, ShortList};

verus! {

/// An instant change to statistics.
#[derive(Debug, Clone, Copy)]
pub struct Effect {
    id: ID,
    adjustments: ShortList<Adjustment>,
    is_flat: bool,
}

impl Effect {
    /// The identifier.
    pub closed spec fn id(&self) -> ID {
        self.id
    }

    /// The statistic adjustments.
    pub closed spec fn adjustments(&self) -> Seq<Adjustment> {
        self.adjustments@
    }

    /// Whether the amounts are flat changes (else percentages).
    pub closed spec fn flat(&self) -> bool {
        self.is_flat
    }

    /// Creates an effect.
    pub fn new(id: ID, adjustments: ShortList<Adjustment>, is_flat: bool) -> (effect: Self)
        ensures
            effect.id() == id,
            effect.adjustments() == adjustments@,
            effect.flat() == is_flat,
    {
        Self { id, adjustments, is_flat }
    }

    /// Gets the identifier.
    pub fn get_id(&self) -> (id: ID)
        ensures
            id == self.id(),
    {
        self.id
    }

    /// The kind of an effect names its identifier.
    pub proof fn lemma_kind(&self)
        ensures
            self.kind_of() == AppliableKind::Effect(self.id()),
            self.adjustments_of() == self.adjustments(),
            self.stack_or_flat() == self.flat(),
    {
    }
}

impl Appliable for Effect {
    open spec fn kind_of(&self) -> AppliableKind {
        AppliableKind::Effect(self.id())
    }

    open spec fn adjustments_of(&self) -> Seq<Adjustment> {
        self.adjustments()
    }

    open spec fn stack_or_flat(&self) -> bool {
        self.flat()
    }

    open spec fn applier_of(&self) -> Option<ID> {
        None
    }

    fn modifier(&self) -> (modifier: Modifier) {
        unreached()
    }

    fn effect(&self) -> (effect: Effect)
        ensures
            effect == *self,
    {
        *self
    }

    fn attribute(&self) -> (attribute: Attribute) {
        unreached()
    }

    fn kind(&self) -> (kind: AppliableKind) {
        AppliableKind::Effect(self.id)
    }

    fn get_adjustments(&self) -> (adjustments: ShortList<Adjustment>) {
        self.adjustments
    }

    fn can_stack_or_is_flat(&self) -> (result: bool) {
        self.is_flat
    }

    fn get_applier_id(&self) -> (applier_id: Option<ID>) {
        unreached()
    }

    fn set_applier_id(&mut self, applier_id: ID) {
        unreached()
    }
}

} // verus!
