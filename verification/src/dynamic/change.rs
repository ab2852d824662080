use vstd::prelude::*;
use super::{AppliableBox, Effect, Modifier};
use crate::common::{ID, Scene};
use std::rc::Rc;

verus! {

/// A change named by its identifier in the scene.
#[derive(Debug, Clone, Copy, PartialEq, Eq, Structural)]
pub enum Change {
    /// modifier, is flat
    Modifier(ID, bool),
    Effect(ID),
}

impl Change {
    /// Whether the change names an object of `scene`.
    pub open spec fn valid_in(self, scene: Scene) -> bool {
        match self {
            Change::Modifier(m, _) => m < scene.modifiers().len(),
            Change::Effect(e) => e < scene.effects().len(),
        }
    }

    /// The object the change names.
    pub open spec fn appliable_of(self, scene: Scene) -> AppliableBox {
        match self {
            Change::Modifier(m, _) => AppliableBox::Modifier(scene.modifiers()[m as int]),
            Change::Effect(e) => AppliableBox::Effect(scene.effects()[e as int]),
        }
    }

    /// Copies the named modifier out of the scene; only a modifier change names one.
    pub fn modifier(&self, scene: Rc<Scene>) -> (modifier: Modifier)
        requires
            self is Modifier,
            self.valid_in(*scene),
        ensures
            modifier == scene.modifiers()[self->Modifier_0 as int],
    {
        match self {
            Change::Modifier(m, _) => *scene.get_modifier(m),
            Change::Effect(..) => unreached(),
        }
    }

    /// Copies the named effect out of the scene; only an effect change names one.
    pub fn effect(&self, scene: Rc<Scene>) -> (effect: Effect)
        requires
            self is Effect,
            self.valid_in(*scene),
        ensures
            effect == scene.effects()[self->Effect_0 as int],
    {
        match self {
            Change::Modifier(..) => unreached(),
            Change::Effect(e) => *scene.get_effect(e),
        }
    }

    /// Copies the named change out of the scene.
    pub fn appliable(&self, scene: Rc<Scene>) -> (appliable: AppliableBox)
        requires
            self.valid_in(*scene),
        ensures
            appliable == self.appliable_of(*scene),
    {
        match self {
            Change::Modifier(m, _) => AppliableBox::Modifier(*scene.get_modifier(m)),
            Change::Effect(e) => AppliableBox::Effect(*scene.get_effect(e)),
        }
    }
}

} // verus!
