use vstd::prelude::*;
use super::{AppliableBox, Attribute, Effect, Modifier};
use crate::common::{ID, Scene};
use std::rc::Rc;

verus! {

/// A change named by its kind and identifier in the scene.
#[derive(Debug, Clone, Copy, PartialEq, Eq, Structural)]
pub enum AppliableKind {
    Modifier(ID),
    Effect(ID),
    Attribute(ID),
}

impl AppliableKind {
    /// Copies the named modifier out of the scene; only a modifier kind names one.
    pub fn modifier(&self, scene: Rc<Scene>) -> (modifier: Modifier)
        requires
            self is Modifier,
            scene.valid_kind(*self),
        ensures
            modifier == scene.modifiers()[self->Modifier_0 as int],
    {
        match self {
            AppliableKind::Modifier(m) => *scene.get_modifier(m),
            AppliableKind::Effect(..) => unreached(),
            AppliableKind::Attribute(..) => unreached(),
        }
    }

    /// Gets the identifier of a modifier kind.
    pub fn modifier_id(&self) -> (id: ID)
        requires
            self is Modifier,
        ensures
            id == self->Modifier_0,
    {
        match self {
            AppliableKind::Modifier(m) => *m,
            AppliableKind::Effect(..) => unreached(),
            AppliableKind::Attribute(..) => unreached(),
        }
    }

    /// Copies the named effect out of the scene; only an effect kind names one.
    pub fn effect(&self, scene: Rc<Scene>) -> (effect: Effect)
        requires
            self is Effect,
            scene.valid_kind(*self),
        ensures
            effect == scene.effects()[self->Effect_0 as int],
    {
        match self {
            AppliableKind::Modifier(..) => unreached(),
            AppliableKind::Effect(e) => *scene.get_effect(e),
            AppliableKind::Attribute(..) => unreached(),
        }
    }

    /// Gets the identifier of an effect kind.
    pub fn effect_id(&self) -> (id: ID)
        requires
            self is Effect,
        ensures
            id == self->Effect_0,
    {
        match self {
            AppliableKind::Modifier(..) => unreached(),
            AppliableKind::Effect(e) => *e,
            AppliableKind::Attribute(..) => unreached(),
        }
    }

    /// Copies the named attribute out of the scene; only an attribute kind names one.
    pub fn attribute(&self, scene: Rc<Scene>) -> (attribute: Attribute)
        requires
            self is Attribute,
            scene.valid_kind(*self),
        ensures
            attribute == scene.attributes()[self->Attribute_0 as int],
    {
        match self {
            AppliableKind::Modifier(..) => unreached(),
            AppliableKind::Effect(..) => unreached(),
            AppliableKind::Attribute(a) => *scene.get_attribute(a),
        }
    }

    /// Gets the identifier of an attribute kind.
    pub fn attribute_id(&self) -> (id: ID)
        requires
            self is Attribute,
        ensures
            id == self->Attribute_0,
    {
        match self {
            AppliableKind::Modifier(..) => unreached(),
            AppliableKind::Effect(..) => unreached(),
            AppliableKind::Attribute(a) => *a,
        }
    }

    /// Copies the named change out of the scene.
    pub fn appliable(&self, scene: Rc<Scene>) -> (appliable: AppliableBox)
        requires
            scene.valid_kind(*self),
        ensures
            appliable == scene.appliable_of(*self),
    {
        match self {
            AppliableKind::Modifier(m) => AppliableBox::Modifier(*scene.get_modifier(m)),
            AppliableKind::Effect(e) => AppliableBox::Effect(*scene.get_effect(e)),
            AppliableKind::Attribute(a) => AppliableBox::Attribute(*scene.get_attribute(a)),
        }
    }
}

} // verus!
