use vstd::prelude::*;
use crate::character::UnitStatistic;
use crate::common::{ID, Scene, ShortList, Target};
use std::rc::Rc;

mod appliable_kind;
pub use self::appliable_kind::AppliableKind;
mod attribute;
pub use self::attribute::Attribute;
mod change;
pub use self::change::Change;

mod effect;
pub use self::effect::Effect;
mod modifier;
pub use self::modifier::Modifier;
mod status;
pub use self::status::Status;


verus! {

/// A statistic change: the statistic, the amount (its meaning depends on the context),
/// and whether the amount is added (else subtracted).
pub type Adjustment = (StatisticKind, u16, bool);

/// The statistic that an adjustment changes.
#[derive(Debug, Clone, Copy, PartialEq, Eq, Structural)]
pub enum StatisticKind {
    Unit(UnitStatistic),
    /// false: change the tile cost by the amount; true: set the tile cost to the amount
    Tile(bool),
}

/// Whether an adjustment changes a statistic that exists, by at most 1000.
pub open spec fn adjustment_ok(adjustment: Adjustment) -> bool {
    &&& adjustment.1 <= 1000
    &&& adjustment.0 != StatisticKind::Unit(UnitStatistic::Length)
}

/// When an attribute takes effect.
#[derive(Debug, Clone, Copy, PartialEq, Eq, Structural)]
pub enum Trigger {
    /// units only
    OnHit,
    /// units (weapons) only
    OnAttack,
    /// tiles only
    OnOccupy,
    /// units and tiles: always in effect
    Always,
}

/// A change that can be applied to a unit or a tile.
pub trait Appliable {
    /// The kind and identifier of this change.
    spec fn kind_of(&self) -> AppliableKind;

    /// The statistic adjustments of this change (a modifier or an effect).
    spec fn adjustments_of(&self) -> Seq<Adjustment>;

    /// Whether a modifier can stack, or an effect is a flat change.
    spec fn stack_or_flat(&self) -> bool;

    /// The unit that applied this change (a modifier or an attribute).
    spec fn applier_of(&self) -> Option<ID>;

    /// Copies the modifier; only a modifier is one.
    fn modifier(&self) -> (modifier: Modifier)
        requires
            self.kind_of() is Modifier,
    ;

    /// Copies the effect; only an effect is one.
    fn effect(&self) -> (effect: Effect)
        requires
            self.kind_of() is Effect,
    ;

    /// Copies the attribute; only an attribute is one.
    fn attribute(&self) -> (attribute: Attribute)
        requires
            self.kind_of() is Attribute,
    ;

    /// The kind and identifier of this change.
    fn kind(&self) -> (kind: AppliableKind)
        ensures
            kind == self.kind_of(),
    ;

    /// The statistic adjustments; an attribute has none of its own.
    fn get_adjustments(&self) -> (adjustments: ShortList<Adjustment>)
        requires
            !(self.kind_of() is Attribute),
        ensures
            adjustments@ == self.adjustments_of(),
    ;

    /// Whether a modifier can stack, or an effect is a flat change; false for an attribute.
    fn can_stack_or_is_flat(&self) -> (result: bool)
        ensures
            result == self.stack_or_flat(),
    ;

    /// The unit that applied this change; an effect records none.
    fn get_applier_id(&self) -> (applier_id: Option<ID>)
        requires
            !(self.kind_of() is Effect),
        ensures
            applier_id == self.applier_of(),
    ;

    /// Records the unit that applied this change; an effect records none.
    fn set_applier_id(&mut self, applier_id: ID)
        requires
            !(old(self).kind_of() is Effect),
        ensures
            final(self).applier_of() == Some(applier_id),
            final(self).kind_of() == old(self).kind_of(),
    ;
}

/// A game object that yields changes to apply to its target.
pub trait Applier {
    /// Whether every identifier this applier holds refers to an object of `scene`.
    spec fn valid_in(&self, scene: Scene) -> bool;

    /// The change this applier yields now, if any.
    fn try_yield_appliable(&self, scene: Rc<Scene>) -> (appliable: Option<AppliableBox>)
        requires
            scene.wf(),
            self.valid_in(*scene),
    ;

    /// What this applier targets.
    fn get_target(&self) -> Target;
}

/// A game object whose statistics changes alter.
pub trait Dynamic {
    /// Whether `appliable` may be added.
    spec fn accepts(&self, appliable: AppliableBox) -> bool;

    /// Whether a change of this kind may be asked to be removed.
    spec fn removable(&self, kind: AppliableKind) -> bool;

    /// Whether the durations may be decremented.
    spec fn decrementable(&self) -> bool;

    /// Adds a change; the result says whether it took effect.
    fn add_appliable(&mut self, appliable: AppliableBox) -> bool
        requires
            old(self).accepts(appliable),
    ;

    /// Removes a change; the result says whether it was present.
    fn remove_appliable(&mut self, appliable: AppliableKind) -> bool
        requires
            old(self).removable(appliable),
    ;

    /// Decreases the remaining durations of every timed change.
    fn decrement_durations(&mut self)
        requires
            old(self).decrementable(),
    ;
}

/// An owned change of any kind.
#[derive(Debug, Clone, Copy)]
pub enum AppliableBox {
    Modifier(Modifier),
    Effect(Effect),
    Attribute(Attribute),
}

impl Appliable for AppliableBox {
    open spec fn kind_of(&self) -> AppliableKind {
        match self {
            AppliableBox::Modifier(m) => m.kind_of(),
            AppliableBox::Effect(e) => e.kind_of(),
            AppliableBox::Attribute(a) => a.kind_of(),
        }
    }

    open spec fn adjustments_of(&self) -> Seq<Adjustment> {
        match self {
            AppliableBox::Modifier(m) => m.adjustments_of(),
            AppliableBox::Effect(e) => e.adjustments_of(),
            AppliableBox::Attribute(a) => a.adjustments_of(),
        }
    }

    open spec fn stack_or_flat(&self) -> bool {
        match self {
            AppliableBox::Modifier(m) => m.stack_or_flat(),
            AppliableBox::Effect(e) => e.stack_or_flat(),
            AppliableBox::Attribute(a) => a.stack_or_flat(),
        }
    }

    open spec fn applier_of(&self) -> Option<ID> {
        match self {
            AppliableBox::Modifier(m) => m.applier_of(),
            AppliableBox::Effect(e) => e.applier_of(),
            AppliableBox::Attribute(a) => a.applier_of(),
        }
    }

    fn modifier(&self) -> (modifier: Modifier)
        ensures
            *self == AppliableBox::Modifier(modifier),
    {
        match self {
            AppliableBox::Modifier(m) => *m,
            AppliableBox::Effect(e) => {
                proof {
                    e.lemma_kind();
                }
                unreached()
            },
            AppliableBox::Attribute(a) => {
                proof {
                    a.lemma_kind();
                }
                unreached()
            },
        }
    }

    fn effect(&self) -> (effect: Effect)
        ensures
            *self == AppliableBox::Effect(effect),
    {
        match self {
            AppliableBox::Effect(e) => *e,
            AppliableBox::Modifier(m) => {
                proof {
                    m.lemma_kind();
                }
                unreached()
            },
            AppliableBox::Attribute(a) => {
                proof {
                    a.lemma_kind();
                }
                unreached()
            },
        }
    }

    fn attribute(&self) -> (attribute: Attribute)
        ensures
            *self == AppliableBox::Attribute(attribute),
    {
        match self {
            AppliableBox::Attribute(a) => *a,
            AppliableBox::Modifier(m) => {
                proof {
                    m.lemma_kind();
                }
                unreached()
            },
            AppliableBox::Effect(e) => {
                proof {
                    e.lemma_kind();
                }
                unreached()
            },
        }
    }

    fn kind(&self) -> (kind: AppliableKind) {
        match self {
            AppliableBox::Modifier(m) => m.kind(),
            AppliableBox::Effect(e) => e.kind(),
            AppliableBox::Attribute(a) => a.kind(),
        }
    }

    fn get_adjustments(&self) -> (adjustments: ShortList<Adjustment>) {
        match self {
            AppliableBox::Modifier(m) => m.get_adjustments(),
            AppliableBox::Effect(e) => e.get_adjustments(),
            AppliableBox::Attribute(a) => {
                proof {
                    a.lemma_kind();
                }
                unreached()
            },
        }
    }

    fn can_stack_or_is_flat(&self) -> (result: bool) {
        match self {
            AppliableBox::Modifier(m) => m.can_stack_or_is_flat(),
            AppliableBox::Effect(e) => e.can_stack_or_is_flat(),
            AppliableBox::Attribute(a) => a.can_stack_or_is_flat(),
        }
    }

    fn get_applier_id(&self) -> (applier_id: Option<ID>) {
        match self {
            AppliableBox::Modifier(m) => m.get_applier_id(),
            AppliableBox::Attribute(a) => a.get_applier_id(),
            AppliableBox::Effect(e) => {
                proof {
                    e.lemma_kind();
                }
                unreached()
            },
        }
    }

    fn set_applier_id(&mut self, applier_id: ID)
        ensures
            match (*old(self), *final(self)) {
                (AppliableBox::Modifier(a), AppliableBox::Modifier(b)) => b == a.with_applier(applier_id),
                (AppliableBox::Attribute(a), AppliableBox::Attribute(b)) => b == a.with_applier(applier_id),
                _ => false,
            },
    {
        match self {
            AppliableBox::Modifier(m) => m.set_applier_id(applier_id),
            AppliableBox::Attribute(a) => a.set_applier_id(applier_id),
            AppliableBox::Effect(e) => {
                proof {
                    e.lemma_kind();
                }
                unreached()
            },
        }
    }
}

} // verus!
