use vstd::prelude::*;
use super::Tool;
use crate::common::{DURATION_PERMANENT, ID, Scene, ShortList, Target, Timed};
use crate::dynamic::{AppliableBox, AppliableKind, Applier};
use crate::map::Area;
use std::rc::Rc;

verus! {

/// How a skill is used.
#[derive(Debug, Clone, Copy, PartialEq, Eq, Structural)]
pub enum SkillKind {
    /// current cooldown, maximum cooldown
    Timed(u16, u16),
    Passive,
    /// index of the active appliable
    Toggled(ID),
}

/// A skill: the changes it applies, a target, an area, a range and a kind.
#[derive(Debug, Clone, Copy)]
pub struct Skill {
    id: ID,
    appliables: ShortList<AppliableKind>,
    target: Target,
    area: Area,
    range: u8,
    kind: SkillKind,
}

impl Skill {
    /// The identifier.
    pub closed spec fn id(&self) -> ID {
        self.id
    }

    /// The changes the skill applies.
    pub closed spec fn appliables(&self) -> Seq<AppliableKind> {
        self.appliables@
    }

    /// What the skill targets.
    pub closed spec fn target(&self) -> Target {
        self.target
    }

    /// The area of effect.
    pub closed spec fn area(&self) -> Area {
        self.area
    }

    /// The range.
    pub closed spec fn range(&self) -> u8 {
        self.range
    }

    /// How the skill is used.
    pub closed spec fn kind(&self) -> SkillKind {
        self.kind
    }

    /// This skill with `kind` as its kind.
    pub closed spec fn with_kind(self, kind: SkillKind) -> Skill {
        Skill { kind, ..self }
    }

    /// Whether the skill is consistent: it has changes, and a toggled skill's index names one.
    pub open spec fn wf(&self) -> bool {
        &&& self.appliables().len() > 0
        &&& (self.kind() matches SkillKind::Toggled(i) ==> i < self.appliables().len())
    }

    /// The change the skill applies now: the active one of a toggled skill, else the first.
    pub open spec fn appliable(&self) -> AppliableKind {
        match self.kind() {
            SkillKind::Toggled(i) => self.appliables()[i as int],
            _ => self.appliables()[0],
        }
    }

    /// Changing the kind keeps everything else.
    pub proof fn lemma_with_kind(self, kind: SkillKind)
        ensures
            self.with_kind(kind).id() == self.id(),
            self.with_kind(kind).appliables() == self.appliables(),
            self.with_kind(kind).target() == self.target(),
            self.with_kind(kind).area() == self.area(),
            self.with_kind(kind).range() == self.range(),
            self.with_kind(kind).kind() == kind,
    {
    }

    /// Creates a skill; it has changes, and targets its user or allies.
    pub fn new(id: ID, appliables: ShortList<AppliableKind>, target: Target, area: Area, range: u8, kind: SkillKind) -> (skill: Self)
        requires
            appliables@.len() > 0,
            target is This || target is Ally || target is Allies,
        ensures
            skill.id() == id,
            skill.appliables() == appliables@,
            skill.target() == target,
            skill.area() == area,
            skill.range() == range,
            skill.kind() == kind,
    {
        Self { id, appliables, target, area, range, kind }
    }

    /// Gets the identifier.
    pub fn get_id(&self) -> (id: ID)
        ensures
            id == self.id(),
    {
        self.id
    }

    /// Toggles a toggled skill to its next change, wrapping around; returns the old and the new change.
    pub fn switch_attribute(&mut self) -> (switched: (AppliableKind, AppliableKind))
        requires
            old(self).wf(),
            old(self).kind() is Toggled,
        ensures
            ({
                let i = old(self).kind()->Toggled_0;
                let j = ((i + 1) as int % (old(self).appliables().len() as int)) as usize;
                &&& *final(self) == old(self).with_kind(SkillKind::Toggled(j))
                &&& switched == (old(self).appliables()[i as int], old(self).appliables()[j as int])
            }),
            final(self).wf(),
    {
        match self.kind {
            SkillKind::Toggled(appliable_idx_old) => {
                proof {
                    self.appliables.lemma_len();
                }
                let appliable_old: AppliableKind = self.appliables.get(appliable_idx_old);
                let appliable_idx_new: usize = (appliable_idx_old + 1) % self.appliables.len();
                let appliable_new: AppliableKind = self.appliables.get(appliable_idx_new);

                self.kind = SkillKind::Toggled(appliable_idx_new);

                (appliable_old, appliable_new)
            },
            _ => unreached(),
        }
    }

    /// Starts the cooldown of a timed skill, unless it is already running.
    pub fn start_cooldown(&mut self)
        requires
            old(self).kind() is Timed,
        ensures
            ({
                let (c, m) = (old(self).kind()->Timed_0, old(self).kind()->Timed_1);
                *final(self) == if c == 0 { old(self).with_kind(SkillKind::Timed(m, m)) } else { *old(self) }
            }),
    {
        match self.kind {
            SkillKind::Timed(c, m) => {
                if c == 0 {
                    self.kind = SkillKind::Timed(m, m);
                }
            },
            _ => unreached(),
        }
    }

    /// Gets whether the skill is timed.
    pub fn is_timed(&self) -> (is_timed: bool)
        ensures
            is_timed == self.kind() is Timed,
    {
        matches!(self.kind, SkillKind::Timed(..))
    }

    /// Gets whether the skill is passive.
    pub fn is_passive(&self) -> (is_passive: bool)
        ensures
            is_passive == self.kind() is Passive,
    {
        matches!(self.kind, SkillKind::Passive)
    }

    /// Gets whether the skill is toggled.
    pub fn is_toggled(&self) -> (is_toggled: bool)
        ensures
            is_toggled == self.kind() is Toggled,
    {
        matches!(self.kind, SkillKind::Toggled(..))
    }

    /// Gets the change the skill applies now.
    pub fn get_appliable(&self) -> (appliable: AppliableKind)
        requires
            self.wf(),
        ensures
            appliable == self.appliable(),
    {
        match self.kind {
            SkillKind::Toggled(appliable_idx) => self.appliables.get(appliable_idx),
            _ => self.appliables.get(0),
        }
    }

    /// Gets the identifier of the change the skill applies now.
    pub fn get_attribute_id(&self) -> (id: ID)
        requires
            self.wf(),
        ensures
            id == match self.appliable() {
                AppliableKind::Modifier(i) => i,
                AppliableKind::Effect(i) => i,
                AppliableKind::Attribute(i) => i,
            },
    {
        match self.get_appliable() {
            AppliableKind::Modifier(i) => i,
            AppliableKind::Effect(i) => i,
            AppliableKind::Attribute(i) => i,
        }
    }
}

impl Tool for Skill {
    fn get_area(&self) -> (area: Area)
        ensures
            area == self.area(),
    {
        self.area
    }

    fn get_range(&self) -> (range: u8)
        ensures
            range == self.range(),
    {
        self.range
    }
}

impl Applier for Skill {
    open spec fn valid_in(&self, scene: Scene) -> bool {
        self.wf() && forall|i: int| 0 <= i < self.appliables().len() ==> scene.valid_kind(#[trigger] self.appliables()[i])
    }

    /// A timed skill on cooldown yields nothing; otherwise the skill yields its current change.
    fn try_yield_appliable(&self, scene: Rc<Scene>) -> (appliable: Option<AppliableBox>)
        ensures
            appliable == if self.kind() is Timed && self.kind()->Timed_0 > 0 {
                None::<AppliableBox>
            } else {
                Some(scene.appliable_of(self.appliable()))
            },
    {
        if self.is_timed() && self.get_duration() > 0 {
            None
        } else {
            let kind: AppliableKind = self.get_appliable();
            Some(kind.appliable(scene))
        }
    }

    fn get_target(&self) -> (target: Target)
        ensures
            target == self.target(),
    {
        self.target
    }
}

impl Timed for Skill {
    open spec fn duration(&self) -> u16 {
        match self.kind() {
            SkillKind::Timed(c, _) => c,
            _ => DURATION_PERMANENT,
        }
    }

    fn get_duration(&self) -> (duration: u16) {
        match self.kind {
            SkillKind::Timed(c, _) => c,
            SkillKind::Passive => DURATION_PERMANENT,
            SkillKind::Toggled(..) => DURATION_PERMANENT,
        }
    }

    /// A running cooldown loses a turn; the result says whether anything remained to decrement.
    /// Passive and toggled skills are unchanged and report true.
    fn decrement_duration(&mut self) -> (is_decremented: bool)
        ensures
            match old(self).kind() {
                SkillKind::Timed(c, m) => if c == 0 {
                    !is_decremented && *final(self) == *old(self)
                } else {
                    is_decremented && *final(self) == old(self).with_kind(SkillKind::Timed((c - 1) as u16, m))
                },
                _ => is_decremented && *final(self) == *old(self),
            },
    {
        match self.kind {
            SkillKind::Timed(c, m) => {
                if c == 0 {
                    false
                } else {
                    self.kind = SkillKind::Timed(c - 1, m);
                    true
                }
            },
            SkillKind::Passive => true,
            SkillKind::Toggled(..) => true,
        }
    }
}

/// The kind of `skill` after switching it `times` times.
pub open spec fn switched(skill: Skill, times: nat) -> Skill
    decreases times,
{
    if times == 0 {
        skill
    } else {
        let previous = switched(skill, (times - 1) as nat);
        match previous.kind() {
            SkillKind::Toggled(i) => previous.with_kind(
                SkillKind::Toggled(((i + 1) as int % (previous.appliables().len() as int)) as usize),
            ),
            _ => previous,
        }
    }
}

/// A toggled skill switched `times` times has moved on by `times` changes, wrapping around.
pub proof fn law_switch_steps(skill: Skill, times: nat)
    requires
        skill.wf(),
        skill.kind() is Toggled,
    ensures
        switched(skill, times) == skill.with_kind(SkillKind::Toggled(
            ((skill.kind()->Toggled_0 + times) % (skill.appliables().len() as int)) as usize,
        )),
    decreases times,
{
    let n = skill.appliables().len() as int;
    let i = skill.kind()->Toggled_0 as int;
    skill.appliables.lemma_len();
    skill.lemma_with_kind(SkillKind::Toggled(((i + times) % n) as usize));
    if times == 0 {
        assert(i % n == i) by (nonlinear_arith)
            requires
                0 <= i < n,
        ;
        assert(skill.with_kind(SkillKind::Toggled(i as usize)) =~= skill);
    } else {
        law_switch_steps(skill, (times - 1) as nat);
        let j = (i + times - 1) % n;
        skill.lemma_with_kind(SkillKind::Toggled(j as usize));
        assert(0 <= j < n) by (nonlinear_arith)
            requires
                n > 0,
                j == (i + times - 1) % n,
        ;
        assert((j + 1) % n == (i + times) % n) by (nonlinear_arith)
            requires
                n > 0,
                j == (i + times - 1) % n,
        ;
        let previous = switched(skill, (times - 1) as nat);
        assert(previous == skill.with_kind(SkillKind::Toggled(j as usize)));
        assert(previous.kind() == SkillKind::Toggled(j as usize));
        assert(previous.appliables() == skill.appliables());
        assert(switched(skill, times) == previous.with_kind(SkillKind::Toggled(((j + 1) % n) as usize)));
        assert(previous.with_kind(SkillKind::Toggled(((j + 1) % n) as usize))
            =~= skill.with_kind(SkillKind::Toggled(((i + times) % n) as usize)));
    }
}

/// A toggled skill switched as many times as it has changes is back where it started.
pub proof fn law_switch_round_trip(skill: Skill)
    requires
        skill.wf(),
        skill.kind() is Toggled,
    ensures
        switched(skill, skill.appliables().len()) == skill,
{
    let n = skill.appliables().len() as int;
    let i = skill.kind()->Toggled_0 as int;
    law_switch_steps(skill, skill.appliables().len());
    assert((i + n) % n == i) by (nonlinear_arith)
        requires
            0 <= i < n,
    ;
    assert(skill.with_kind(SkillKind::Toggled(i as usize)) =~= skill);
}

} // verus!
