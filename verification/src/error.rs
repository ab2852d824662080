use vstd::prelude::*;
use crate::character::SkillKind;
use crate::common::{ID, Target};
use crate::dynamic::{AppliableKind, StatisticKind, Trigger};

verus! {

/// What can go wrong in a game.
#[derive(Debug, Clone, Copy)]
pub enum DanubiaError {
    /// leader
    InvalidLeaderID(ID),
    /// follower, leader
    FailedAddFollower(ID, ID),
    InvalidSkillKind(SkillKind),
    InvalidAppliableKind(AppliableKind),
    InvalidTarget(Target),
    InvalidTrigger(Trigger),
    InvalidStatisticKind(StatisticKind),
}

} // verus!
