use vstd::prelude::*;
use super::Unit;
use crate::collections::OuterJoinMap;
use crate::common::{ID, ID_UNINITIALISED};

verus! {

/// The unit that `unit` answers to: its leader, or itself for a leader.
pub open spec fn leader_of(unit: Unit) -> ID {
    match unit.leader() {
        Some(l) => l,
        None => unit.id(),
    }
}

/// The units of faction `id` among `units`.
pub open spec fn members_of(units: Seq<Unit>, id: ID) -> Set<ID>
    decreases units.len(),
{
    if units.len() == 0 {
        Set::empty()
    } else {
        let rest = members_of(units.drop_last(), id);
        if units.last().faction() == id { rest.insert(units.last().id()) } else { rest }
    }
}

/// Whether the last of `units` is recorded as a follower when a faction `id` is made of them:
/// it is of the faction, its leader is initialised, and no earlier unit had its identifier.
pub open spec fn follows_last(units: Seq<Unit>, id: ID) -> bool
    recommends
        units.len() > 0,
{
    &&& units.last().faction() == id
    &&& leader_of(units.last()) < ID_UNINITIALISED
    &&& !follower_leaders(units.drop_last(), id).contains_key(units.last().id())
}

/// The leader of each follower recorded when a faction `id` is made of `units`, in order.
pub open spec fn follower_leaders(units: Seq<Unit>, id: ID) -> Map<ID, ID>
    decreases units.len(),
{
    if units.len() == 0 {
        Map::empty()
    } else {
        let rest = follower_leaders(units.drop_last(), id);
        if units.last().faction() == id && leader_of(units.last()) < ID_UNINITIALISED && !rest.contains_key(units.last().id()) {
            rest.insert(units.last().id(), leader_of(units.last()))
        } else {
            rest
        }
    }
}

/// The leaders recorded when a faction `id` is made of `units`.
pub open spec fn leaders_of(units: Seq<Unit>, id: ID) -> Set<ID>
    decreases units.len(),
{
    if units.len() == 0 {
        Set::empty()
    } else {
        let rest = leaders_of(units.drop_last(), id);
        if units.last().faction() == id && leader_of(units.last()) < ID_UNINITIALISED
            && !follower_leaders(units.drop_last(), id).contains_key(units.last().id()) {
            rest.insert(leader_of(units.last()))
        } else {
            rest
        }
    }
}

/// A faction: its members, its leaders with their followers, and its allies.
#[derive(Debug)]
pub struct Faction {
    id: ID,
    member_ids: Vec<ID>,
    leader_followers: OuterJoinMap<ID, ID>,
    allies: Vec<ID>,
}

impl Faction {
    /// The identifier.
    pub closed spec fn id(&self) -> ID {
        self.id
    }

    /// The members.
    pub closed spec fn members(&self) -> Set<ID> {
        self.member_ids@.to_set()
    }

    /// The leaders that have been known.
    pub closed spec fn leaders(&self) -> Set<ID> {
        self.leader_followers.firsts()
    }

    /// The leader of each follower.
    pub closed spec fn leader_followers(&self) -> Map<ID, ID> {
        self.leader_followers.owners()
    }

    /// The followers of `leader`.
    pub open spec fn followers(&self, leader: ID) -> Set<ID> {
        self.leader_followers().dom().filter(|f: ID| self.leader_followers()[f] == leader)
    }

    /// The allied factions.
    pub closed spec fn allies(&self) -> Seq<ID> {
        self.allies@
    }

    /// Creates faction `id` with its allies, out of the units of `units` that belong to it: each
    /// is a member, and each whose leader is initialised follows that leader (a leader follows
    /// itself).
    pub fn new(id: ID, allies: Vec<ID>, units: &[Unit]) -> (faction: Self)
        ensures
            faction.id() == id,
            faction.allies() == allies@,
            faction.members() == members_of(units@, id),
            faction.leaders() == leaders_of(units@, id),
            faction.leader_followers() == follower_leaders(units@, id),
    {
        let mut member_ids: Vec<ID> = Vec::new();
        let mut leader_followers: OuterJoinMap<ID, ID> = OuterJoinMap::new();
        let mut i: usize = 0;

        proof {
            assert(units@.take(0) =~= Seq::<Unit>::empty());
            assert(member_ids@.to_set() =~= Set::<ID>::empty());
        }
        while i < units.len()
            invariant
                i <= units@.len(),
                member_ids@.to_set() == members_of(units@.take(i as int), id),
                leader_followers.firsts() == leaders_of(units@.take(i as int), id),
                leader_followers.owners() == follower_leaders(units@.take(i as int), id),
            decreases units@.len() - i,
        {
            let unit: &Unit = &units[i];
            let ghost done: Seq<Unit> = units@.take(i as int);
            let ghost next: Seq<Unit> = units@.take(i + 1);

            proof {
                assert(next.drop_last() =~= done);
                assert(next.last() == *unit);
            }
            if unit.get_faction_id() == id {
                let unit_id: ID = unit.get_id();
                let leader_id: ID = unit.get_leader_id();

                let ghost before: Seq<ID> = member_ids@;
                member_ids.push(unit_id);
                proof {
                    before.lemma_push_to_set_commute(unit_id);
                }

                if leader_id < ID_UNINITIALISED {
                    leader_followers.insert((leader_id, unit_id));
                }
            }
            i += 1;
        }

        proof {
            assert(units@.take(units@.len() as int) =~= units@);
        }
        Self { id, member_ids, leader_followers, allies }
    }

    /// Gets whether `unit_id` is a member.
    pub fn is_member(&self, unit_id: &ID) -> (is_member: bool)
        ensures
            is_member == self.members().contains(*unit_id),
    {
        let mut i: usize = 0;

        while i < self.member_ids.len()
            invariant
                i <= self.member_ids@.len(),
                forall|j: int| 0 <= j < i ==> self.member_ids@[j] != *unit_id,
            decreases self.member_ids@.len() - i,
        {
            if self.member_ids[i] == *unit_id {
                proof {
                    assert(self.member_ids@.contains(*unit_id));
                }
                return true;
            }
            i += 1;
        }

        false
    }

    /// Gets whether `faction_id` is this faction or one of its allies.
    pub fn is_ally(&self, faction_id: &ID) -> (is_ally: bool)
        ensures
            is_ally == (*faction_id == self.id() || self.allies().contains(*faction_id)),
    {
        if *faction_id == self.id {
            return true;
        }

        let mut i: usize = 0;

        while i < self.allies.len()
            invariant
                i <= self.allies@.len(),
                forall|j: int| 0 <= j < i ==> self.allies@[j] != *faction_id,
            decreases self.allies@.len() - i,
        {
            if self.allies[i] == *faction_id {
                proof {
                    assert(self.allies@[i as int] == *faction_id);
                }
                return true;
            }
            i += 1;
        }

        false
    }

    /// Records that `follower_id` follows `leader_id`; refused, with `false`, when the leader is
    /// uninitialised or the unit already follows someone.
    pub fn add_follower(&mut self, follower_id: ID, leader_id: ID) -> (is_added: bool)
        ensures
            is_added == (leader_id < ID_UNINITIALISED && !old(self).leader_followers().contains_key(follower_id)),
            final(self).id() == old(self).id(),
            final(self).members() == old(self).members(),
            final(self).allies() == old(self).allies(),
            is_added ==> final(self).leaders() == old(self).leaders().insert(leader_id),
            is_added ==> final(self).leader_followers() == old(self).leader_followers().insert(follower_id, leader_id),
            !is_added ==> final(self).leaders() == old(self).leaders(),
            !is_added ==> final(self).leader_followers() == old(self).leader_followers(),
    {
        if leader_id < ID_UNINITIALISED {
            self.leader_followers.insert((leader_id, follower_id))
        } else {
            false
        }
    }

    /// Makes `unit_id` follow no one; its leader stays known. Says whether it followed someone.
    pub fn remove_follower(&mut self, unit_id: &ID) -> (is_removed: bool)
        ensures
            is_removed == old(self).leader_followers().contains_key(*unit_id),
            final(self).id() == old(self).id(),
            final(self).members() == old(self).members(),
            final(self).allies() == old(self).allies(),
            final(self).leaders() == old(self).leaders(),
            final(self).leader_followers() == old(self).leader_followers().remove(*unit_id),
    {
        self.leader_followers.remove(unit_id)
    }

    /// Gets the followers of `unit_id`, which must be a known leader.
    pub fn get_followers(&self, unit_id: &ID) -> (followers: Vec<ID>)
        requires
            self.leaders().contains(*unit_id),
        ensures
            followers@.no_duplicates(),
            followers@.to_set() == self.followers(*unit_id),
    {
        match self.leader_followers.get_first(unit_id) {
            Some(c) => c,
            None => Vec::new(),
        }
    }
}

/// The description of a faction: its identifier and its allies.
#[derive(Debug)]
pub struct FactionBuilder {
    id: ID,
    allies: Vec<ID>,
}

impl FactionBuilder {
    /// The identifier.
    pub closed spec fn id(&self) -> ID {
        self.id
    }

    /// The allied factions.
    pub closed spec fn allies(&self) -> Seq<ID> {
        self.allies@
    }

    /// Creates a faction builder.
    pub fn new(id: ID, allies: Vec<ID>) -> (builder: Self)
        ensures
            builder.id() == id,
            builder.allies() == allies@,
    {
        Self { id, allies }
    }

    /// Builds the faction it describes out of `units`.
    pub fn build(&self, units: &[Unit]) -> (faction: Faction)
        ensures
            faction.id() == self.id(),
            faction.allies() == self.allies(),
            faction.members() == members_of(units@, self.id()),
            faction.leaders() == leaders_of(units@, self.id()),
            faction.leader_followers() == follower_leaders(units@, self.id()),
    {
        let mut allies: Vec<ID> = Vec::new();
        let mut i: usize = 0;

        while i < self.allies.len()
            invariant
                i <= self.allies@.len(),
                allies@ == self.allies@.take(i as int),
            decreases self.allies@.len() - i,
        {
            allies.push(self.allies[i]);
            i += 1;
            proof {
                assert(allies@ =~= self.allies@.take(i as int));
            }
        }
        proof {
            assert(self.allies@.take(i as int) =~= self.allies@);
        }

        Faction::new(self.id, allies, units)
    }
}

/// After a follower is recorded under a leader, it is among that leader's followers and no
/// other's.
pub proof fn law_follower_added(before: Faction, after: Faction, follower: ID, leader: ID, other: ID)
    requires
        after.leader_followers() == before.leader_followers().insert(follower, leader),
        other != leader,
    ensures
        after.followers(leader).contains(follower),
        !after.followers(other).contains(follower),
        after.followers(leader) == before.followers(leader).insert(follower),
{
    assert(after.followers(leader) =~= before.followers(leader).insert(follower));
}

/// After a follower is removed, it follows no one.
pub proof fn law_follower_removed(before: Faction, after: Faction, follower: ID, leader: ID)
    requires
        after.leader_followers() == before.leader_followers().remove(follower),
    ensures
        !after.followers(leader).contains(follower),
{
}

/// Whether no two of `units` share an identifier.
pub open spec fn distinct_ids(units: Seq<Unit>) -> bool {
    forall|i: int, j: int| 0 <= i < units.len() && 0 <= j < units.len() && i != j
        ==> (#[trigger] units[i]).id() != (#[trigger] units[j]).id()
}

/// The members of a faction made of `units` are exactly the units of that faction among them.
pub proof fn law_faction_members(units: Seq<Unit>, id: ID, x: ID)
    ensures
        members_of(units, id).contains(x)
            <==> exists|i: int| 0 <= i < units.len() && (#[trigger] units[i]).id() == x && units[i].faction() == id,
    decreases units.len(),
{
    if units.len() > 0 {
        let rest = units.drop_last();
        law_faction_members(rest, id, x);
        if exists|i: int| 0 <= i < units.len() && (#[trigger] units[i]).id() == x && units[i].faction() == id {
            let i = choose|i: int| 0 <= i < units.len() && (#[trigger] units[i]).id() == x && units[i].faction() == id;
            if i < units.len() - 1 {
                assert(rest[i] == units[i]);
            }
        }
        if exists|i: int| 0 <= i < rest.len() && (#[trigger] rest[i]).id() == x && rest[i].faction() == id {
            let i = choose|i: int| 0 <= i < rest.len() && (#[trigger] rest[i]).id() == x && rest[i].faction() == id;
            assert(units[i] == rest[i]);
        }
    }
}

/// Only units among `units` are recorded as followers.
proof fn lemma_followers_among(units: Seq<Unit>, id: ID, x: ID)
    requires
        follower_leaders(units, id).contains_key(x),
    ensures
        exists|i: int| 0 <= i < units.len() && (#[trigger] units[i]).id() == x,
    decreases units.len(),
{
    let rest = units.drop_last();
    if follower_leaders(rest, id).contains_key(x) {
        lemma_followers_among(rest, id, x);
        let i = choose|i: int| 0 <= i < rest.len() && (#[trigger] rest[i]).id() == x;
        assert(units[i] == rest[i]);
    } else {
        assert(units[units.len() - 1].id() == x);
    }
}

/// When the units have distinct identifiers, each unit of the faction whose leader is
/// initialised follows that leader (a leader follows itself).
pub proof fn law_faction_followers(units: Seq<Unit>, id: ID, k: int)
    requires
        distinct_ids(units),
        0 <= k < units.len(),
        units[k].faction() == id,
        leader_of(units[k]) < ID_UNINITIALISED,
    ensures
        follower_leaders(units, id).contains_key(units[k].id()),
        follower_leaders(units, id)[units[k].id()] == leader_of(units[k]),
    decreases units.len(),
{
    let rest = units.drop_last();
    let last = units.len() - 1;
    assert forall|i: int, j: int| 0 <= i < rest.len() && 0 <= j < rest.len() && i != j
        implies (#[trigger] rest[i]).id() != (#[trigger] rest[j]).id() by {
        assert(rest[i] == units[i] && rest[j] == units[j]);
    }
    if k < last {
        law_faction_followers(rest, id, k);
        assert(rest[k] == units[k]);
        assert(units[last].id() != units[k].id());
    } else {
        if follower_leaders(rest, id).contains_key(units[k].id()) {
            lemma_followers_among(rest, id, units[k].id());
            let i = choose|i: int| 0 <= i < rest.len() && (#[trigger] rest[i]).id() == units[k].id();
            assert(rest[i] == units[i]);
        }
    }
}

} // verus!
