//! The lobby phase: collecting characters until every team of the chosen map
//! is full, then freezing them into the id map a running game is built from.

use vstd::prelude::*;
use crate::error::SessionError;
use crate::game::{Character, GameDefinition, GameMap};
use crate::ids::{Id, IdMap, IdMapBuilder};

verus! {

/// How many of `chars` belong to team `t`.
pub open spec fn count_team(chars: Seq<Character>, t: int) -> int
    decreases chars.len(),
{
    if chars.len() == 0 {
        0
    } else {
        count_team(chars.drop_last(), t) + if chars.last().team.index == t {
            1int
        } else {
            0int
        }
    }
}

/// Some already-added character occupies cell `p`.
pub open spec fn cell_taken(chars: Seq<Character>, p: int) -> bool {
    exists|i: int| 0 <= i < chars.len() && (#[trigger] chars[i]).position.index == p
}

/// Assembles the characters of one game, enforcing per-team capacity,
/// distinct positions, and valid team and class references.
pub struct CharacterMapBuilder {
    pub map: Id<GameMap>,
    pub team_size: usize,
    /// Members so far of each team of the map, indexed by team id.
    pub counts: Vec<usize>,
    pub characters: IdMapBuilder<Character>,
    /// Number of classes of the catalog the builder was made against.
    pub num_classes: usize,
}

impl CharacterMapBuilder {
    /// Internal consistency: the per-team counters match the characters, no
    /// team is over capacity, every character's references are in range, and
    /// positions are pairwise distinct.
    pub open spec fn wf_core(self) -> bool {
        &&& self.team_size >= 1
        &&& forall|t: int|
            0 <= t < self.counts@.len() ==> #[trigger] self.counts@[t] == count_team(
                self.characters@,
                t,
            ) && self.counts@[t] <= self.team_size
        &&& forall|i: int|
            0 <= i < self.characters@.len() ==> (#[trigger] self.characters@[i]).team.index
                < self.counts@.len() && self.characters@[i].class.index < self.num_classes
        &&& forall|i: int, j: int|
            0 <= i < self.characters@.len() && 0 <= j < self.characters@.len() && i != j ==> (
            #[trigger] self.characters@[i]).position.index != (
            #[trigger] self.characters@[j]).position.index
    }

    /// The builder indexes the catalog it was constructed against.
    pub open spec fn linked(self, def: GameDefinition) -> bool {
        &&& self.map.index < def.maps@.len()
        &&& self.counts@.len() == def.maps@[self.map.index as int].teams@.len()
        &&& self.num_classes == def.classes@.len()
    }

    pub fn new(def: &GameDefinition, map: Id<GameMap>, team_size: usize) -> (r:
        CharacterMapBuilder)
        requires
            map.index < def.maps@.len(),
            team_size >= 1,
        ensures
            r.wf_core(),
            r.linked(*def),
            r.map == map,
            r.team_size == team_size,
            r.characters@ == Seq::<Character>::empty(),
    {
        let n_teams = match def.maps.get(map) {
            Some(m) => m.teams.len(),
            None => 0,
        };
        let mut counts: Vec<usize> = Vec::new();
        let mut t: usize = 0;
        while t < n_teams
            invariant
                t <= n_teams,
                counts@.len() == t,
                forall|t0: int| 0 <= t0 < t ==> #[trigger] counts@[t0] == 0,
            decreases n_teams - t,
        {
            counts.push(0);
            t = t + 1;
        }
        CharacterMapBuilder {
            map,
            team_size,
            counts,
            characters: IdMapBuilder::new(),
            num_classes: def.classes.len(),
        }
    }

    /// Why a character with these references would be rejected, if it would:
    /// `UnknownTeam` when the team is not a team of the map, `InvalidClass`
    /// when the class is not of the catalog, `CellOccupied` when an added
    /// character already holds the position, and `TeamFull` when the team is
    /// at capacity.
    #[verifier::loop_isolation(false)]
    pub fn check(
        &self,
        team: Id<crate::game::Team>,
        class: Id<crate::game::Class>,
        position: Id<crate::game::Cell>,
    ) -> (r: Option<SessionError>)
        ensures
            r == Some(SessionError::UnknownTeam) <==> team.index >= self.counts@.len(),
            r == Some(SessionError::InvalidClass) <==> team.index < self.counts@.len()
                && class.index >= self.num_classes,
            r == Some(SessionError::CellOccupied) <==> team.index < self.counts@.len()
                && class.index < self.num_classes && cell_taken(
                self.characters@,
                position.index as int,
            ),
            r == Some(SessionError::TeamFull) <==> team.index < self.counts@.len() && class.index
                < self.num_classes && !cell_taken(self.characters@, position.index as int)
                && self.counts@[team.index as int] >= self.team_size,
            r is None <==> team.index < self.counts@.len() && class.index < self.num_classes
                && !cell_taken(self.characters@, position.index as int)
                && self.counts@[team.index as int] < self.team_size,
    {
        if team.index >= self.counts.len() {
            return Some(SessionError::UnknownTeam);
        }
        if class.index >= self.num_classes {
            return Some(SessionError::InvalidClass);
        }
        let mut i: usize = 0;
        while i < self.characters.values.len()
            invariant
                i <= self.characters@.len(),
                forall|i0: int|
                    0 <= i0 < i ==> (#[trigger] self.characters@[i0]).position.index
                        != position.index,
            decreases self.characters@.len() - i,
        {
            if self.characters.values[i].position.index == position.index {
                return Some(SessionError::CellOccupied);
            }
            i = i + 1;
        }
        if self.counts[team.index] >= self.team_size {
            return Some(SessionError::TeamFull);
        }
        None
    }

    /// Records one character and hands out the id it will carry in the
    /// finished map, or rejects it: `UnknownTeam` when its team is not a team
    /// of the map, `InvalidClass` when its class is not of the catalog,
    /// `CellOccupied` when an added character already holds its position, and
    /// `TeamFull` when its team is at capacity.
    #[verifier::loop_isolation(false)]
    pub fn add(&mut self, c: Character) -> (r: Result<Id<Character>, SessionError>)
        requires
            old(self).wf_core(),
        ensures
            final(self).wf_core(),
            final(self).map == old(self).map,
            final(self).team_size == old(self).team_size,
            final(self).counts@.len() == old(self).counts@.len(),
            final(self).num_classes == old(self).num_classes,
            r == Err::<Id<Character>, SessionError>(SessionError::UnknownTeam) <==> c.team.index
                >= old(self).counts@.len(),
            r == Err::<Id<Character>, SessionError>(SessionError::InvalidClass) <==> c.team.index
                < old(self).counts@.len() && c.class.index >= old(self).num_classes,
            r == Err::<Id<Character>, SessionError>(SessionError::CellOccupied) <==> c.team.index
                < old(self).counts@.len() && c.class.index < old(self).num_classes && cell_taken(
                old(self).characters@,
                c.position.index as int,
            ),
            r == Err::<Id<Character>, SessionError>(SessionError::TeamFull) <==> c.team.index < old(
                self,
            ).counts@.len() && c.class.index < old(self).num_classes && !cell_taken(
                old(self).characters@,
                c.position.index as int,
            ) && old(self).counts@[c.team.index as int] >= old(self).team_size,
            r is Err ==> *final(self) == *old(self),
            r is Ok <==> c.team.index < old(self).counts@.len() && c.class.index < old(
                self,
            ).num_classes && !cell_taken(old(self).characters@, c.position.index as int) && old(
                self,
            ).counts@[c.team.index as int] < old(self).team_size,
            r matches Ok(id) ==> id.index == old(self).characters@.len() && final(self).characters@
                == old(self).characters@.push(c) && final(self).counts@ == old(
                self,
            ).counts@.update(c.team.index as int, (old(self).counts@[c.team.index as int] + 1) as usize),
    {
        if c.team.index >= self.counts.len() {
            return Err(SessionError::UnknownTeam);
        }
        if c.class.index >= self.num_classes {
            return Err(SessionError::InvalidClass);
        }
        let mut i: usize = 0;
        while i < self.characters.values.len()
            invariant
                i <= self.characters@.len(),
                forall|i0: int|
                    0 <= i0 < i ==> (#[trigger] self.characters@[i0]).position.index
                        != c.position.index,
            decreases self.characters@.len() - i,
        {
            if self.characters.values[i].position.index == c.position.index {
                return Err(SessionError::CellOccupied);
            }
            i = i + 1;
        }
        if self.counts[c.team.index] >= self.team_size {
            return Err(SessionError::TeamFull);
        }
        let t = c.team.index;
        let ghost old_chars = self.characters@;
        let id = self.characters.add(c);
        self.counts[t] = self.counts[t] + 1;
        proof {
            assert(self.characters@.drop_last() =~= old_chars);
            assert forall|t0: int| 0 <= t0 < self.counts@.len() implies #[trigger] self.counts@[t0]
                == count_team(self.characters@, t0) && self.counts@[t0] <= self.team_size by {
            }
        }
        Ok(id)
    }

    /// Every team of the map holds exactly `team_size` members.
    pub open spec fn spec_can_build(self) -> bool {
        forall|t: int| 0 <= t < self.counts@.len() ==> #[trigger] self.counts@[t] == self.team_size
    }

    pub fn can_build(&self) -> (r: bool)
        ensures
            r == self.spec_can_build(),
    {
        let mut t: usize = 0;
        while t < self.counts.len()
            invariant
                t <= self.counts@.len(),
                forall|t0: int| 0 <= t0 < t ==> #[trigger] self.counts@[t0] == self.team_size,
            decreases self.counts@.len() - t,
        {
            if self.counts[t] != self.team_size {
                return false;
            }
            t = t + 1;
        }
        true
    }

    /// Freezes the collected characters; ids handed out by `add` stay valid.
    pub fn build(self) -> (r: Result<IdMap<Character>, SessionError>)
        ensures
            r is Ok <==> self.spec_can_build(),
            r matches Ok(m) ==> m@ == self.characters@,
            r matches Err(e) ==> e == SessionError::Incomplete,
    {
        if !self.can_build() {
            return Err(SessionError::Incomplete);
        }
        Ok(self.characters.build())
    }
}

} // verus!
