//! The static content catalog: classes, skills, effects, maps, and the
//! cross-reference tables tying classes to the skills they may use.

use vstd::prelude::*;
use crate::ids::{Id, IdMap};

verus! {

/// Marker category for grid cells; a position is an `Id<Cell>` indexing the
/// map's grid row by row.
pub struct Cell {
}

/// A playable class and its base stats.
pub struct Class {
    pub name: String,
    pub health: u32,
    pub mana: u32,
}

/// A skill: its mana cost, the damage it deals and its reach in cells.
pub struct Skill {
    pub name: String,
    pub mana_cost: u32,
    pub damage: u32,
    pub range: u32,
}

/// A buff or debuff applicable to a character.
pub struct Effect {
    pub name: String,
    pub duration: u32,
}

/// A team of a map: a name and the cells its members may start from.
pub struct Team {
    pub name: String,
    pub spawn_cells: Vec<Id<Cell>>,
}

/// A battle map: a `width x height` grid and its team descriptors.
pub struct GameMap {
    pub name: String,
    pub width: usize,
    pub height: usize,
    pub teams: IdMap<Team>,
}

impl GameMap {
    /// A map is valid when its grid is non-degenerate, it has at least one
    /// team, and every spawn cell lies on the grid.
    pub open spec fn spec_valid(self) -> bool {
        &&& 1 <= self.width
        &&& 1 <= self.height
        &&& self.width * self.height <= usize::MAX
        &&& 1 <= self.teams@.len()
        &&& forall|t: int, j: int|
            0 <= t < self.teams@.len() && 0 <= j < self.teams@[t].spawn_cells@.len()
                ==> (#[trigger] self.teams@[t].spawn_cells@[j]).index < self.width * self.height
    }

    pub fn check_validity(&self) -> (r: bool)
        ensures
            r == self.spec_valid(),
    {
        if self.width < 1 || self.height < 1 {
            return false;
        }
        let area = match self.width.checked_mul(self.height) {
            Some(a) => a,
            None => {
                return false;
            },
        };
        if self.teams.len() < 1 {
            return false;
        }
        let mut t: usize = 0;
        while t < self.teams.values.len()
            invariant
                t <= self.teams@.len(),
                area == self.width * self.height,
                forall|t0: int, j: int|
                    0 <= t0 < t && 0 <= j < self.teams@[t0].spawn_cells@.len()
                        ==> (#[trigger] self.teams@[t0].spawn_cells@[j]).index < self.width
                        * self.height,
            decreases self.teams@.len() - t,
        {
            let cells = &self.teams.values[t].spawn_cells;
            let mut j: usize = 0;
            while j < cells.len()
                invariant
                    j <= cells@.len(),
                    t < self.teams@.len(),
                    cells@ == self.teams@[t as int].spawn_cells@,
                    area == self.width * self.height,
                    forall|j0: int|
                        0 <= j0 < j ==> (#[trigger] cells@[j0]).index < self.width * self.height,
                decreases cells@.len() - j,
            {
                if cells[j].index >= area {
                    return false;
                }
                j = j + 1;
            }
            t = t + 1;
        }
        true
    }
}

/// One character of a running or assembling game.
pub struct Character {
    pub class: Id<Class>,
    pub team: Id<Team>,
    pub position: Id<Cell>,
    pub current_health: u32,
    pub current_mana: u32,
    pub buffs: Vec<(Id<Effect>, u32)>,
    pub name: String,
}

/// Structural equality of characters up to the views of their owned fields.
pub open spec fn char_eq(a: Character, b: Character) -> bool {
    &&& a.class == b.class
    &&& a.team == b.team
    &&& a.position == b.position
    &&& a.current_health == b.current_health
    &&& a.current_mana == b.current_mana
    &&& a.buffs@ == b.buffs@
    &&& a.name@ == b.name@
}

/// A character is alive while its health is positive.
pub open spec fn spec_alive(c: Character) -> bool {
    c.current_health > 0
}

impl Character {
    pub fn alive(&self) -> (r: bool)
        ensures
            r == spec_alive(*self),
    {
        self.current_health > 0
    }

    pub fn duplicate(&self) -> (r: Character)
        ensures
            char_eq(*self, r),
    {
        let mut buffs: Vec<(Id<Effect>, u32)> = Vec::new();
        let mut i: usize = 0;
        while i < self.buffs.len()
            invariant
                i <= self.buffs@.len(),
                buffs@ == self.buffs@.subrange(0, i as int),
            decreases self.buffs@.len() - i,
        {
            buffs.push(self.buffs[i]);
            proof {
                assert(buffs@ =~= self.buffs@.subrange(0, i + 1));
            }
            i = i + 1;
        }
        proof {
            assert(buffs@ =~= self.buffs@);
        }
        Character {
            class: self.class,
            team: self.team,
            position: self.position,
            current_health: self.current_health,
            current_mana: self.current_mana,
            buffs,
            name: self.name.clone(),
        }
    }
}

/// The content of one class directory: the class itself, its own skills and
/// its own effects, in file order.
pub struct ClassContent {
    pub class: Class,
    pub skills: Vec<Skill>,
    pub effects: Vec<Effect>,
}

/// The immutable catalog the whole server reads.
pub struct GameDefinition {
    pub classes: IdMap<Class>,
    pub skills: IdMap<Skill>,
    pub effects: IdMap<Effect>,
    pub maps: IdMap<GameMap>,
    /// Indexed by class id: the ordered skills that class may use.
    pub class_to_skills: Vec<Vec<Id<Skill>>>,
    /// Indexed by skill id: the classes allowed to use that skill.
    pub skill_to_classes: Vec<Vec<Id<Class>>>,
}

/// Skill `s` occurs in class `c`'s allowed list.
pub open spec fn class_allows(def: GameDefinition, c: int, s: int) -> bool {
    exists|j: int|
        0 <= j < def.class_to_skills@[c]@.len() && (#[trigger] def.class_to_skills@[c]@[j]).index
            == s
}

/// Class `c` occurs in skill `s`'s user list.
pub open spec fn skill_used_by(def: GameDefinition, s: int, c: int) -> bool {
    exists|j: int|
        0 <= j < def.skill_to_classes@[s]@.len() && (#[trigger] def.skill_to_classes@[s]@[j]).index
            == c
}

impl GameDefinition {
    /// Cross-referential integrity of the catalog: the tables cover exactly
    /// the ids of the maps they index, every id they hold resolves, the two
    /// tables are mutual inverses, and every map passed validation.
    pub open spec fn wf(self) -> bool {
        &&& self.class_to_skills@.len() == self.classes@.len()
        &&& self.skill_to_classes@.len() == self.skills@.len()
        &&& forall|c: int, j: int|
            0 <= c < self.classes@.len() && 0 <= j < self.class_to_skills@[c]@.len()
                ==> (#[trigger] self.class_to_skills@[c]@[j]).index < self.skills@.len()
        &&& forall|s: int, j: int|
            0 <= s < self.skills@.len() && 0 <= j < self.skill_to_classes@[s]@.len()
                ==> (#[trigger] self.skill_to_classes@[s]@[j]).index < self.classes@.len()
        &&& forall|c: int, s: int|
            0 <= c < self.classes@.len() && 0 <= s < self.skills@.len()
                ==> (#[trigger] class_allows(self, c, s) <==> #[trigger] skill_used_by(self, s, c))
        &&& forall|m: int| 0 <= m < self.maps@.len() ==> (#[trigger] self.maps@[m]).spec_valid()
    }
}

/// The cross-reference tables of a well-formed catalog are mutual inverses:
/// a skill stands in a class's allowed list exactly when the class stands in
/// the skill's user list.
pub proof fn lemma_cross_references_inverse(def: GameDefinition, c: int, s: int)
    requires
        def.wf(),
        0 <= c < def.classes@.len(),
        0 <= s < def.skills@.len(),
    ensures
        class_allows(def, c, s) <==> skill_used_by(def, s, c),
{
}

} // verus!
