//! A running game: the frozen characters, the turn order derived from them,
//! the cursor naming whose turn it is, and the action and turn-rotation
//! steps that drive the session forward.

use vstd::prelude::*;
use crate::error::ActionError;
use crate::game::{
    char_eq, class_allows, spec_alive, Character, GameDefinition, GameMap, Skill,
};
use crate::ids::{copy_ids, Id, IdMap};

verus! {

/// One submitted action: use a skill against a target character.
pub struct Action {
    pub skill: Id<Skill>,
    pub target: Id<Character>,
}

/// `a` acts strictly before `b`: lower team id first, character id as the
/// tie-break.
pub open spec fn acts_before(chars: Seq<Character>, a: Id<Character>, b: Id<Character>) -> bool {
    ||| chars[a.index as int].team.index < chars[b.index as int].team.index
    ||| (chars[a.index as int].team.index == chars[b.index as int].team.index && a.index < b.index)
}

/// Id `k` occurs somewhere in the order.
pub open spec fn order_contains(order: Seq<Id<Character>>, k: int) -> bool {
    exists|i: int| 0 <= i < order.len() && (#[trigger] order[i]).index == k
}

/// The first position at or after `from` holding a living character.
pub open spec fn first_alive(chars: Seq<Character>, order: Seq<Id<Character>>, from: int) -> Option<
    int,
>
    decreases order.len() - from when from >= 0
{
    if from < 0 || from >= order.len() {
        None
    } else if spec_alive(chars[order[from].index as int]) {
        Some(from)
    } else {
        first_alive(chars, order, from + 1)
    }
}

/// What `first_alive` returns: the earliest living position at or after
/// `from`, or nothing when every later position is dead.
pub proof fn lemma_first_alive_spec(chars: Seq<Character>, order: Seq<Id<Character>>, from: int)
    requires
        0 <= from,
    ensures
        match first_alive(chars, order, from) {
            Some(j) => from <= j < order.len() && spec_alive(chars[order[j].index as int])
                && forall|m: int|
                from <= m < j ==> !spec_alive(chars[(#[trigger] order[m]).index as int]),
            None => forall|m: int|
                from <= m < order.len() ==> !spec_alive(chars[(#[trigger] order[m]).index as int]),
        },
    decreases order.len() - from,
{
    if from < order.len() && !spec_alive(chars[order[from].index as int]) {
        lemma_first_alive_spec(chars, order, from + 1);
    }
}

/// No two living characters stand on different teams: the game is over.
pub open spec fn spec_ended(chars: Seq<Character>) -> bool {
    !(exists|i: int, j: int|
        0 <= i < chars.len() && 0 <= j < chars.len() && spec_alive(#[trigger] chars[i])
            && spec_alive(#[trigger] chars[j]) && chars[i].team.index != chars[j].team.index)
}

/// Distance of `a` and `b` as non-negative difference.
pub open spec fn dist1(a: int, b: int) -> int {
    if a >= b {
        a - b
    } else {
        b - a
    }
}

/// Manhattan distance of two cells of a grid `w` cells wide.
pub open spec fn manhattan(w: int, p: int, q: int) -> int {
    dist1(p % w, q % w) + dist1(p / w, q / w)
}

/// A running game.
pub struct GameState {
    pub map: Id<GameMap>,
    pub characters: IdMap<Character>,
    pub turn_order: Vec<Id<Character>>,
    /// Index into `turn_order` of the character to play, or `None` between
    /// turns and after the game has ended.
    pub cursor: Option<usize>,
    pub turn_number: u64,
}

impl GameState {
    /// The turn order names existing characters, is strictly sorted by
    /// (team, id), and covers every character.
    pub open spec fn order_wf(self) -> bool {
        &&& forall|i: int|
            0 <= i < self.turn_order@.len() ==> (#[trigger] self.turn_order@[i]).index
                < self.characters@.len()
        &&& forall|i: int, j: int|
            0 <= i < j < self.turn_order@.len() ==> acts_before(
                self.characters@,
                #[trigger] self.turn_order@[i],
                #[trigger] self.turn_order@[j],
            )
        &&& forall|k: int| 0 <= k < self.characters@.len() ==> order_contains(self.turn_order@, k)
    }

    /// The cursor, when set, points into the order at a living character.
    pub open spec fn cursor_ok(self) -> bool {
        match self.cursor {
            Some(ci) => ci < self.turn_order@.len() && spec_alive(
                self.characters@[self.turn_order@[ci as int].index as int],
            ),
            None => true,
        }
    }

    pub open spec fn wf(self) -> bool {
        self.order_wf() && self.cursor_ok()
    }

    /// The state references only ids that resolve in the catalog.
    pub open spec fn linked(self, def: GameDefinition) -> bool {
        &&& self.map.index < def.maps@.len()
        &&& forall|k: int|
            0 <= k < self.characters@.len() ==> (#[trigger] self.characters@[k]).class.index
                < def.classes@.len()
    }

    /// The character whose turn it is, or nothing between turns.
    pub open spec fn spec_player(self) -> Option<Id<Character>> {
        match self.cursor {
            Some(ci) => Some(self.turn_order@[ci as int]),
            None => None,
        }
    }

    pub fn player_to_play(&self) -> (r: Option<Id<Character>>)
        requires
            self.wf(),
        ensures
            r == self.spec_player(),
    {
        match self.cursor {
            Some(ci) => Some(self.turn_order[ci]),
            None => None,
        }
    }

    pub fn is_ended(&self) -> (r: bool)
        ensures
            r == spec_ended(self.characters@),
    {
        let n = self.characters.len();
        let mut a0: usize = 0;
        while a0 < n
            invariant
                n == self.characters@.len(),
                a0 <= n,
                forall|i: int| 0 <= i < a0 ==> !spec_alive(#[trigger] self.characters@[i]),
            ensures
                a0 <= n,
                forall|i: int| 0 <= i < a0 ==> !spec_alive(#[trigger] self.characters@[i]),
                a0 < n ==> spec_alive(self.characters@[a0 as int]),
            decreases n - a0,
        {
            if self.characters.values[a0].alive() {
                break ;
            }
            a0 = a0 + 1;
        }
        if a0 >= n {
            return true;
        }
        let team0 = self.characters.values[a0].team.index;
        let mut i: usize = 0;
        while i < n
            invariant
                n == self.characters@.len(),
                a0 < n,
                spec_alive(self.characters@[a0 as int]),
                team0 == self.characters@[a0 as int].team.index,
                i <= n,
                forall|i0: int|
                    0 <= i0 < i ==> !spec_alive(#[trigger] self.characters@[i0])
                        || self.characters@[i0].team.index == team0,
            decreases n - i,
        {
            if self.characters.values[i].alive() && self.characters.values[i].team.index != team0 {
                return false;
            }
            i = i + 1;
        }
        true
    }

    /// Builds the running state from the frozen characters: the turn order is
    /// sorted by team id, character id as the tie-break, and the cursor
    /// starts at the first living character (position 0 when, as at every
    /// ordinary game start, all characters are alive).
    pub fn new(def: &GameDefinition, characters: IdMap<Character>, map: Id<GameMap>) -> (r:
        GameState)
        requires
            map.index < def.maps@.len(),
            forall|k: int|
                0 <= k < characters@.len() ==> (#[trigger] characters@[k]).team.index < def.maps@[map.index as int].teams@.len(),
            forall|k: int|
                0 <= k < characters@.len() ==> (#[trigger] characters@[k]).class.index
                    < def.classes@.len(),
        ensures
            r.wf(),
            r.linked(*def),
            r.map == map,
            r.characters@ == characters@,
            r.turn_number == 0,
            r.cursor == first_alive_to_cursor(
                first_alive(characters@, r.turn_order@, 0),
            ),
            characters@.len() > 0 && (forall|k: int|
                0 <= k < characters@.len() ==> spec_alive(#[trigger] characters@[k]))
                ==> r.cursor == Some(0usize),
    {
        let n = characters.len();
        let n_teams = match def.maps.get(map) {
            Some(m) => m.teams.len(),
            None => 0,
        };
        let mut order: Vec<Id<Character>> = Vec::new();
        let mut t: usize = 0;
        while t < n_teams
            invariant
                n == characters@.len(),
                forall|k: int|
                    0 <= k < characters@.len() ==> (#[trigger] characters@[k]).team.index < n_teams,
                t <= n_teams,
                forall|i: int|
                    0 <= i < order@.len() ==> (#[trigger] order@[i]).index < n
                        && characters@[order@[i].index as int].team.index < t,
                forall|i: int, j: int|
                    0 <= i < j < order@.len() ==> acts_before(
                        characters@,
                        #[trigger] order@[i],
                        #[trigger] order@[j],
                    ),
                forall|k: int|
                    0 <= k < n ==> (order_contains(order@, k) <==> characters@[k].team.index < t),
            decreases n_teams - t,
        {
            let mut k: usize = 0;
            while k < n
                invariant
                    n == characters@.len(),
                    t < n_teams,
                    k <= n,
                    forall|i: int|
                        0 <= i < order@.len() ==> (#[trigger] order@[i]).index < n
                            && (characters@[order@[i].index as int].team.index < t
                            || (characters@[order@[i].index as int].team.index == t
                            && order@[i].index < k)),
                    forall|i: int, j: int|
                        0 <= i < j < order@.len() ==> acts_before(
                            characters@,
                            #[trigger] order@[i],
                            #[trigger] order@[j],
                        ),
                    forall|k0: int|
                        0 <= k0 < n ==> (order_contains(order@, k0) <==> characters@[k0].team.index
                            < t || (characters@[k0].team.index == t && k0 < k)),
                decreases n - k,
            {
                if self_team(&characters, k) == t {
                    let ghost old_order = order@;
                    order.push(Id::new(k));
                    proof {
                        assert forall|k0: int|
                            0 <= k0 < n implies (order_contains(order@, k0)
                            <==> characters@[k0].team.index < t || (characters@[k0].team.index == t
                            && k0 < k + 1)) by {
                            if order_contains(old_order, k0) {
                                let i = choose|i: int|
                                    0 <= i < old_order.len() && (#[trigger] old_order[i]).index
                                        == k0;
                                assert(order@[i].index == k0);
                            }
                            if characters@[k0].team.index < t || (characters@[k0].team.index == t
                                && k0 < k) {
                                assert(order_contains(order@, k0));
                            }
                            if k0 == k {
                                assert(order@[order@.len() - 1].index == k0);
                            }
                            if order_contains(order@, k0) && !order_contains(old_order, k0) {
                                let i = choose|i: int|
                                    0 <= i < order@.len() && (#[trigger] order@[i]).index == k0;
                                if i < order@.len() - 1 {
                                    assert(old_order[i].index == k0);
                                }
                            }
                        }
                    }
                }
                k = k + 1;
            }
            t = t + 1;
        }
        // the cursor starts at the first living character in order
        let mut ci: usize = 0;
        let mut cursor: Option<usize> = None;
        while ci < order.len()
            invariant_except_break
                cursor is None,
            invariant
                n == characters@.len(),
                forall|i: int| 0 <= i < order@.len() ==> (#[trigger] order@[i]).index < n,
                ci <= order@.len(),
                forall|m: int|
                    0 <= m < ci ==> !spec_alive(characters@[(#[trigger] order@[m]).index as int]),
            ensures
                match cursor {
                    Some(c0) => c0 < order@.len() && spec_alive(
                        characters@[order@[c0 as int].index as int],
                    ) && forall|m: int|
                        0 <= m < c0 ==> !spec_alive(
                            characters@[(#[trigger] order@[m]).index as int],
                        ),
                    None => forall|m: int|
                        0 <= m < order@.len() ==> !spec_alive(
                            characters@[(#[trigger] order@[m]).index as int],
                        ),
                },
            decreases order@.len() - ci,
        {
            if characters.values[order[ci].index].alive() {
                cursor = Some(ci);
                break ;
            }
            ci = ci + 1;
        }
        proof {
            lemma_first_alive_spec(characters@, order@, 0);
        }
        let r = GameState { map, characters, turn_order: order, cursor, turn_number: 0 };
        proof {
            match r.cursor {
                Some(c0) => {
                    assert(first_alive(r.characters@, r.turn_order@, 0) == Some(c0 as int));
                },
                None => {
                    assert(first_alive(r.characters@, r.turn_order@, 0) is None);
                },
            }
            if r.characters@.len() > 0 && (forall|k: int|
                0 <= k < r.characters@.len() ==> spec_alive(#[trigger] r.characters@[k])) {
                assert(order_contains(r.turn_order@, 0));
                assert(r.turn_order@.len() > 0);
                assert(spec_alive(r.characters@[r.turn_order@[0].index as int]));
            }
        }
        r
    }
}

impl GameState {
    /// The character index of the actor the cursor names.
    pub open spec fn spec_actor(self) -> int
        recommends
            self.cursor is Some,
    {
        match self.cursor {
            Some(ci) => self.turn_order@[ci as int].index as int,
            None => 0,
        }
    }

    /// The first rejection an action runs into, or nothing when it is
    /// acceptable: the skill must exist and be allowed to the actor's class,
    /// the target must exist and live, the actor must afford the mana cost,
    /// and the target must stand within the skill's range.
    pub open spec fn spec_validate(self, def: GameDefinition, a: Action) -> Option<ActionError>
        recommends
            self.cursor is Some,
            self.wf(),
            self.linked(def),
    {
        let actor = self.characters@[self.spec_actor()];
        if a.skill.index >= def.skills@.len() {
            Some(ActionError::SkillNotUsable)
        } else if !class_allows(def, actor.class.index as int, a.skill.index as int) {
            Some(ActionError::SkillNotUsable)
        } else if a.target.index >= self.characters@.len() {
            Some(ActionError::InvalidTarget)
        } else if !spec_alive(self.characters@[a.target.index as int]) {
            Some(ActionError::InvalidTarget)
        } else if actor.current_mana < def.skills@[a.skill.index as int].mana_cost {
            Some(ActionError::InsufficientMana)
        } else if manhattan(
            def.maps@[self.map.index as int].width as int,
            actor.position.index as int,
            self.characters@[a.target.index as int].position.index as int,
        ) > def.skills@[a.skill.index as int].range {
            Some(ActionError::OutOfRange)
        } else {
            None
        }
    }

    /// The characters after an accepted action: the target loses the skill's
    /// damage (health floors at zero), then the actor pays the mana cost.
    pub open spec fn spec_apply(self, def: GameDefinition, a: Action) -> Seq<Character>
        recommends
            self.cursor is Some,
            self.spec_validate(def, a) is None,
    {
        let skill = def.skills@[a.skill.index as int];
        let tgt = self.characters@[a.target.index as int];
        let damaged = Character {
            current_health: if skill.damage >= tgt.current_health {
                0u32
            } else {
                (tgt.current_health - skill.damage) as u32
            },
            ..tgt
        };
        let s1 = self.characters@.update(a.target.index as int, damaged);
        let actor1 = s1[self.spec_actor()];
        s1.update(
            self.spec_actor(),
            Character { current_mana: (actor1.current_mana - skill.mana_cost) as u32, ..actor1 },
        )
    }

    /// Validates and applies one action of the character at the cursor, then
    /// advances the cursor to the next living character of the round, or to
    /// nothing when none is left. A rejected action leaves the state
    /// untouched. After an accepted action the cursor never moves backwards:
    /// the actor's position in the round is behind it.
    pub fn next_action(&mut self, def: &GameDefinition, a: Action) -> (r: Result<(), ActionError>)
        requires
            old(self).wf(),
            old(self).linked(*def),
            def.wf(),
            old(self).cursor is Some,
        ensures
            final(self).wf(),
            final(self).linked(*def),
            final(self).map == old(self).map,
            final(self).turn_order@ == old(self).turn_order@,
            final(self).turn_number == old(self).turn_number,
            r matches Err(e) ==> old(self).spec_validate(*def, a) == Some(e) && *final(self)
                == *old(self),
            r is Ok <==> old(self).spec_validate(*def, a) is None,
            r is Ok ==> final(self).characters@ == old(self).spec_apply(*def, a),
            r is Ok ==> final(self).cursor == first_alive_to_cursor(
                first_alive(
                    final(self).characters@,
                    old(self).turn_order@,
                    old(self).spec_cursor() + 1,
                ),
            ),
            r is Ok ==> match final(self).cursor {
                Some(j) => j > old(self).spec_cursor(),
                None => true,
            },
    {
        let ci = match self.cursor {
            Some(c) => c,
            None => {
                return Err(ActionError::InvalidTarget);
            },
        };
        let actor_idx = self.turn_order[ci].index;

        let (cost, dmg, rng) = match def.skills.get(a.skill) {
            Some(s) => (s.mana_cost, s.damage, s.range),
            None => {
                return Err(ActionError::SkillNotUsable);
            },
        };
        let class_idx = self.characters.values[actor_idx].class.index;
        if !skill_allowed(def, class_idx, a.skill.index) {
            return Err(ActionError::SkillNotUsable);
        }
        let tgt_i = a.target.index;
        if tgt_i >= self.characters.len() {
            return Err(ActionError::InvalidTarget);
        }
        if !self.characters.values[tgt_i].alive() {
            return Err(ActionError::InvalidTarget);
        }
        let am = self.characters.values[actor_idx].current_mana;
        if am < cost {
            return Err(ActionError::InsufficientMana);
        }
        let width = match def.maps.get(self.map) {
            Some(m) => m.width,
            None => 1,
        };
        proof {
            assert(def.maps@[self.map.index as int].spec_valid());
        }
        let pa = self.characters.values[actor_idx].position.index;
        let pt = self.characters.values[tgt_i].position.index;
        if too_far(width, pa, pt, rng) {
            return Err(ActionError::OutOfRange);
        }

        let th = self.characters.values[tgt_i].current_health;
        let nh = if dmg >= th {
            0
        } else {
            th - dmg
        };
        self.characters.values[tgt_i].current_health = nh;
        let am1 = self.characters.values[actor_idx].current_mana;
        self.characters.values[actor_idx].current_mana = am1 - cost;
        proof {
            assert(self.characters@ =~= old(self).spec_apply(*def, a));
        }

        let order_len = self.turn_order.len();
        proof {
            assert(old(self).cursor_ok());
            assert(ci < order_len);
        }
        let mut j: usize = ci + 1;
        let mut cursor: Option<usize> = None;
        while j < self.turn_order.len()
            invariant_except_break
                cursor is None,
            invariant
                ci < j,
                j <= self.turn_order@.len(),
                forall|i: int|
                    0 <= i < self.turn_order@.len() ==> (#[trigger] self.turn_order@[i]).index
                        < self.characters@.len(),
                forall|m: int|
                    ci < m < j ==> !spec_alive(
                        self.characters@[(#[trigger] self.turn_order@[m]).index as int],
                    ),
            ensures
                match cursor {
                    Some(c0) => ci < c0 < self.turn_order@.len() && spec_alive(
                        self.characters@[self.turn_order@[c0 as int].index as int],
                    ) && forall|m: int|
                        ci < m < c0 ==> !spec_alive(
                            self.characters@[(#[trigger] self.turn_order@[m]).index as int],
                        ),
                    None => forall|m: int|
                        ci < m < self.turn_order@.len() ==> !spec_alive(
                            self.characters@[(#[trigger] self.turn_order@[m]).index as int],
                        ),
                },
            decreases self.turn_order@.len() - j,
        {
            if self.characters.values[self.turn_order[j].index].alive() {
                cursor = Some(j);
                break ;
            }
            j = j + 1;
        }
        self.cursor = cursor;
        proof {
            lemma_first_alive_spec(self.characters@, self.turn_order@, ci + 1);
        }
        Ok(())
    }

    /// The cursor as a mathematical index.
    pub open spec fn spec_cursor(self) -> int
        recommends
            self.cursor is Some,
    {
        match self.cursor {
            Some(ci) => ci as int,
            None => 0,
        }
    }

    /// Starts the next turn: every buff loses one remaining turn and expires
    /// at zero, the turn counter advances, and the cursor returns to the
    /// first living character — unless no two living characters of different
    /// teams remain, in which case the game has ended and the cursor stays
    /// unset for good.
    pub fn new_turn(&mut self, def: &GameDefinition)
        requires
            old(self).wf(),
            old(self).linked(*def),
            old(self).cursor is None,
        ensures
            final(self).wf(),
            final(self).linked(*def),
            final(self).map == old(self).map,
            final(self).turn_order@ == old(self).turn_order@,
            final(self).characters@.len() == old(self).characters@.len(),
            forall|k: int|
                0 <= k < old(self).characters@.len() ==> ticked(
                    old(self).characters@[k],
                    #[trigger] final(self).characters@[k],
                ),
            final(self).turn_number == if old(self).turn_number < u64::MAX {
                old(self).turn_number + 1
            } else {
                old(self).turn_number as int
            },
            spec_ended(old(self).characters@) ==> final(self).cursor is None,
            !spec_ended(old(self).characters@) ==> final(self).cursor
                == first_alive_to_cursor(
                first_alive(final(self).characters@, final(self).turn_order@, 0),
            ) && final(self).cursor is Some,
    {
        let n = self.characters.len();
        let mut k: usize = 0;
        while k < n
            invariant
                k <= n,
                self.characters@.len() == n,
                self.map == old(self).map,
                self.turn_order@ == old(self).turn_order@,
                self.cursor == old(self).cursor,
                self.turn_number == old(self).turn_number,
                forall|k0: int|
                    0 <= k0 < k ==> ticked(
                        old(self).characters@[k0],
                        #[trigger] self.characters@[k0],
                    ),
                forall|k0: int|
                    k <= k0 < n ==> #[trigger] self.characters@[k0] == old(self).characters@[k0],
            decreases n - k,
        {
            let ghost old_b = self.characters@[k as int].buffs@;
            let m = self.characters.values[k].buffs.len();
            let mut nb: Vec<(Id<crate::game::Effect>, u32)> = Vec::new();
            let mut j: usize = 0;
            proof {
                assert(old_b.subrange(0, 0) =~= Seq::<(Id<crate::game::Effect>, u32)>::empty());
            }
            while j < m
                invariant
                    k < n,
                    n == self.characters@.len(),
                    m == self.characters@[k as int].buffs@.len(),
                    old_b == self.characters@[k as int].buffs@,
                    j <= m,
                    nb@ == tick_buffs(old_b.subrange(0, j as int)),
                decreases m - j,
            {
                let b = self.characters.values[k].buffs[j];
                if b.1 > 1 {
                    nb.push((b.0, b.1 - 1));
                }
                proof {
                    assert(old_b.subrange(0, j + 1).drop_last() =~= old_b.subrange(0, j as int));
                    assert(old_b.subrange(0, j + 1).last() == old_b[j as int]);
                }
                j = j + 1;
            }
            proof {
                assert(old_b.subrange(0, m as int) =~= old_b);
            }
            self.characters.values[k].buffs = nb;
            k = k + 1;
        }

        if self.turn_number < u64::MAX {
            self.turn_number = self.turn_number + 1;
        }

        let ended = self.is_ended();
        proof {
            assert forall|i: int|
                0 <= i < n implies (spec_alive(#[trigger] self.characters@[i]) == spec_alive(
                old(self).characters@[i],
            ) && self.characters@[i].team == old(self).characters@[i].team) by {
            }
            let co = old(self).characters@;
            let cn = self.characters@;
            if !spec_ended(co) {
                let (i0, j0): (int, int) = choose|i0: int, j0: int|
                    0 <= i0 < co.len() && 0 <= j0 < co.len() && spec_alive(#[trigger] co[i0])
                        && spec_alive(#[trigger] co[j0]) && co[i0].team.index != co[j0].team.index;
                assert(spec_alive(cn[i0]) && spec_alive(cn[j0]) && cn[i0].team.index
                    != cn[j0].team.index);
                assert(!spec_ended(cn));
            }
            if !spec_ended(cn) {
                let (i1, j1): (int, int) = choose|i1: int, j1: int|
                    0 <= i1 < cn.len() && 0 <= j1 < cn.len() && spec_alive(#[trigger] cn[i1])
                        && spec_alive(#[trigger] cn[j1]) && cn[i1].team.index != cn[j1].team.index;
                assert(spec_alive(co[i1]) && spec_alive(co[j1]) && co[i1].team.index
                    != co[j1].team.index);
                assert(!spec_ended(co));
            }
            assert(spec_ended(self.characters@) == spec_ended(old(self).characters@));
        }
        if ended {
            self.cursor = None;
            return ;
        }

        let mut ci: usize = 0;
        let mut cursor: Option<usize> = None;
        while ci < self.turn_order.len()
            invariant_except_break
                cursor is None,
            invariant
                ci <= self.turn_order@.len(),
                forall|i: int|
                    0 <= i < self.turn_order@.len() ==> (#[trigger] self.turn_order@[i]).index
                        < self.characters@.len(),
                forall|m0: int|
                    0 <= m0 < ci ==> !spec_alive(
                        self.characters@[(#[trigger] self.turn_order@[m0]).index as int],
                    ),
            ensures
                match cursor {
                    Some(c0) => c0 < self.turn_order@.len() && spec_alive(
                        self.characters@[self.turn_order@[c0 as int].index as int],
                    ) && forall|m0: int|
                        0 <= m0 < c0 ==> !spec_alive(
                            self.characters@[(#[trigger] self.turn_order@[m0]).index as int],
                        ),
                    None => forall|m0: int|
                        0 <= m0 < self.turn_order@.len() ==> !spec_alive(
                            self.characters@[(#[trigger] self.turn_order@[m0]).index as int],
                        ),
                },
            decreases self.turn_order@.len() - ci,
        {
            if self.characters.values[self.turn_order[ci].index].alive() {
                cursor = Some(ci);
                break ;
            }
            ci = ci + 1;
        }
        proof {
            lemma_first_alive_spec(self.characters@, self.turn_order@, 0);
            if cursor is None {
                let (i0, j0): (int, int) = choose|i0: int, j0: int|
                    0 <= i0 < self.characters@.len() && 0 <= j0 < self.characters@.len()
                        && spec_alive(#[trigger] self.characters@[i0]) && spec_alive(
                        #[trigger] self.characters@[j0],
                    ) && self.characters@[i0].team.index != self.characters@[j0].team.index;
                assert(order_contains(self.turn_order@, i0));
                let p = choose|p: int|
                    0 <= p < self.turn_order@.len() && (#[trigger] self.turn_order@[p]).index == i0;
                assert(spec_alive(self.characters@[self.turn_order@[p].index as int]));
                assert(false);
            }
        }
        self.cursor = cursor;
    }
}

/// Equality of running states up to the views of their owned fields.
pub open spec fn state_eq(a: GameState, b: GameState) -> bool {
    &&& a.map == b.map
    &&& a.cursor == b.cursor
    &&& a.turn_number == b.turn_number
    &&& a.turn_order@ == b.turn_order@
    &&& a.characters@.len() == b.characters@.len()
    &&& forall|k: int|
        0 <= k < a.characters@.len() ==> char_eq(
            #[trigger] a.characters@[k],
            b.characters@[k],
        )
}

impl GameState {
    /// A deep copy: the read-only snapshot `get_game` hands out.
    pub fn duplicate(&self) -> (r: GameState)
        ensures
            state_eq(*self, r),
    {
        let mut chars: Vec<Character> = Vec::new();
        let mut k: usize = 0;
        while k < self.characters.values.len()
            invariant
                k <= self.characters@.len(),
                chars@.len() == k,
                forall|k0: int|
                    0 <= k0 < k ==> char_eq(#[trigger] self.characters@[k0], chars@[k0]),
            decreases self.characters@.len() - k,
        {
            chars.push(self.characters.values[k].duplicate());
            k = k + 1;
        }
        GameState {
            map: self.map,
            characters: IdMap { values: chars },
            turn_order: copy_ids(&self.turn_order),
            cursor: self.cursor,
            turn_number: self.turn_number,
        }
    }
}

/// `b` is `a` after one turn passed: same character, buffs decremented with
/// the expired ones dropped.
pub open spec fn ticked(a: Character, b: Character) -> bool {
    &&& b.class == a.class
    &&& b.team == a.team
    &&& b.position == a.position
    &&& b.current_health == a.current_health
    &&& b.current_mana == a.current_mana
    &&& b.name == a.name
    &&& b.buffs@ == tick_buffs(a.buffs@)
}

/// Buffs after one turn: each remaining count drops by one, entries reaching
/// zero disappear, order kept.
pub open spec fn tick_buffs(bs: Seq<(Id<crate::game::Effect>, u32)>) -> Seq<
    (Id<crate::game::Effect>, u32),
>
    decreases bs.len(),
{
    if bs.len() == 0 {
        Seq::empty()
    } else {
        tick_buffs(bs.drop_last()) + if bs.last().1 > 1 {
            seq![(bs.last().0, (bs.last().1 - 1) as u32)]
        } else {
            Seq::empty()
        }
    }
}

/// Whether skill `s` stands in class `c`'s allowed list.
fn skill_allowed(def: &GameDefinition, c: usize, s: usize) -> (r: bool)
    requires
        c < def.class_to_skills@.len(),
    ensures
        r == class_allows(*def, c as int, s as int),
{
    let row = &def.class_to_skills[c];
    let mut j: usize = 0;
    while j < row.len()
        invariant
            row@ == def.class_to_skills@[c as int]@,
            j <= row@.len(),
            forall|j0: int| 0 <= j0 < j ==> (#[trigger] row@[j0]).index != s,
        decreases row@.len() - j,
    {
        if row[j].index == s {
            return true;
        }
        j = j + 1;
    }
    false
}

/// Whether two cells lie farther apart than `range`, by Manhattan distance on
/// a grid `w` cells wide.
fn too_far(w: usize, p: usize, q: usize, range: u32) -> (r: bool)
    requires
        w >= 1,
    ensures
        r == (manhattan(w as int, p as int, q as int) > range),
{
    let x1 = p % w;
    let x2 = q % w;
    let y1 = p / w;
    let y2 = q / w;
    let xd = if x1 >= x2 {
        x1 - x2
    } else {
        x2 - x1
    };
    let yd = if y1 >= y2 {
        y1 - y2
    } else {
        y2 - y1
    };
    let range = range as usize;
    if xd > range {
        true
    } else {
        yd > range - xd
    }
}

/// How a running game looks after one accepted action and the turn rotation
/// the registry drives: the action's effect is applied; then, when the round
/// is exhausted and the game has not ended, the next turn starts (buffs tick,
/// the turn counter advances, the cursor returns to the first living
/// character); when the game has ended the cursor stays unset.
pub open spec fn action_post(gs0: GameState, def: GameDefinition, a: Action, gs1: GameState) -> bool
    recommends
        gs0.cursor is Some,
        gs0.spec_validate(def, a) is None,
{
    let chars1 = gs0.spec_apply(def, a);
    let cur1 = first_alive(chars1, gs0.turn_order@, gs0.spec_cursor() + 1);
    &&& gs1.map == gs0.map
    &&& gs1.turn_order@ == gs0.turn_order@
    &&& match cur1 {
        Some(j) => gs1.characters@ == chars1 && gs1.cursor == Some(j as usize) && gs1.turn_number
            == gs0.turn_number,
        None => if spec_ended(chars1) {
            gs1.characters@ == chars1 && gs1.cursor is None && gs1.turn_number == gs0.turn_number
        } else {
            &&& gs1.characters@.len() == chars1.len()
            &&& forall|k: int| 0 <= k < chars1.len() ==> ticked(chars1[k], #[trigger] gs1.characters@[k])
            &&& gs1.turn_number == if gs0.turn_number < u64::MAX {
                gs0.turn_number + 1
            } else {
                gs0.turn_number as int
            }
            &&& gs1.cursor == first_alive_to_cursor(
                first_alive(gs1.characters@, gs1.turn_order@, 0),
            )
            &&& gs1.cursor is Some
        },
    }
}

/// In a well-formed running game the player to play is nobody or a living
/// character of the game.
pub proof fn lemma_player_alive(gs: GameState)
    requires
        gs.wf(),
    ensures
        match gs.spec_player() {
            Some(id) => id.index < gs.characters@.len() && spec_alive(
                gs.characters@[id.index as int],
            ),
            None => true,
        },
{
}

/// Converts the ghost position of the first living character into the cursor
/// the state stores.
pub open spec fn first_alive_to_cursor(fa: Option<int>) -> Option<usize> {
    match fa {
        Some(j) => Some(j as usize),
        None => None,
    }
}

/// Reads the team id of character `k`.
fn self_team(characters: &IdMap<Character>, k: usize) -> (t: usize)
    requires
        k < characters@.len(),
    ensures
        t == characters@[k as int].team.index,
{
    characters.values[k].team.index
}

} // verus!
