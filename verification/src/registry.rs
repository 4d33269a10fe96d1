//! The session registry: every session lives here under a ten-character
//! random id, first as a lobby collecting characters, then — atomically, the
//! moment the last seat fills — as a running game. Login tokens handed out at
//! character creation survive that transition unchanged.

use vstd::prelude::*;
use rand::Rng;
use crate::error::SessionError;
use crate::game::{spec_alive, Cell, Character, Class, GameDefinition, GameMap, Team};
use crate::ids::Id;
use crate::lobby::{cell_taken, CharacterMapBuilder};
use crate::state::{action_post, state_eq, Action, GameState};

verus! {

/// Session ids are pairwise distinct.
pub open spec fn keys_distinct(s: Seq<(String, Session)>) -> bool {
    forall|i: int, j: int|
        0 <= i < s.len() && 0 <= j < s.len() && i != j ==> (#[trigger] s[i]).0@ != (
        #[trigger] s[j]).0@
}

/// A character of session-id and login-token strings: a letter or a digit.
pub open spec fn is_token_char(c: char) -> bool {
    ||| ('a' <= c && c <= 'z')
    ||| ('A' <= c && c <= 'Z')
    ||| ('0' <= c && c <= '9')
}

/// Relies on rand's `thread_rng` with the `Alphanumeric` distribution: ten
/// characters, each drawn from `A-Z`, `a-z`, `0-9`. The result depends on the
/// generator's state, so nothing ties two calls together.
#[verifier::external_body]
fn random_token() -> (r: String)
    ensures
        r@.len() == 10,
        forall|i: int| 0 <= i < r@.len() ==> is_token_char(#[trigger] r@[i]),
{
    rand::thread_rng().sample_iter(&rand::distributions::Alphanumeric).take(10).map(
        char::from,
    ).collect()
}

/// One session: still assembling characters, or already playing.
pub enum Session {
    Lobby { builder: CharacterMapBuilder, logins: Vec<(String, Id<Character>)> },
    Running { state: GameState, logins: Vec<(String, Id<Character>)> },
}

/// The tokens of a login table are pairwise distinct and every entry names an
/// existing character.
pub open spec fn logins_wf(l: Seq<(String, Id<Character>)>, n_chars: int) -> bool {
    &&& forall|k1: int, k2: int|
        0 <= k1 < l.len() && 0 <= k2 < l.len() && k1 != k2 ==> (#[trigger] l[k1]).0@ != (
        #[trigger] l[k2]).0@
    &&& forall|k: int| 0 <= k < l.len() ==> (#[trigger] l[k]).1.index < n_chars
}

/// Token `tok` is known to the login table.
pub open spec fn has_login(l: Seq<(String, Id<Character>)>, tok: Seq<char>) -> bool {
    exists|k: int| 0 <= k < l.len() && (#[trigger] l[k]).0@ == tok
}

/// The character the token names (well-defined when the tokens are distinct).
pub open spec fn login_at(l: Seq<(String, Id<Character>)>, tok: Seq<char>) -> Id<Character> {
    l[choose|k: int| 0 <= k < l.len() && (#[trigger] l[k]).0@ == tok].1
}

/// Well-formedness of one session against the catalog.
pub open spec fn session_wf(sess: Session, def: GameDefinition) -> bool {
    match sess {
        Session::Lobby { builder, logins } => builder.wf_core() && builder.linked(def)
            && logins_wf(logins@, builder.characters@.len() as int),
        Session::Running { state, logins } => state.wf() && state.linked(def) && logins_wf(
            logins@,
            state.characters@.len() as int,
        ),
    }
}

/// Session id `id` is present.
pub open spec fn has_session(s: Seq<(String, Session)>, id: Seq<char>) -> bool {
    exists|i: int| 0 <= i < s.len() && (#[trigger] s[i]).0@ == id
}

/// The session stored under `id` (well-defined when ids are distinct).
pub open spec fn session_at(s: Seq<(String, Session)>, id: Seq<char>) -> Session {
    s[choose|i: int| 0 <= i < s.len() && (#[trigger] s[i]).0@ == id].1
}

/// `id` holds a lobby.
pub open spec fn is_lobby_at(s: Seq<(String, Session)>, id: Seq<char>) -> bool {
    has_session(s, id) && session_at(s, id) is Lobby
}

/// `id` holds a running game.
pub open spec fn is_running_at(s: Seq<(String, Session)>, id: Seq<char>) -> bool {
    has_session(s, id) && session_at(s, id) is Running
}

/// The lobby builder stored under `id`.
pub open spec fn lobby_builder_at(s: Seq<(String, Session)>, id: Seq<char>) -> CharacterMapBuilder
    recommends
        is_lobby_at(s, id),
{
    match session_at(s, id) {
        Session::Lobby { builder, .. } => builder,
        Session::Running { .. } => arbitrary(),
    }
}

/// The running state stored under `id`.
pub open spec fn running_state_at(s: Seq<(String, Session)>, id: Seq<char>) -> GameState
    recommends
        is_running_at(s, id),
{
    match session_at(s, id) {
        Session::Running { state, .. } => state,
        Session::Lobby { .. } => arbitrary(),
    }
}

/// The login table stored under `id`.
pub open spec fn logins_at(s: Seq<(String, Session)>, id: Seq<char>) -> Seq<
    (String, Id<Character>),
> {
    match session_at(s, id) {
        Session::Lobby { logins, .. } => logins@,
        Session::Running { logins, .. } => logins@,
    }
}

/// A read-only snapshot of one session.
pub enum GameSnapshot {
    Lobby { map: Id<GameMap>, team_size: usize },
    Running(GameState),
    Absent,
}

/// What a snapshot of session `id` reports: nothing exactly when the id is
/// unknown, the lobby's map and team size, or a copy of the running state.
pub open spec fn snapshot_matches(s: Seq<(String, Session)>, id: Seq<char>, r: GameSnapshot) -> bool {
    &&& (r is Absent <==> !has_session(s, id))
    &&& (is_lobby_at(s, id) ==> (r matches GameSnapshot::Lobby { map, team_size } && map
        == lobby_builder_at(s, id).map && team_size == lobby_builder_at(s, id).team_size))
    &&& (is_running_at(s, id) ==> (r matches GameSnapshot::Running(gs) && state_eq(
        running_state_at(s, id),
        gs,
    )))
}

/// Two snapshots agree on everything a client can observe.
pub open spec fn snapshot_eq(r1: GameSnapshot, r2: GameSnapshot) -> bool {
    match (r1, r2) {
        (GameSnapshot::Absent, GameSnapshot::Absent) => true,
        (
            GameSnapshot::Lobby { map: m1, team_size: t1 },
            GameSnapshot::Lobby { map: m2, team_size: t2 },
        ) => m1 == m2 && t1 == t2,
        (GameSnapshot::Running(g1), GameSnapshot::Running(g2)) => state_eq(g1, g2),
        _ => false,
    }
}

/// Reading a session is pure: two snapshots of one registry state agree on
/// everything a client can observe.
pub proof fn lemma_get_game_pure(
    s: Seq<(String, Session)>,
    id: Seq<char>,
    r1: GameSnapshot,
    r2: GameSnapshot,
)
    requires
        snapshot_matches(s, id, r1),
        snapshot_matches(s, id, r2),
    ensures
        snapshot_eq(r1, r2),
{
    if has_session(s, id) {
        assert(session_at(s, id) is Lobby || session_at(s, id) is Running);
        if is_running_at(s, id) {
            let gs = running_state_at(s, id);
            match (r1, r2) {
                (GameSnapshot::Running(g1), GameSnapshot::Running(g2)) => {
                    assert forall|k: int|
                        0 <= k < g1.characters@.len() implies crate::game::char_eq(
                        #[trigger] g1.characters@[k],
                        g2.characters@[k],
                    ) by {
                        assert(crate::game::char_eq(gs.characters@[k], g1.characters@[k]));
                        assert(crate::game::char_eq(gs.characters@[k], g2.characters@[k]));
                    }
                    assert(state_eq(g1, g2));
                },
                _ => {
                    assert(false);
                },
            }
        }
    }
}

/// Owns every session of the process.
pub struct SessionRegistry {
    pub sessions: Vec<(String, Session)>,
}

impl SessionRegistry {
    /// Session ids are pairwise distinct and every session is well-formed
    /// against the catalog.
    pub open spec fn wf(self, def: GameDefinition) -> bool {
        &&& keys_distinct(self.sessions@)
        &&& forall|i: int|
            0 <= i < self.sessions@.len() ==> session_wf((#[trigger] self.sessions@[i]).1, def)
    }

    pub fn new() -> (r: SessionRegistry)
        ensures
            r.sessions@.len() == 0,
    {
        SessionRegistry { sessions: Vec::new() }
    }

    /// The position of session `id`, if present.
    fn find_session(&self, id: &String) -> (r: Option<usize>)
        ensures
            match r {
                Some(i) => i < self.sessions@.len() && self.sessions@[i as int].0@ == id@,
                None => !has_session(self.sessions@, id@),
            },
    {
        let mut i: usize = 0;
        while i < self.sessions.len()
            invariant
                i <= self.sessions@.len(),
                forall|i0: int| 0 <= i0 < i ==> (#[trigger] self.sessions@[i0]).0@ != id@,
            decreases self.sessions@.len() - i,
        {
            if self.sessions[i].0 == *id {
                return Some(i);
            }
            i = i + 1;
        }
        None
    }

    /// Creates a lobby under a fresh random session id and returns that id.
    /// Rejected when the map does not exist or the team size is zero.
    pub fn create_game(&mut self, def: &GameDefinition, map: Id<GameMap>, team_size: usize) -> (r:
        Result<String, SessionError>)
        requires
            old(self).wf(*def),
        ensures
            final(self).wf(*def),
            r == Err::<String, SessionError>(SessionError::UnknownMap) <==> map.index
                >= def.maps@.len(),
            r == Err::<String, SessionError>(SessionError::InvalidTeamSize) <==> map.index
                < def.maps@.len() && team_size == 0,
            r is Ok || r == Err::<String, SessionError>(SessionError::IdExhausted) <==> map.index
                < def.maps@.len() && team_size >= 1,
            r is Err ==> *final(self) == *old(self),
            r matches Ok(id) ==> id@.len() == 10 && !has_session(old(self).sessions@, id@)
                && final(self).sessions@.len() == old(self).sessions@.len() + 1 && (forall|i: int|
                0 <= i < old(self).sessions@.len() ==> #[trigger] final(self).sessions@[i] == old(
                self,
            ).sessions@[i]) && final(self).sessions@.last().0 == id && is_lobby_at(
                final(self).sessions@,
                id@,
            ) && lobby_builder_at(final(self).sessions@, id@).map == map && lobby_builder_at(
                final(self).sessions@,
                id@,
            ).team_size == team_size && lobby_builder_at(
                final(self).sessions@,
                id@,
            ).characters@.len() == 0 && logins_at(final(self).sessions@, id@).len() == 0,
    {
        if map.index >= def.maps.len() {
            return Err(SessionError::UnknownMap);
        }
        if team_size == 0 {
            return Err(SessionError::InvalidTeamSize);
        }
        let mut token = random_token();
        let mut attempts: usize = 0;
        while attempts < 16 && self.find_session(&token).is_some()
            invariant
                token@.len() == 10,
            decreases 16 - attempts,
        {
            token = random_token();
            attempts = attempts + 1;
        }
        if self.find_session(&token).is_some() {
            return Err(SessionError::IdExhausted);
        }
        let builder = CharacterMapBuilder::new(def, map, team_size);
        let logins: Vec<(String, Id<Character>)> = Vec::new();
        let id = token.clone();
        let ghost old_sessions = self.sessions@;
        self.sessions.push((token, Session::Lobby { builder, logins }));
        proof {
            let n = old_sessions.len() as int;
            assert(self.sessions@[n].0@ == id@);
            assert(session_at(self.sessions@, id@) == self.sessions@[choose|i: int|
                0 <= i < self.sessions@.len() && (#[trigger] self.sessions@[i]).0@ == id@].1);
            let w = choose|i: int|
                0 <= i < self.sessions@.len() && (#[trigger] self.sessions@[i]).0@ == id@;
            assert(w == n);
        }
        Ok(id)
    }

    /// A read-only snapshot of session `id`: the lobby's map and team size, a
    /// deep copy of the running state, or nothing. Two calls with no mutation
    /// in between observe the same session and answer alike.
    pub fn get_game(&self, id: &String) -> (r: GameSnapshot)
        requires
            keys_distinct(self.sessions@),
        ensures
            snapshot_matches(self.sessions@, id@, r),
    {
        let i = match self.find_session(id) {
            Some(i) => i,
            None => {
                return GameSnapshot::Absent;
            },
        };
        proof {
            let w = choose|i0: int|
                0 <= i0 < self.sessions@.len() && (#[trigger] self.sessions@[i0]).0@ == id@;
            assert(w == i);
        }
        match &self.sessions[i].1 {
            Session::Lobby { builder, .. } => GameSnapshot::Lobby {
                map: builder.map,
                team_size: builder.team_size,
            },
            Session::Running { state, .. } => GameSnapshot::Running(state.duplicate()),
        }
    }

    /// Creates one character in the lobby `id`: fills its stats from its
    /// class, hands out a fresh login token bound to the new character's id,
    /// and — the moment every team is full — finalizes the lobby into a
    /// running game under the same session id, with every login preserved.
    pub fn create_character(&mut self, def: &GameDefinition, id: &String, req: CharacterRequest)
        -> (r: Result<(String, Id<Character>), SessionError>)
        requires
            def.wf(),
            old(self).wf(*def),
        ensures
            final(self).wf(*def),
            r == Err::<(String, Id<Character>), SessionError>(SessionError::NotFound)
                <==> !has_session(old(self).sessions@, id@),
            r == Err::<(String, Id<Character>), SessionError>(SessionError::AlreadyStarted)
                <==> is_running_at(old(self).sessions@, id@),
            r == Err::<(String, Id<Character>), SessionError>(SessionError::InvalidClass)
                <==> is_lobby_at(old(self).sessions@, id@) && req.class.index
                >= def.classes@.len(),
            r == Err::<(String, Id<Character>), SessionError>(SessionError::UnknownTeam)
                <==> is_lobby_at(old(self).sessions@, id@) && req.class.index < def.classes@.len()
                && req.team.index >= lobby_builder_at(old(self).sessions@, id@).counts@.len(),
            r == Err::<(String, Id<Character>), SessionError>(SessionError::CellOccupied)
                <==> is_lobby_at(old(self).sessions@, id@) && req.class.index < def.classes@.len()
                && req.team.index < lobby_builder_at(old(self).sessions@, id@).counts@.len()
                && cell_taken(
                lobby_builder_at(old(self).sessions@, id@).characters@,
                req.position.index as int,
            ),
            r == Err::<(String, Id<Character>), SessionError>(SessionError::TeamFull)
                <==> is_lobby_at(old(self).sessions@, id@) && req.class.index < def.classes@.len()
                && req.team.index < lobby_builder_at(old(self).sessions@, id@).counts@.len()
                && !cell_taken(
                lobby_builder_at(old(self).sessions@, id@).characters@,
                req.position.index as int,
            ) && lobby_builder_at(old(self).sessions@, id@).counts@[req.team.index as int]
                >= lobby_builder_at(old(self).sessions@, id@).team_size,
            r is Err ==> final(self).sessions@ == old(self).sessions@,
            r is Ok || r == Err::<(String, Id<Character>), SessionError>(
                SessionError::IdExhausted,
            ) <==> is_lobby_at(old(self).sessions@, id@) && req.class.index < def.classes@.len()
                && req.team.index < lobby_builder_at(old(self).sessions@, id@).counts@.len()
                && !cell_taken(
                lobby_builder_at(old(self).sessions@, id@).characters@,
                req.position.index as int,
            ) && lobby_builder_at(old(self).sessions@, id@).counts@[req.team.index as int]
                < lobby_builder_at(old(self).sessions@, id@).team_size,
            r matches Ok((token, cid)) ==> is_lobby_at(old(self).sessions@, id@)
                && cid.index == lobby_builder_at(old(self).sessions@, id@).characters@.len()
                && token@.len() == 10 && !has_login(logins_at(old(self).sessions@, id@), token@)
                && final(self).sessions@.len() == old(self).sessions@.len() && (forall|j: int|
                0 <= j < old(self).sessions@.len() && (#[trigger] old(self).sessions@[j]).0@ != id@
                    ==> final(self).sessions@[j] == old(self).sessions@[j]) && (forall|j: int|
                0 <= j < old(self).sessions@.len() ==> (#[trigger] final(self).sessions@[j]).0@
                    == old(self).sessions@[j].0@) && logins_at(final(self).sessions@, id@)
                == logins_at(old(self).sessions@, id@).push((token, cid)),
            r matches Ok((token, cid)) && !lobby_completes(
                lobby_builder_at(old(self).sessions@, id@),
                req.team.index as int,
            ) ==> is_lobby_at(final(self).sessions@, id@) && lobby_builder_at(
                final(self).sessions@,
                id@,
            ).characters@.len() == lobby_builder_at(old(self).sessions@, id@).characters@.len() + 1
                && lobby_builder_at(final(self).sessions@, id@).characters@.subrange(
                0,
                lobby_builder_at(old(self).sessions@, id@).characters@.len() as int,
            ) == lobby_builder_at(old(self).sessions@, id@).characters@ && char_matches_request(
                lobby_builder_at(final(self).sessions@, id@).characters@.last(),
                *def,
                req,
            ),
            r matches Ok((token, cid)) && lobby_completes(
                lobby_builder_at(old(self).sessions@, id@),
                req.team.index as int,
            ) ==> is_running_at(final(self).sessions@, id@) && running_state_at(
                final(self).sessions@,
                id@,
            ).map == lobby_builder_at(old(self).sessions@, id@).map && running_state_at(
                final(self).sessions@,
                id@,
            ).turn_number == 0 && running_state_at(final(self).sessions@, id@).characters@.len()
                == lobby_builder_at(old(self).sessions@, id@).characters@.len() + 1
                && running_state_at(final(self).sessions@, id@).characters@.subrange(
                0,
                lobby_builder_at(old(self).sessions@, id@).characters@.len() as int,
            ) == lobby_builder_at(old(self).sessions@, id@).characters@ && char_matches_request(
                running_state_at(final(self).sessions@, id@).characters@.last(),
                *def,
                req,
            ) && ((forall|k: int|
                0 <= k < running_state_at(final(self).sessions@, id@).characters@.len()
                    ==> spec_alive(
                    #[trigger] running_state_at(final(self).sessions@, id@).characters@[k],
                )) ==> running_state_at(final(self).sessions@, id@).cursor == Some(0usize)),
    {
        let i = match self.find_session(id) {
            Some(i) => i,
            None => {
                return Err(SessionError::NotFound);
            },
        };
        proof {
            lemma_at_index(self.sessions@, id@, i as int);
        }
        match &self.sessions[i].1 {
            Session::Running { .. } => {
                return Err(SessionError::AlreadyStarted);
            },
            Session::Lobby { .. } => {},
        }
        let (health, mana) = match def.classes.get(req.class) {
            Some(cl) => (cl.health, cl.mana),
            None => {
                return Err(SessionError::InvalidClass);
            },
        };
        let ghost old_sessions = self.sessions@;
        proof {
            assert(session_wf(old_sessions[i as int].1, *def));
        }
        let (key, sess) = self.sessions.remove(i);
        let (mut builder, mut logins) = match sess {
            Session::Lobby { builder, logins } => (builder, logins),
            Session::Running { .. } => {
                return vstd::pervasive::unreached();
            },
        };
        let ghost b0 = builder;

        // rejections first, so that they leave everything untouched
        match builder.check(req.team, req.class, req.position) {
            Some(e) => {
                self.sessions.insert(i, (key, Session::Lobby { builder, logins }));
                proof {
                    assert(self.sessions@ =~= old_sessions);
                }
                return Err(e);
            },
            None => {},
        }

        // then the login token, which also leaves everything untouched
        let mut token = random_token();
        let mut attempts: usize = 0;
        while attempts < 16 && login_taken(&logins, &token)
            invariant
                token@.len() == 10,
            decreases 16 - attempts,
        {
            token = random_token();
            attempts = attempts + 1;
        }
        if login_taken(&logins, &token) {
            self.sessions.insert(i, (key, Session::Lobby { builder, logins }));
            proof {
                assert(self.sessions@ =~= old_sessions);
            }
            return Err(SessionError::IdExhausted);
        }

        let c = Character {
            class: req.class,
            team: req.team,
            position: req.position,
            current_health: health,
            current_mana: mana,
            buffs: Vec::new(),
            name: req.name,
        };
        let cid = match builder.add(c) {
            Ok(cid) => cid,
            Err(_) => {
                return vstd::pervasive::unreached();
            },
        };
        logins.push((token.clone(), cid));
        let ghost b1 = builder;
        proof {
            assert(b1.characters@.subrange(0, b0.characters@.len() as int) =~= b0.characters@);
            assert forall|t: int| 0 <= t < b1.counts@.len() implies #[trigger] b1.counts@[t] == (
            if t == req.team.index as int {
                b0.counts@[t] + 1
            } else {
                b0.counts@[t] as int
            }) by {
            }
            assert(b1.counts@.len() == b0.counts@.len());
            if b1.spec_can_build() {
                assert forall|t: int| 0 <= t < b0.counts@.len() implies (if t
                    == req.team.index as int {
                    b0.counts@[t] + 1
                } else {
                    b0.counts@[t] as int
                }) == b0.team_size by {
                    assert(b1.counts@[t] == b1.team_size);
                }
                assert(lobby_completes(b0, req.team.index as int));
            }
            if lobby_completes(b0, req.team.index as int) {
                assert forall|t: int| 0 <= t < b1.counts@.len() implies #[trigger] b1.counts@[t]
                    == b1.team_size by {
                    assert((if t == req.team.index as int {
                        b0.counts@[t] + 1
                    } else {
                        b0.counts@[t] as int
                    }) == b0.team_size);
                }
                assert(b1.spec_can_build());
            }
            assert(b1.spec_can_build() == lobby_completes(b0, req.team.index as int));
        }

        if builder.can_build() {
            let map = builder.map;
            let chars = match builder.build() {
                Ok(m) => m,
                Err(_) => {
                    return vstd::pervasive::unreached();
                },
            };
            let state = GameState::new(def, chars, map);
            self.sessions.insert(i, (key, Session::Running { state, logins }));
            proof {
                assert(self.sessions@ =~= old_sessions.update(
                    i as int,
                    self.sessions@[i as int],
                ));
                lemma_at_index(self.sessions@, id@, i as int);
            }
        } else {
            self.sessions.insert(i, (key, Session::Lobby { builder, logins }));
            proof {
                assert(self.sessions@ =~= old_sessions.update(
                    i as int,
                    self.sessions@[i as int],
                ));
                lemma_at_index(self.sessions@, id@, i as int);
            }
        }
        Ok((token, cid))
    }

    /// Applies one action on behalf of the client holding `login` in the
    /// running game `id`: the login must name the character whose turn it is;
    /// the action is validated and applied, and when it exhausts the round
    /// and the game has not ended, the next turn starts.
    pub fn character_action(
        &mut self,
        def: &GameDefinition,
        id: &String,
        login: &String,
        action: Action,
    ) -> (r: Result<(), SessionError>)
        requires
            def.wf(),
            old(self).wf(*def),
        ensures
            final(self).wf(*def),
            r == Err::<(), SessionError>(SessionError::NotFound) <==> !has_session(
                old(self).sessions@,
                id@,
            ),
            r == Err::<(), SessionError>(SessionError::NotStartedYet) <==> is_lobby_at(
                old(self).sessions@,
                id@,
            ),
            r == Err::<(), SessionError>(SessionError::UnknownLogin) <==> is_running_at(
                old(self).sessions@,
                id@,
            ) && !has_login(logins_at(old(self).sessions@, id@), login@),
            r == Err::<(), SessionError>(SessionError::NotYourTurn) <==> is_running_at(
                old(self).sessions@,
                id@,
            ) && has_login(logins_at(old(self).sessions@, id@), login@) && !turn_of(
                running_state_at(old(self).sessions@, id@),
                login_at(logins_at(old(self).sessions@, id@), login@),
            ),
            forall|e: crate::error::ActionError|
                r == Err::<(), SessionError>(SessionError::InvalidAction(e)) <==> is_running_at(
                    old(self).sessions@,
                    id@,
                ) && has_login(logins_at(old(self).sessions@, id@), login@) && turn_of(
                    running_state_at(old(self).sessions@, id@),
                    login_at(logins_at(old(self).sessions@, id@), login@),
                ) && running_state_at(old(self).sessions@, id@).spec_validate(*def, action)
                    == Some(e),
            r is Ok <==> is_running_at(old(self).sessions@, id@) && has_login(
                logins_at(old(self).sessions@, id@),
                login@,
            ) && turn_of(
                running_state_at(old(self).sessions@, id@),
                login_at(logins_at(old(self).sessions@, id@), login@),
            ) && running_state_at(old(self).sessions@, id@).spec_validate(*def, action) is None,
            r is Err ==> final(self).sessions@ == old(self).sessions@,
            r is Ok ==> is_running_at(final(self).sessions@, id@) && action_post(
                running_state_at(old(self).sessions@, id@),
                *def,
                action,
                running_state_at(final(self).sessions@, id@),
            ) && logins_at(final(self).sessions@, id@) == logins_at(old(self).sessions@, id@) && (
            forall|j: int|
                0 <= j < old(self).sessions@.len() && (#[trigger] old(self).sessions@[j]).0@ != id@
                    ==> final(self).sessions@[j] == old(self).sessions@[j])
                && final(self).sessions@.len() == old(self).sessions@.len(),
    {
        let i = match self.find_session(id) {
            Some(i) => i,
            None => {
                return Err(SessionError::NotFound);
            },
        };
        proof {
            lemma_at_index(self.sessions@, id@, i as int);
        }
        match &self.sessions[i].1 {
            Session::Lobby { .. } => {
                return Err(SessionError::NotStartedYet);
            },
            Session::Running { .. } => {},
        }
        let ghost old_sessions = self.sessions@;
        let (key, sess) = self.sessions.remove(i);
        let (mut state, logins) = match sess {
            Session::Running { state, logins } => (state, logins),
            Session::Lobby { .. } => {
                return vstd::pervasive::unreached();
            },
        };
        let k = match find_login(&logins, login) {
            Some(k) => k,
            None => {
                self.sessions.insert(i, (key, Session::Running { state, logins }));
                proof {
                    assert(self.sessions@ =~= old_sessions);
                }
                return Err(SessionError::UnknownLogin);
            },
        };
        let cid = logins[k].1;
        proof {
            lemma_login_at_index(logins@, login@, k as int);
        }
        let my_turn = match state.player_to_play() {
            Some(pid) => pid.index == cid.index,
            None => false,
        };
        if !my_turn {
            self.sessions.insert(i, (key, Session::Running { state, logins }));
            proof {
                assert(self.sessions@ =~= old_sessions);
            }
            return Err(SessionError::NotYourTurn);
        }
        match state.next_action(def, action) {
            Ok(()) => {},
            Err(e) => {
                self.sessions.insert(i, (key, Session::Running { state, logins }));
                proof {
                    assert(self.sessions@ =~= old_sessions);
                }
                return Err(SessionError::InvalidAction(e));
            },
        }
        let done = match state.player_to_play() {
            Some(_) => true,
            None => state.is_ended(),
        };
        if !done {
            state.new_turn(def);
        }
        self.sessions.insert(i, (key, Session::Running { state, logins }));
        proof {
            assert(self.sessions@ =~= old_sessions.update(i as int, self.sessions@[i as int]));
            lemma_at_index(self.sessions@, id@, i as int);
        }
        Ok(())
    }
}

/// The login names exactly the character whose turn it is.
pub open spec fn turn_of(gs: GameState, cid: Id<Character>) -> bool {
    match gs.spec_player() {
        Some(pid) => pid.index == cid.index,
        None => false,
    }
}

/// What a client submits to create its character.
pub struct CharacterRequest {
    pub class: Id<Class>,
    pub team: Id<Team>,
    pub position: Id<Cell>,
    pub name: String,
}

/// The character built from a request: stats filled in from its class, no
/// buffs yet.
pub open spec fn char_matches_request(c: Character, def: GameDefinition, req: CharacterRequest) -> bool {
    &&& c.class == req.class
    &&& c.team == req.team
    &&& c.position == req.position
    &&& c.current_health == def.classes@[req.class.index as int].health
    &&& c.current_mana == def.classes@[req.class.index as int].mana
    &&& c.buffs@.len() == 0
    &&& c.name == req.name
}

/// Adding one member to `team` fills every team of the lobby.
pub open spec fn lobby_completes(b: CharacterMapBuilder, team: int) -> bool {
    forall|t: int|
        0 <= t < b.counts@.len() ==> (if t == team {
            b.counts@[t] + 1
        } else {
            b.counts@[t] as int
        }) == b.team_size
}

/// The element at a position with the sought key is the session the id names.
pub proof fn lemma_at_index(s: Seq<(String, Session)>, id: Seq<char>, i: int)
    requires
        keys_distinct(s),
        0 <= i < s.len(),
        s[i].0@ == id,
    ensures
        has_session(s, id),
        session_at(s, id) == s[i].1,
{
    let w = choose|i0: int| 0 <= i0 < s.len() && (#[trigger] s[i0]).0@ == id;
    assert(s[i].0@ == id);
    assert(w == i);
}

/// The element at a position with the sought token is the login it names.
pub proof fn lemma_login_at_index(l: Seq<(String, Id<Character>)>, tok: Seq<char>, k: int)
    requires
        forall|k1: int, k2: int|
            0 <= k1 < l.len() && 0 <= k2 < l.len() && k1 != k2 ==> (#[trigger] l[k1]).0@ != (
            #[trigger] l[k2]).0@,
        0 <= k < l.len(),
        l[k].0@ == tok,
    ensures
        has_login(l, tok),
        login_at(l, tok) == l[k].1,
{
    let w = choose|k0: int| 0 <= k0 < l.len() && (#[trigger] l[k0]).0@ == tok;
    assert(l[k].0@ == tok);
    assert(w == k);
}

/// Whether `tok` is already a login token of this table.
fn login_taken(logins: &Vec<(String, Id<Character>)>, tok: &String) -> (r: bool)
    ensures
        r == has_login(logins@, tok@),
{
    let mut k: usize = 0;
    while k < logins.len()
        invariant
            k <= logins@.len(),
            forall|k0: int| 0 <= k0 < k ==> (#[trigger] logins@[k0]).0@ != tok@,
        decreases logins@.len() - k,
    {
        if logins[k].0 == *tok {
            return true;
        }
        k = k + 1;
    }
    false
}

/// The position of `tok` in the table, if present.
fn find_login(logins: &Vec<(String, Id<Character>)>, tok: &String) -> (r: Option<usize>)
    ensures
        match r {
            Some(k) => k < logins@.len() && logins@[k as int].0@ == tok@,
            None => !has_login(logins@, tok@),
        },
{
    let mut k: usize = 0;
    while k < logins.len()
        invariant
            k <= logins@.len(),
            forall|k0: int| 0 <= k0 < k ==> (#[trigger] logins@[k0]).0@ != tok@,
        decreases logins@.len() - k,
    {
        if logins[k].0 == *tok {
            return Some(k);
        }
        k = k + 1;
    }
    None
}

/// A session id names a lobby or a running game, never both at once.
pub proof fn lemma_session_in_one_place(
    reg: SessionRegistry,
    def: GameDefinition,
    id: Seq<char>,
)
    requires
        reg.wf(def),
    ensures
        !(is_lobby_at(reg.sessions@, id) && is_running_at(reg.sessions@, id)),
{
}

} // verus!
