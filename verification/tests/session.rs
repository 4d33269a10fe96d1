use pewcraft_server::error::{ActionError, SessionError};
use pewcraft_server::game::{Class, ClassContent, Effect, GameDefinition, GameMap, Skill, Team};
use pewcraft_server::ids::{Id, IdMapBuilder};
use pewcraft_server::registry::{CharacterRequest, GameSnapshot, SessionRegistry};
use pewcraft_server::state::{Action, GameState};

fn sample_def() -> GameDefinition {
    let mut teams = IdMapBuilder::new();
    teams.add(Team { name: "red".to_string(), spawn_cells: vec![Id::new(0), Id::new(1)] });
    teams.add(Team { name: "blue".to_string(), spawn_cells: vec![Id::new(2), Id::new(3)] });
    let arena = GameMap { name: "arena".to_string(), width: 10, height: 10, teams: teams.build() };
    let entries = vec![ClassContent {
        class: Class { name: "warrior".to_string(), health: 10, mana: 5 },
        skills: vec![Skill { name: "slam".to_string(), mana_cost: 2, damage: 2, range: 1 }],
        effects: vec![Effect { name: "burn".to_string(), duration: 2 }],
    }];
    let common_skills = vec![
        Skill { name: "strike".to_string(), mana_cost: 1, damage: 3, range: 100 },
        Skill { name: "smite".to_string(), mana_cost: 1, damage: 10, range: 100 },
        Skill { name: "drain".to_string(), mana_cost: 99, damage: 1, range: 100 },
    ];
    let common_effects = vec![Effect { name: "chill".to_string(), duration: 1 }];
    pewcraft_server::loader::build_definition(entries, common_skills, common_effects, vec![arena])
        .unwrap()
}

fn request(team: usize, position: usize, name: &str) -> CharacterRequest {
    CharacterRequest {
        class: Id::new(0),
        team: Id::new(team),
        position: Id::new(position),
        name: name.to_string(),
    }
}

const STRIKE: usize = 1;
const SMITE: usize = 2;
const DRAIN: usize = 3;

fn action(skill: usize, target: usize) -> Action {
    Action { skill: Id::new(skill), target: Id::new(target) }
}

fn running(reg: &SessionRegistry, id: &String) -> GameState {
    match reg.get_game(id) {
        GameSnapshot::Running(gs) => gs,
        _ => panic!("expected a running game"),
    }
}

#[test]
fn full_lifecycle() {
    let def = sample_def();
    let mut reg = SessionRegistry::new();
    let gid = reg.create_game(&def, Id::new(0), 1).unwrap();
    assert_eq!(gid.len(), 10);
    assert!(gid.chars().all(|c| c.is_ascii_alphanumeric()));

    match reg.get_game(&gid) {
        GameSnapshot::Lobby { map, team_size } => {
            assert_eq!(map.index, 0);
            assert_eq!(team_size, 1);
        },
        _ => panic!("expected a lobby"),
    }

    let (la, c0) = reg.create_character(&def, &gid, request(0, 0, "A")).unwrap();
    assert_eq!(la.len(), 10);
    assert_eq!(c0.index, 0);
    let (lb, c1) = reg.create_character(&def, &gid, request(1, 1, "B")).unwrap();
    assert_eq!(c1.index, 1);

    let gs = running(&reg, &gid);
    assert_eq!(gs.turn_number, 0);
    assert_eq!(gs.player_to_play().map(|p| p.index), Some(0));
    assert_eq!(gs.characters.values[0].name, "A");
    assert_eq!(gs.characters.values[0].current_health, 10);

    // not B's turn yet
    let r = reg.character_action(&def, &gid, &lb, action(STRIKE, 1));
    assert_eq!(r, Err(SessionError::NotYourTurn));

    // A strikes B for 3
    reg.character_action(&def, &gid, &la, action(STRIKE, 1)).unwrap();
    let gs = running(&reg, &gid);
    assert_eq!(gs.characters.values[1].current_health, 7);
    assert_eq!(gs.characters.values[0].current_mana, 4);
    assert_eq!(gs.player_to_play().map(|p| p.index), Some(1));
}

#[test]
fn lobby_rejects_overflow() {
    let def = sample_def();
    let mut reg = SessionRegistry::new();
    let gid = reg.create_game(&def, Id::new(0), 2).unwrap();
    reg.create_character(&def, &gid, request(0, 0, "A")).unwrap();
    reg.create_character(&def, &gid, request(0, 1, "B")).unwrap();
    let r = reg.create_character(&def, &gid, request(0, 2, "C"));
    assert_eq!(r.err(), Some(SessionError::TeamFull));
}

#[test]
fn unknown_session() {
    let def = sample_def();
    let mut reg = SessionRegistry::new();
    let r = reg.character_action(&def, &"ZZZZZZZZZZ".to_string(), &"La".to_string(), action(
        STRIKE,
        0,
    ));
    assert_eq!(r, Err(SessionError::NotFound));
}

#[test]
fn turn_wrap() {
    let def = sample_def();
    let mut reg = SessionRegistry::new();
    let gid = reg.create_game(&def, Id::new(0), 1).unwrap();
    let (la, _) = reg.create_character(&def, &gid, request(0, 0, "A")).unwrap();
    let (lb, _) = reg.create_character(&def, &gid, request(1, 1, "B")).unwrap();

    reg.character_action(&def, &gid, &la, action(STRIKE, 1)).unwrap();
    reg.character_action(&def, &gid, &lb, action(STRIKE, 0)).unwrap();

    let gs = running(&reg, &gid);
    assert_eq!(gs.turn_number, 1);
    assert_eq!(gs.player_to_play().map(|p| p.index), Some(0));
    assert_eq!(gs.characters.values[0].current_health, 7);
    assert_eq!(gs.characters.values[1].current_health, 7);
}

#[test]
fn game_end() {
    let def = sample_def();
    let mut reg = SessionRegistry::new();
    let gid = reg.create_game(&def, Id::new(0), 1).unwrap();
    let (la, _) = reg.create_character(&def, &gid, request(0, 0, "A")).unwrap();
    let (_lb, _) = reg.create_character(&def, &gid, request(1, 1, "B")).unwrap();

    // one smite kills B; only one team remains alive, the cursor stays unset
    reg.character_action(&def, &gid, &la, action(SMITE, 1)).unwrap();
    let gs = running(&reg, &gid);
    assert_eq!(gs.characters.values[1].current_health, 0);
    assert!(gs.player_to_play().is_none());
    assert!(gs.is_ended());
    assert_eq!(gs.turn_number, 0);

    // and it stays that way: nobody has a turn any more
    let r = reg.character_action(&def, &gid, &la, action(STRIKE, 1));
    assert_eq!(r, Err(SessionError::NotYourTurn));
}

#[test]
fn get_game_is_pure() {
    let def = sample_def();
    let mut reg = SessionRegistry::new();
    let gid = reg.create_game(&def, Id::new(0), 1).unwrap();
    let (la, _) = reg.create_character(&def, &gid, request(0, 0, "A")).unwrap();
    reg.create_character(&def, &gid, request(1, 1, "B")).unwrap();
    reg.character_action(&def, &gid, &la, action(STRIKE, 1)).unwrap();

    let a = running(&reg, &gid);
    let b = running(&reg, &gid);
    assert_eq!(a.map.index, b.map.index);
    assert_eq!(a.cursor, b.cursor);
    assert_eq!(a.turn_number, b.turn_number);
    assert_eq!(a.characters.values.len(), b.characters.values.len());
    for k in 0..a.characters.values.len() {
        let (x, y) = (&a.characters.values[k], &b.characters.values[k]);
        assert_eq!(x.name, y.name);
        assert_eq!(x.current_health, y.current_health);
        assert_eq!(x.current_mana, y.current_mana);
        assert_eq!(x.class.index, y.class.index);
        assert_eq!(x.team.index, y.team.index);
        assert_eq!(x.position.index, y.position.index);
    }
    let ta: Vec<usize> = a.turn_order.iter().map(|i| i.index).collect();
    let tb: Vec<usize> = b.turn_order.iter().map(|i| i.index).collect();
    assert_eq!(ta, tb);
}

#[test]
fn session_errors() {
    let def = sample_def();
    let mut reg = SessionRegistry::new();
    assert_eq!(reg.create_game(&def, Id::new(5), 1).err(), Some(SessionError::UnknownMap));
    assert_eq!(reg.create_game(&def, Id::new(0), 0).err(), Some(SessionError::InvalidTeamSize));

    let gid = reg.create_game(&def, Id::new(0), 1).unwrap();
    assert_eq!(
        reg.character_action(&def, &gid, &"nope".to_string(), action(STRIKE, 0)),
        Err(SessionError::NotStartedYet),
    );
    let mut bad_class = request(0, 0, "A");
    bad_class.class = Id::new(9);
    assert_eq!(reg.create_character(&def, &gid, bad_class).err(), Some(SessionError::InvalidClass));
    assert_eq!(
        reg.create_character(&def, &gid, request(7, 0, "A")).err(),
        Some(SessionError::UnknownTeam),
    );
    let (_la, _) = reg.create_character(&def, &gid, request(0, 0, "A")).unwrap();
    assert_eq!(
        reg.create_character(&def, &gid, request(1, 0, "B")).err(),
        Some(SessionError::CellOccupied),
    );
    let (lb, _) = reg.create_character(&def, &gid, request(1, 1, "B")).unwrap();

    // the game is running now
    assert_eq!(
        reg.create_character(&def, &gid, request(1, 2, "C")).err(),
        Some(SessionError::AlreadyStarted),
    );
    assert_eq!(
        reg.character_action(&def, &gid, &"wrong".to_string(), action(STRIKE, 1)),
        Err(SessionError::UnknownLogin),
    );
    assert_eq!(
        reg.character_action(&def, &gid, &lb, action(STRIKE, 0)),
        Err(SessionError::NotYourTurn),
    );
    assert!(matches!(reg.get_game(&"ABCDEFGHIJ".to_string()), GameSnapshot::Absent));
}

#[test]
fn action_errors() {
    let def = sample_def();
    let mut reg = SessionRegistry::new();
    let gid = reg.create_game(&def, Id::new(0), 1).unwrap();
    let (la, _) = reg.create_character(&def, &gid, request(0, 0, "A")).unwrap();
    reg.create_character(&def, &gid, request(1, 5, "B")).unwrap();

    assert_eq!(
        reg.character_action(&def, &gid, &la, action(99, 1)),
        Err(SessionError::InvalidAction(ActionError::SkillNotUsable)),
    );
    assert_eq!(
        reg.character_action(&def, &gid, &la, action(STRIKE, 9)),
        Err(SessionError::InvalidAction(ActionError::InvalidTarget)),
    );
    assert_eq!(
        reg.character_action(&def, &gid, &la, action(DRAIN, 1)),
        Err(SessionError::InvalidAction(ActionError::InsufficientMana)),
    );
    // slam reaches one cell; the target stands five cells away
    assert_eq!(
        reg.character_action(&def, &gid, &la, action(0, 1)),
        Err(SessionError::InvalidAction(ActionError::OutOfRange)),
    );
    // a rejected action leaves the state untouched
    let gs = running(&reg, &gid);
    assert_eq!(gs.characters.values[1].current_health, 10);
    assert_eq!(gs.player_to_play().map(|p| p.index), Some(0));
}

#[test]
fn buffs_expire_on_new_turn() {
    let def = sample_def();
    let mut reg = SessionRegistry::new();
    let gid = reg.create_game(&def, Id::new(0), 1).unwrap();
    reg.create_character(&def, &gid, request(0, 0, "A")).unwrap();
    reg.create_character(&def, &gid, request(1, 1, "B")).unwrap();
    let mut gs = running(&reg, &gid);
    gs.characters.values[0].buffs = vec![(Id::new(0), 2), (Id::new(1), 1)];
    gs.cursor = None;
    gs.new_turn(&def);
    assert_eq!(gs.turn_number, 1);
    let buffs = &gs.characters.values[0].buffs;
    assert_eq!(buffs.len(), 1);
    assert_eq!(buffs[0].0.index, 0);
    assert_eq!(buffs[0].1, 1);
    assert_eq!(gs.player_to_play().map(|p| p.index), Some(0));
}
