use pewcraft_server::error::ContentError;
use pewcraft_server::game::{Class, ClassContent, Effect, GameDefinition, GameMap, Skill, Team};
use pewcraft_server::ids::{Id, IdMap, IdMapBuilder};
use pewcraft_server::lobby::CharacterMapBuilder;

fn skill(name: &str, mana_cost: u32, damage: u32, range: u32) -> Skill {
    Skill { name: name.to_string(), mana_cost, damage, range }
}

fn effect(name: &str, duration: u32) -> Effect {
    Effect { name: name.to_string(), duration }
}

fn arena() -> GameMap {
    let mut teams = IdMapBuilder::new();
    teams.add(Team { name: "red".to_string(), spawn_cells: vec![Id::new(0), Id::new(1)] });
    teams.add(Team { name: "blue".to_string(), spawn_cells: vec![Id::new(2), Id::new(3)] });
    GameMap { name: "arena".to_string(), width: 10, height: 10, teams: teams.build() }
}

pub fn sample_def() -> GameDefinition {
    let entries = vec![ClassContent {
        class: Class { name: "warrior".to_string(), health: 10, mana: 5 },
        skills: vec![skill("slam", 2, 2, 1)],
        effects: vec![effect("burn", 2)],
    }];
    let common_skills = vec![
        skill("strike", 1, 3, 100),
        skill("smite", 1, 10, 100),
        skill("drain", 99, 1, 100),
    ];
    let common_effects = vec![effect("chill", 1)];
    pewcraft_server::loader::build_definition(entries, common_skills, common_effects, vec![
        arena(),
    ])
        .unwrap()
}

#[test]
fn id_map_builder_assigns_dense_ids() {
    let mut b: IdMapBuilder<u32> = IdMapBuilder::new();
    let i0 = b.add(10);
    let i1 = b.add(20);
    let i2 = b.add(30);
    assert_eq!(i0.index, 0);
    assert_eq!(i1.index, 1);
    assert_eq!(i2.index, 2);
    let m = b.build();
    assert_eq!(m.len(), 3);
    assert_eq!(m.get(i0), Some(&10));
    assert_eq!(m.get(i1), Some(&20));
    assert_eq!(m.get(i2), Some(&30));
    assert_eq!(m.get(Id::new(3)), None);
    let ids = m.ids();
    assert_eq!(ids.len(), 3);
    for (k, id) in ids.iter().enumerate() {
        assert_eq!(id.index, k);
    }
}

#[test]
fn loader_builds_cross_references() {
    let def = sample_def();
    assert_eq!(def.classes.len(), 1);
    // ids: 0 = slam (class-own), then the common skills 1, 2, 3
    assert_eq!(def.skills.len(), 4);
    assert_eq!(def.effects.len(), 2);
    assert_eq!(def.maps.len(), 1);
    let allowed = &def.class_to_skills[0];
    let indices: Vec<usize> = allowed.iter().map(|s| s.index).collect();
    assert_eq!(indices, vec![0, 1, 2, 3]);
    // the inverse table: slam belongs to the class alone, common skills to all
    for s in 0..4 {
        let users: Vec<usize> = def.skill_to_classes[s].iter().map(|c| c.index).collect();
        assert_eq!(users, vec![0]);
    }
}

#[test]
fn cross_reference_is_symmetric() {
    let def = sample_def();
    for c in 0..def.classes.len() {
        for s in 0..def.skills.len() {
            let in_allowed = def.class_to_skills[c].iter().any(|x| x.index == s);
            let in_users = def.skill_to_classes[s].iter().any(|x| x.index == c);
            assert_eq!(in_allowed, in_users);
        }
    }
}

#[test]
fn common_skills_allowed_to_every_class() {
    let def = sample_def();
    // skills 1.. are the common ones of sample_def
    for c in 0..def.classes.len() {
        for s in 1..4 {
            assert!(def.class_to_skills[c].iter().any(|x| x.index == s));
        }
    }
}

#[test]
fn loading_twice_is_deterministic() {
    let a = sample_def();
    let b = sample_def();
    assert_eq!(a.classes.len(), b.classes.len());
    assert_eq!(a.skills.len(), b.skills.len());
    for s in 0..a.skills.len() {
        assert_eq!(a.skills.values[s].name, b.skills.values[s].name);
        assert_eq!(a.skills.values[s].damage, b.skills.values[s].damage);
    }
    for c in 0..a.classes.len() {
        let ia: Vec<usize> = a.class_to_skills[c].iter().map(|x| x.index).collect();
        let ib: Vec<usize> = b.class_to_skills[c].iter().map(|x| x.index).collect();
        assert_eq!(ia, ib);
    }
    for s in 0..a.skills.len() {
        let ia: Vec<usize> = a.skill_to_classes[s].iter().map(|x| x.index).collect();
        let ib: Vec<usize> = b.skill_to_classes[s].iter().map(|x| x.index).collect();
        assert_eq!(ia, ib);
    }
}

#[test]
fn invalid_map_is_fatal() {
    let bad = GameMap {
        name: "void".to_string(),
        width: 0,
        height: 3,
        teams: IdMap { values: vec![Team { name: "t".to_string(), spawn_cells: vec![] }] },
    };
    let r = pewcraft_server::loader::build_definition(vec![], vec![], vec![], vec![bad]);
    assert_eq!(r.err(), Some(ContentError::InvalidMap));
}

#[test]
fn map_validity_checks_spawn_cells() {
    let mut teams = IdMapBuilder::new();
    teams.add(Team { name: "red".to_string(), spawn_cells: vec![Id::new(9)] });
    let m = GameMap { name: "tiny".to_string(), width: 3, height: 3, teams: teams.build() };
    assert!(!m.check_validity());
    let mut teams2 = IdMapBuilder::new();
    teams2.add(Team { name: "red".to_string(), spawn_cells: vec![Id::new(8)] });
    let m2 = GameMap { name: "tiny".to_string(), width: 3, height: 3, teams: teams2.build() };
    assert!(m2.check_validity());
}

#[test]
fn lobby_builder_incomplete() {
    let def = sample_def();
    let b = CharacterMapBuilder::new(&def, Id::new(0), 1);
    match b.build() {
        Err(e) => assert_eq!(e, pewcraft_server::error::SessionError::Incomplete),
        Ok(_) => panic!("an empty lobby must not build"),
    }
}
