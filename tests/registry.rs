use player_registry::{PlayerRegistry, Position, RegistryError};

fn at(x: f32, y: f32) -> Position {
    Position { x_bits: x.to_bits(), y_bits: y.to_bits() }
}

fn name(s: &str) -> String {
    s.to_string()
}

#[test]
fn alice_scenario() {
    let mut reg = PlayerRegistry::new();
    let created = reg.register(name("alice")).unwrap();
    assert_eq!(created.player.name, "alice");
    assert_eq!(created.player.position, at(0.0, 0.0));
    let c = created.secret;

    let moved = reg.update_position(&name("alice"), at(3.0, 4.0), c).unwrap();
    assert_eq!(moved.name, "alice");
    assert_eq!(moved.position, at(3.0, 4.0));

    let wrong = c.wrapping_add(1);
    let refused = reg.update_position(&name("alice"), at(9.0, 9.0), wrong);
    assert!(matches!(refused, Err(RegistryError::Unauthorized)));
    assert_eq!(refused.unwrap_err().status_code(), 401);
    assert_eq!(reg.get(&name("alice")).unwrap().position, at(3.0, 4.0));
}

#[test]
fn origin_is_positive_zero() {
    assert_eq!(Position::origin(), at(0.0, 0.0));
}

#[test]
fn register_twice_conflicts() {
    let mut reg = PlayerRegistry::new();
    assert!(reg.register_with_secret(name("bob"), 7).is_ok());
    let second = reg.register_with_secret(name("bob"), 8);
    assert!(matches!(second, Err(RegistryError::NameConflict)));
    assert_eq!(reg.len(), 1);
    let bobs = reg.list().into_iter().filter(|p| p.name == "bob").count();
    assert_eq!(bobs, 1);
    // the first credential stays bound to the player
    assert!(reg.update_position(&name("bob"), at(1.0, 1.0), 8).is_err());
    assert!(reg.update_position(&name("bob"), at(1.0, 1.0), 7).is_ok());
}

#[test]
fn get_unknown_is_not_found() {
    let mut reg = PlayerRegistry::new();
    assert!(matches!(reg.get(&name("ghost")), Err(RegistryError::NotFound)));
    reg.register_with_secret(name("alice"), 1).unwrap();
    let missing = reg.get(&name("ghost"));
    assert!(matches!(missing, Err(RegistryError::NotFound)));
    assert_eq!(missing.unwrap_err().status_code(), 404);
}

#[test]
fn update_unknown_is_not_found() {
    let mut reg = PlayerRegistry::new();
    reg.register_with_secret(name("alice"), 1).unwrap();
    let r = reg.update_position(&name("nobody"), at(1.0, 2.0), 1);
    assert!(matches!(r, Err(RegistryError::NotFound)));
    assert_eq!(reg.get(&name("alice")).unwrap().position, at(0.0, 0.0));
}

#[test]
fn wrong_credential_keeps_position() {
    let mut reg = PlayerRegistry::new();
    reg.register_with_secret(name("carol"), 42).unwrap();
    reg.update_position(&name("carol"), at(5.0, -2.5), 42).unwrap();
    let r = reg.update_position(&name("carol"), at(9.0, 9.0), 43);
    assert!(matches!(r, Err(RegistryError::Unauthorized)));
    assert_eq!(reg.get(&name("carol")).unwrap().position, at(5.0, -2.5));
}

#[test]
fn move_changes_only_target() {
    let mut reg = PlayerRegistry::new();
    reg.register_with_secret(name("a"), 1).unwrap();
    reg.register_with_secret(name("b"), 2).unwrap();
    reg.register_with_secret(name("c"), 3).unwrap();
    reg.update_position(&name("a"), at(1.0, 1.0), 1).unwrap();
    reg.update_position(&name("b"), at(7.5, 8.5), 2).unwrap();
    assert_eq!(reg.get(&name("a")).unwrap().position, at(1.0, 1.0));
    assert_eq!(reg.get(&name("b")).unwrap().position, at(7.5, 8.5));
    assert_eq!(reg.get(&name("c")).unwrap().position, at(0.0, 0.0));
}

#[test]
fn list_reflects_registrations_and_latest_moves() {
    let mut reg = PlayerRegistry::new();
    assert!(reg.list().is_empty());
    for (i, n) in ["p0", "p1", "p2", "p3"].iter().enumerate() {
        reg.register_with_secret(name(n), i as u64).unwrap();
    }
    reg.update_position(&name("p1"), at(1.0, 0.0), 1).unwrap();
    reg.update_position(&name("p1"), at(2.0, 0.0), 1).unwrap();
    reg.update_position(&name("p1"), at(3.0, 0.0), 99).unwrap_err();
    reg.update_position(&name("p3"), at(0.0, 6.0), 3).unwrap();
    let players = reg.list();
    assert_eq!(players.len(), 4);
    let mut names: Vec<&str> = players.iter().map(|p| p.name.as_str()).collect();
    names.sort();
    names.dedup();
    assert_eq!(names, vec!["p0", "p1", "p2", "p3"]);
    for p in &players {
        let expected = match p.name.as_str() {
            "p1" => at(2.0, 0.0),
            "p3" => at(0.0, 6.0),
            _ => at(0.0, 0.0),
        };
        assert_eq!(p.position, expected);
    }
}

#[test]
fn same_name_many_times_succeeds_once() {
    let mut reg = PlayerRegistry::new();
    let k: u64 = 16;
    let mut ok = 0;
    let mut conflicts = 0;
    for c in 0..k {
        match reg.register_with_secret(name("dup"), c) {
            Ok(_) => ok += 1,
            Err(RegistryError::NameConflict) => conflicts += 1,
            Err(e) => panic!("unexpected error {:?}", e),
        }
    }
    assert_eq!(ok, 1);
    assert_eq!(conflicts, k - 1);
    assert_eq!(reg.len(), 1);
}

#[test]
fn conflict_status_code() {
    assert_eq!(RegistryError::NameConflict.status_code(), 403);
    assert_eq!(RegistryError::NotFound.status_code(), 404);
    assert_eq!(RegistryError::Unauthorized.status_code(), 401);
}

#[test]
fn empty_name_is_an_ordinary_name() {
    let mut reg = PlayerRegistry::new();
    assert!(reg.register_with_secret(name(""), 5).is_ok());
    assert!(matches!(reg.register_with_secret(name(""), 6), Err(RegistryError::NameConflict)));
    assert_eq!(reg.get(&name("")).unwrap().name, "");
}

#[test]
fn extreme_credentials() {
    let mut reg = PlayerRegistry::new();
    reg.register_with_secret(name("max"), u64::MAX).unwrap();
    reg.register_with_secret(name("zero"), 0).unwrap();
    assert!(reg.update_position(&name("max"), at(1.0, 1.0), 0).is_err());
    assert!(reg.update_position(&name("zero"), at(1.0, 1.0), u64::MAX).is_err());
    assert!(reg.update_position(&name("max"), at(1.0, 1.0), u64::MAX).is_ok());
    assert!(reg.update_position(&name("zero"), at(2.0, 2.0), 0).is_ok());
}
