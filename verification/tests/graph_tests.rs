use rustafari::errors::AppError;
use rustafari::graph::{CommunityGraph, Connection, ConnectionType, User};

fn user(name: &str, interests: &[&str]) -> User {
    User::new(
        name.to_string(),
        None,
        interests.iter().map(|s| s.to_string()).collect(),
    )
}

#[test]
fn add_users_then_get_returns_stored_records() {
    let mut g = CommunityGraph::new();
    assert!(g.add_user(User::new(
        "alice".to_string(),
        Some("systems person".to_string()),
        vec!["rust".to_string(), "embedded".to_string()],
    ))
    .is_ok());
    assert!(g.add_user(user("bob", &["go"])).is_ok());
    assert!(g.add_user(user("carol", &[])).is_ok());

    let alice = g.get_user("alice").expect("alice was added");
    assert_eq!(alice.username, "alice");
    assert_eq!(alice.bio.as_deref(), Some("systems person"));
    assert_eq!(alice.interests, vec!["rust".to_string(), "embedded".to_string()]);
    assert!(alice.connections.is_empty());

    let bob = g.get_user("bob").expect("bob was added");
    assert_eq!(bob.username, "bob");
    assert_eq!(bob.bio, None);
    assert_eq!(bob.interests, vec!["go".to_string()]);

    let carol = g.get_user("carol").expect("carol was added");
    assert!(carol.interests.is_empty());
}

#[test]
fn duplicate_username_is_conflict_and_leaves_record_alone() {
    let mut g = CommunityGraph::new();
    assert!(g.add_user(User::new(
        "alice".to_string(),
        Some("original".to_string()),
        vec!["rust".to_string()],
    ))
    .is_ok());

    let result = g.add_user(User::new(
        "alice".to_string(),
        Some("impostor".to_string()),
        vec!["cobol".to_string()],
    ));
    match result {
        Err(AppError::UserAlreadyExists(name)) => assert_eq!(name, "alice"),
        _ => panic!("expected UserAlreadyExists"),
    }

    let alice = g.get_user("alice").expect("alice still present");
    assert_eq!(alice.bio.as_deref(), Some("original"));
    assert_eq!(alice.interests, vec!["rust".to_string()]);
}

#[test]
fn default_store_is_empty() {
    let g = CommunityGraph::default();
    assert!(g.members.is_empty());
    assert!(!g.contains_username("anyone"));
}

#[test]
fn get_unknown_user_is_not_found() {
    let g = CommunityGraph::new();
    match g.get_user("nobody") {
        Err(AppError::UserNotFound(name)) => assert_eq!(name, "nobody"),
        _ => panic!("expected UserNotFound"),
    }
}

#[test]
fn connect_missing_from_is_not_found_from() {
    let mut g = CommunityGraph::new();
    assert!(g.add_user(user("bob", &[])).is_ok());

    // `from` absent, `to` present: the missing `from` is reported.
    match g.connect_users("alice", "bob", ConnectionType::Mentor, vec![], "2024".to_string()) {
        Err(AppError::UserNotFound(name)) => assert_eq!(name, "alice"),
        _ => panic!("expected UserNotFound(alice)"),
    }
    // `from` absent and `to` absent too: still the missing `from`.
    match g.connect_users("alice", "zoe", ConnectionType::Mentor, vec![], "2024".to_string()) {
        Err(AppError::UserNotFound(name)) => assert_eq!(name, "alice"),
        _ => panic!("expected UserNotFound(alice)"),
    }
}

#[test]
fn connect_missing_to_is_not_found_to() {
    let mut g = CommunityGraph::new();
    assert!(g.add_user(user("alice", &[])).is_ok());
    match g.connect_users("alice", "zoe", ConnectionType::Follower, vec![], "2024".to_string()) {
        Err(AppError::UserNotFound(name)) => assert_eq!(name, "zoe"),
        _ => panic!("expected UserNotFound(zoe)"),
    }
    assert!(g.get_user("alice").expect("alice present").connections.is_empty());
}

#[test]
fn connect_appends_exactly_one_edge_and_leaves_target_alone() {
    let mut g = CommunityGraph::new();
    assert!(g.add_user(user("alice", &["rust"])).is_ok());
    assert!(g.add_user(user("bob", &["rust"])).is_ok());

    let result = g.connect_users(
        "alice",
        "bob",
        ConnectionType::Collaborator,
        vec!["oss".to_string(), "compilers".to_string()],
        "2023-06".to_string(),
    );
    assert!(result.is_ok());

    let alice = g.get_user("alice").expect("alice present");
    assert_eq!(alice.connections.len(), 1);
    let edge = &alice.connections[0];
    assert_eq!(edge.to_username, "bob");
    assert_eq!(edge.kind, ConnectionType::Collaborator);
    assert_eq!(edge.since, "2023-06");
    assert_eq!(edge.tags, vec!["oss".to_string(), "compilers".to_string()]);

    // No reverse edge: bob is validated, never mutated.
    let bob = g.get_user("bob").expect("bob present");
    assert!(bob.connections.is_empty());

    // A second connection appends; the first entry is untouched.
    assert!(g.connect_users("alice", "bob", ConnectionType::Mentor, vec![], "2024".to_string())
        .is_ok());
    let alice = g.get_user("alice").expect("alice present");
    assert_eq!(alice.connections.len(), 2);
    assert_eq!(alice.connections[0].kind, ConnectionType::Collaborator);
    assert_eq!(alice.connections[1].kind, ConnectionType::Mentor);
}

#[test]
fn add_connection_appends_to_the_owning_user() {
    let mut u = user("alice", &[]);
    u.add_connection(Connection {
        to_username: "bob".to_string(),
        kind: ConnectionType::ProjectBuddy,
        since: "2020".to_string(),
        tags: vec![],
    });
    assert_eq!(u.connections.len(), 1);
    assert_eq!(u.connections[0].to_username, "bob");
}

#[test]
fn find_users_by_interest_matches_exactly() {
    let mut g = CommunityGraph::new();
    assert!(g.add_user(user("alice", &["rust", "embedded"])).is_ok());
    assert!(g.add_user(user("bob", &["go"])).is_ok());
    assert!(g.add_user(user("carol", &["rust"])).is_ok());

    let found = g.find_users_by_interest("rust");
    let mut names: Vec<&str> = found.iter().map(|u| u.username.as_str()).collect();
    names.sort();
    assert_eq!(names, vec!["alice", "carol"]);

    // Comparison is exact and case-sensitive; no normalization.
    assert!(g.find_users_by_interest("Rust").is_empty());
    // An unknown interest yields an empty list, not an error.
    assert!(g.find_users_by_interest("haskell").is_empty());
}

#[test]
fn has_similar_interests_reports_each_shared_interest_once() {
    let a = user("alice", &["rust", "rust", "go", "nix"]);
    let b = user("bob", &["go", "rust", "zig"]);
    let shared = a.has_similar_interests(&b);
    assert_eq!(shared, vec!["rust".to_string(), "go".to_string()]);

    let c = user("carol", &["zig"]);
    assert!(a.has_similar_interests(&c).is_empty());
}
