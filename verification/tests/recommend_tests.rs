use rustafari::errors::AppError;
use rustafari::graph::{CommunityGraph, Connection, ConnectionType, User};
use rustafari::recommend::recommend_connection_type;

fn user(name: &str, interests: &[&str]) -> User {
    User::new(
        name.to_string(),
        None,
        interests.iter().map(|s| s.to_string()).collect(),
    )
}

fn user_with_edges(name: &str, interests: &[&str], edges: usize) -> User {
    let mut u = user(name, interests);
    for i in 0..edges {
        u.add_connection(Connection {
            to_username: format!("peer{}", i),
            kind: ConnectionType::Follower,
            since: "2020".to_string(),
            tags: vec![],
        });
    }
    u
}

#[test]
fn four_shared_interests_make_a_project_buddy() {
    // Shared count above three wins over every connection-count rule.
    let subject = user_with_edges("u", &["a", "b", "c", "d"], 9);
    let candidate = user_with_edges("c", &["a", "b", "c", "d"], 0);
    assert_eq!(recommend_connection_type(&subject, &candidate), ConnectionType::ProjectBuddy);
}

#[test]
fn much_better_connected_candidate_is_a_mentor() {
    // 3 > 2 * 1, so the candidate mentors the subject.
    let subject = user_with_edges("u", &["a"], 1);
    let candidate = user_with_edges("c", &["a"], 3);
    assert_eq!(recommend_connection_type(&subject, &candidate), ConnectionType::Mentor);
}

#[test]
fn much_better_connected_subject_is_a_follower() {
    // 5 > 2 * 1, so the candidate would follow the subject.
    let subject = user_with_edges("u", &["a"], 5);
    let candidate = user_with_edges("c", &["a"], 1);
    assert_eq!(recommend_connection_type(&subject, &candidate), ConnectionType::Follower);
}

#[test]
fn comparable_connectivity_makes_collaborators() {
    // Neither 3 > 4 nor 2 > 6: collaborators.
    let subject = user_with_edges("u", &["a"], 2);
    let candidate = user_with_edges("c", &["a"], 3);
    assert_eq!(recommend_connection_type(&subject, &candidate), ConnectionType::Collaborator);
}

#[test]
fn recommend_unknown_user_is_not_found() {
    let g = CommunityGraph::new();
    match g.recommend_connections("nobody") {
        Err(AppError::UserNotFound(name)) => assert_eq!(name, "nobody"),
        _ => panic!("expected UserNotFound"),
    }
}

#[test]
fn recommendations_exclude_self_and_connected_users() {
    let mut g = CommunityGraph::new();
    assert!(g.add_user(user("alice", &["rust", "go"])).is_ok());
    assert!(g.add_user(user("bob", &["rust", "go"])).is_ok());
    assert!(g.add_user(user("carol", &["rust"])).is_ok());
    assert!(g.add_user(user("dave", &["lisp"])).is_ok());
    assert!(g.connect_users("alice", "bob", ConnectionType::Mentor, vec![], "2024".to_string())
        .is_ok());

    let recs = g.recommend_connections("alice").expect("alice exists");
    let names: Vec<&str> = recs.iter().map(|r| r.username.as_str()).collect();
    // Not alice herself, not bob (already connected), not dave (nothing
    // shared); carol remains.
    assert_eq!(names, vec!["carol"]);
    assert_eq!(recs[0].shared_interests, vec!["rust".to_string()]);
}

#[test]
fn inbound_connections_do_not_exclude_a_candidate() {
    let mut g = CommunityGraph::new();
    assert!(g.add_user(user("alice", &["rust"])).is_ok());
    assert!(g.add_user(user("bob", &["rust"])).is_ok());
    // bob -> alice only; alice has no outgoing edge to bob.
    assert!(g.connect_users("bob", "alice", ConnectionType::Follower, vec![], "2024".to_string())
        .is_ok());

    let recs = g.recommend_connections("alice").expect("alice exists");
    assert_eq!(recs.len(), 1);
    assert_eq!(recs[0].username, "bob");
}

#[test]
fn recommendations_are_sorted_by_shared_interest_count() {
    let mut g = CommunityGraph::new();
    assert!(g.add_user(user("alice", &["a", "b", "c"])).is_ok());
    assert!(g.add_user(user("one", &["c"])).is_ok());
    assert!(g.add_user(user("three", &["a", "b", "c"])).is_ok());
    assert!(g.add_user(user("two", &["a", "b"])).is_ok());

    let recs = g.recommend_connections("alice").expect("alice exists");
    assert_eq!(recs.len(), 3);
    let counts: Vec<usize> = recs.iter().map(|r| r.shared_interests.len()).collect();
    assert_eq!(counts, vec![3, 2, 1]);
    assert_eq!(recs[0].username, "three");
    assert_eq!(recs[1].username, "two");
    assert_eq!(recs[2].username, "one");
}

#[test]
fn recommendation_carries_the_heuristic_label() {
    let mut g = CommunityGraph::new();
    assert!(g.add_user(user("alice", &["a", "b", "c", "d"])).is_ok());
    assert!(g.add_user(user("buddy", &["a", "b", "c", "d"])).is_ok());
    assert!(g.add_user(user("guide", &["a"])).is_ok());
    // guide collects three outgoing edges, alice keeps none: a mentor.
    assert!(g.add_user(user("p0", &["x0"])).is_ok());
    assert!(g.add_user(user("p1", &["x1"])).is_ok());
    assert!(g.add_user(user("p2", &["x2"])).is_ok());
    for peer in ["p0", "p1", "p2"] {
        assert!(g.connect_users("guide", peer, ConnectionType::Follower, vec![], "2020".to_string())
            .is_ok());
    }

    let recs = g.recommend_connections("alice").expect("alice exists");
    assert_eq!(recs.len(), 2);
    assert_eq!(recs[0].username, "buddy");
    assert_eq!(recs[0].connection_type, ConnectionType::ProjectBuddy);
    assert_eq!(recs[1].username, "guide");
    assert_eq!(recs[1].connection_type, ConnectionType::Mentor);
}

#[test]
fn no_candidate_shares_an_interest_means_no_recommendations() {
    let mut g = CommunityGraph::new();
    assert!(g.add_user(user("alice", &["rust"])).is_ok());
    assert!(g.add_user(user("bob", &["go"])).is_ok());
    let recs = g.recommend_connections("alice").expect("alice exists");
    assert!(recs.is_empty());
}
