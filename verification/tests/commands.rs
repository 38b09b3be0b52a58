use planc::{may_open_session, ClientMessage, Error, SessionState};

fn room(ids: &[&str]) -> SessionState {
    let mut state = SessionState::new();
    for id in ids {
        state.join(id, 16).unwrap();
    }
    state
}

fn name(text: &str) -> ClientMessage {
    ClientMessage::NameChange(text.to_string())
}

fn points(text: &str) -> ClientMessage {
    ClientMessage::SetPoints(text.to_string())
}

#[test]
fn set_points_stores_the_estimate() {
    let mut state = room(&["1", "2"]);
    assert_eq!(state.apply("1", &points("13")), Ok(()));
    assert_eq!(state.get("1").unwrap().points, Some("13".to_string()));
    assert_eq!(state.get("2").unwrap().points, None);
}

#[test]
fn set_points_accepts_eight_characters_and_refuses_nine() {
    let mut state = room(&["1"]);
    assert_eq!(state.apply("1", &points("12345678")), Ok(()));
    assert_eq!(state.apply("1", &points("123456789")), Err(Error::InvalidMessage));
    assert_eq!(state.get("1").unwrap().points, Some("12345678".to_string()));
}

#[test]
fn set_points_accepts_the_empty_estimate() {
    let mut state = room(&["1"]);
    assert_eq!(state.apply("1", &points("")), Ok(()));
    assert_eq!(state.get("1").unwrap().points, Some(String::new()));
}

#[test]
fn set_points_counts_characters() {
    let mut state = room(&["1"]);
    assert_eq!(state.apply("1", &points("½½½½½½½½")), Ok(()));
    assert_eq!(state.apply("1", &points("½½½½½½½½½")), Err(Error::InvalidMessage));
}

#[test]
fn spectator_cannot_set_points() {
    let mut state = room(&["1"]);
    assert_eq!(state.apply("1", &ClientMessage::SetSpectator(true)), Ok(()));
    assert_eq!(state.apply("1", &points("5")), Err(Error::InvalidMessage));
    assert_eq!(state.get("1").unwrap().points, None);
}

#[test]
fn set_spectator_clears_points_both_ways() {
    let mut state = room(&["1"]);
    state.apply("1", &points("5")).unwrap();
    assert_eq!(state.apply("1", &ClientMessage::SetSpectator(true)), Ok(()));
    let user = state.get("1").unwrap();
    assert!(user.is_spectator);
    assert_eq!(user.points, None);
    assert_eq!(state.apply("1", &ClientMessage::SetSpectator(false)), Ok(()));
    state.apply("1", &points("8")).unwrap();
    assert_eq!(state.apply("1", &ClientMessage::SetSpectator(false)), Ok(()));
    let user = state.get("1").unwrap();
    assert!(!user.is_spectator);
    assert_eq!(user.points, None);
}

#[test]
fn claim_session_sets_admin_once() {
    let mut state = room(&["1", "2"]);
    assert_eq!(state.apply("2", &ClientMessage::ClaimSession), Ok(()));
    assert_eq!(state.admin(), &Some("2".to_string()));
    assert_eq!(state.apply("1", &ClientMessage::ClaimSession), Err(Error::InsufficientPermissions));
    assert_eq!(state.apply("2", &ClientMessage::ClaimSession), Err(Error::InsufficientPermissions));
    assert_eq!(state.admin(), &Some("2".to_string()));
}

#[test]
fn reset_points_is_for_the_admin() {
    let mut state = room(&["1", "2", "3"]);
    state.apply("1", &points("1")).unwrap();
    state.apply("2", &points("2")).unwrap();
    assert_eq!(state.apply("1", &ClientMessage::ResetPoints), Err(Error::InsufficientPermissions));
    state.apply("1", &ClientMessage::ClaimSession).unwrap();
    assert_eq!(state.apply("2", &ClientMessage::ResetPoints), Err(Error::InsufficientPermissions));
    assert_eq!(state.get("1").unwrap().points, Some("1".to_string()));
    assert_eq!(state.get("2").unwrap().points, Some("2".to_string()));
    assert_eq!(state.apply("1", &ClientMessage::ResetPoints), Ok(()));
    for id in ["1", "2", "3"] {
        assert_eq!(state.get(id).unwrap().points, None);
    }
    assert_eq!(state.len(), 3);
    assert_eq!(state.admin(), &Some("1".to_string()));
}

#[test]
fn reset_points_keeps_names_and_flags() {
    let mut state = room(&["1", "2"]);
    state.apply("1", &ClientMessage::ClaimSession).unwrap();
    state.apply("2", &name("Cy")).unwrap();
    state.apply("2", &points("3")).unwrap();
    state.leave("2", true);
    state.apply("1", &ClientMessage::ResetPoints).unwrap();
    let user = state.get("2").unwrap();
    assert_eq!(user.name, Some("Cy".to_string()));
    assert!(user.is_inactive);
    assert_eq!(user.points, None);
}

#[test]
fn kicking_another_keeps_the_admin() {
    let mut state = room(&["1", "2", "3"]);
    state.apply("2", &ClientMessage::ClaimSession).unwrap();
    assert_eq!(state.apply("2", &ClientMessage::KickUser("3".to_string())), Ok(()));
    assert_eq!(state.admin(), &Some("2".to_string()));
    assert_eq!(state.apply("2", &ClientMessage::KickUser("3".to_string())), Ok(()));
    assert_eq!(state.admin(), &Some("2".to_string()));
    assert!(state.get("3").unwrap().kicked);
    assert!(!state.get("2").unwrap().kicked);
}

#[test]
fn kick_is_for_the_admin() {
    let mut state = room(&["1", "2"]);
    assert_eq!(
        state.apply("1", &ClientMessage::KickUser("2".to_string())),
        Err(Error::InsufficientPermissions)
    );
    state.apply("1", &ClientMessage::ClaimSession).unwrap();
    assert_eq!(
        state.apply("2", &ClientMessage::KickUser("1".to_string())),
        Err(Error::InsufficientPermissions)
    );
    // Lacking the role is reported before the target is looked at.
    assert_eq!(
        state.apply("2", &ClientMessage::KickUser("9".to_string())),
        Err(Error::InsufficientPermissions)
    );
    assert_eq!(
        state.apply("1", &ClientMessage::KickUser("9".to_string())),
        Err(Error::UnknownUserId)
    );
    assert_eq!(state.apply("1", &ClientMessage::KickUser("2".to_string())), Ok(()));
    assert!(state.get("2").unwrap().kicked);
    assert!(!state.get("1").unwrap().kicked);
}

#[test]
fn kicked_participant_gets_user_kicked_for_every_command() {
    let mut state = room(&["1", "2"]);
    state.apply("1", &ClientMessage::ClaimSession).unwrap();
    state.apply("1", &ClientMessage::KickUser("2".to_string())).unwrap();
    let commands = [
        name("Di"),
        points("1"),
        ClientMessage::ResetPoints,
        ClientMessage::Whoami,
        ClientMessage::ClaimSession,
        ClientMessage::KickUser("1".to_string()),
        ClientMessage::SetSpectator(true),
        ClientMessage::HoldConnection,
        name("a name that is far too long for anybody to have"),
    ];
    for command in commands.iter() {
        assert_eq!(state.apply("2", command), Err(Error::UserKicked));
    }
    let user = state.get("2").unwrap();
    assert_eq!(user.name, None);
    assert_eq!(user.points, None);
    assert!(!user.is_spectator);
}

#[test]
fn admin_may_kick_itself() {
    let mut state = room(&["1"]);
    state.apply("1", &ClientMessage::ClaimSession).unwrap();
    assert_eq!(state.apply("1", &ClientMessage::KickUser("1".to_string())), Ok(()));
    assert_eq!(state.admin(), &None);
    assert!(state.get("1").unwrap().kicked);
    assert_eq!(state.apply("1", &ClientMessage::ResetPoints), Err(Error::UserKicked));
    assert_eq!(state.project("1").err(), Some(Error::UserKicked));
    state.leave("1", false);
    assert_eq!(state.admin(), &None);
    assert!(state.is_empty());
}

#[test]
fn stranger_gets_unknown_user_id() {
    let mut state = room(&["1"]);
    assert_eq!(state.apply("2", &ClientMessage::Whoami), Err(Error::UnknownUserId));
    assert_eq!(state.apply("", &ClientMessage::ClaimSession), Err(Error::UnknownUserId));
    assert_eq!(state.apply("01", &points("1")), Err(Error::UnknownUserId));
    assert_eq!(state.admin(), &None);
}

#[test]
fn whoami_and_hold_leave_the_state_alone() {
    let mut state = room(&["1"]);
    state.apply("1", &points("2")).unwrap();
    assert_eq!(state.apply("1", &ClientMessage::Whoami), Ok(()));
    assert_eq!(state.apply("1", &ClientMessage::HoldConnection), Ok(()));
    let user = state.get("1").unwrap();
    assert_eq!(user.points, Some("2".to_string()));
    assert!(!user.is_inactive);
}

#[test]
fn name_change_sets_a_free_name() {
    let mut state = room(&["1", "2"]);
    assert_eq!(state.apply("1", &name("Eve")), Ok(()));
    assert_eq!(state.get("1").unwrap().name, Some("Eve".to_string()));
    assert_eq!(state.apply("1", &name("Eva")), Ok(()));
    assert_eq!(state.get("1").unwrap().name, Some("Eva".to_string()));
    assert_eq!(state.apply("2", &name("Eve")), Ok(()));
    assert_eq!(state.get("2").unwrap().name, Some("Eve".to_string()));
}

#[test]
fn name_change_accepts_32_characters_and_refuses_33() {
    let mut state = room(&["1"]);
    let longest = "a".repeat(32);
    let too_long = "a".repeat(33);
    assert_eq!(state.apply("1", &name(&too_long)), Err(Error::InvalidMessage));
    assert_eq!(state.get("1").unwrap().name, None);
    assert_eq!(state.apply("1", &name(&longest)), Ok(()));
    assert_eq!(state.get("1").unwrap().name, Some(longest));
}

#[test]
fn name_of_connected_participant_is_refused() {
    let mut state = room(&["1", "2"]);
    state.apply("1", &name("Flo")).unwrap();
    state.apply("2", &points("5")).unwrap();
    assert_eq!(state.apply("2", &name("Flo")), Err(Error::DuplicateName));
    let second = state.get("2").unwrap();
    assert_eq!(second.name, None);
    assert_eq!(second.points, Some("5".to_string()));
    assert_eq!(state.get("1").unwrap().name, Some("Flo".to_string()));
    assert_eq!(state.len(), 2);
}

#[test]
fn own_name_again_is_refused() {
    let mut state = room(&["1"]);
    state.apply("1", &name("Gus")).unwrap();
    assert_eq!(state.apply("1", &name("Gus")), Err(Error::DuplicateName));
    assert_eq!(state.get("1").unwrap().name, Some("Gus".to_string()));
}

#[test]
fn takeover_moves_record_and_removes_stale_id() {
    let mut state = room(&["1", "2", "3"]);
    state.apply("1", &name("Hal")).unwrap();
    state.apply("1", &points("21")).unwrap();
    state.leave("1", true);
    state.apply("3", &name("Ida")).unwrap();
    state.apply("3", &points("1")).unwrap();
    assert_eq!(state.apply("3", &name("Hal")), Ok(()));
    assert!(!state.contains("1"));
    assert_eq!(state.len(), 2);
    let resumed = state.get("3").unwrap();
    assert_eq!(resumed.name, Some("Hal".to_string()));
    assert_eq!(resumed.points, Some("21".to_string()));
    assert!(!resumed.is_inactive);
    assert!(!resumed.kicked);
    let other = state.get("2").unwrap();
    assert_eq!(other.name, None);
    // The name that the issuer had before is free again.
    assert_eq!(state.apply("2", &name("Ida")), Ok(()));
}

#[test]
fn takeover_by_earlier_participant_keeps_the_others() {
    let mut state = room(&["1", "2", "3"]);
    state.apply("3", &name("Jo")).unwrap();
    state.apply("3", &ClientMessage::SetSpectator(true)).unwrap();
    state.leave("3", true);
    state.apply("2", &points("2")).unwrap();
    assert_eq!(state.apply("1", &name("Jo")), Ok(()));
    assert!(!state.contains("3"));
    assert!(state.get("1").unwrap().is_spectator);
    assert_eq!(state.get("1").unwrap().name, Some("Jo".to_string()));
    assert_eq!(state.get("2").unwrap().points, Some("2".to_string()));
    let mut ids = state.ids();
    ids.sort();
    assert_eq!(ids, vec!["1".to_string(), "2".to_string()]);
}

#[test]
fn takeover_of_kicked_record_brings_the_kick_along() {
    let mut state = room(&["1", "2", "3"]);
    state.apply("1", &ClientMessage::ClaimSession).unwrap();
    state.apply("2", &name("Kim")).unwrap();
    state.leave("2", true);
    state.apply("1", &ClientMessage::KickUser("2".to_string())).unwrap();
    assert_eq!(state.apply("3", &name("Kim")), Ok(()));
    assert!(state.get("3").unwrap().kicked);
    assert_eq!(state.apply("3", &ClientMessage::Whoami), Err(Error::UserKicked));
}

#[test]
fn join_into_state_is_refused_when_full() {
    let mut state = SessionState::new();
    assert_eq!(state.join("a", 1), Ok(()));
    assert_eq!(state.join("b", 1), Err(Error::MaxUsersExceeded));
    assert_eq!(state.len(), 1);
    assert!(state.contains("a"));
    assert!(!state.contains("b"));
    let user = state.get("a").unwrap();
    assert_eq!(user.name, None);
    assert_eq!(user.points, None);
    assert!(!user.is_spectator && !user.is_inactive && !user.kicked);
}

#[test]
fn joining_under_a_present_id_starts_that_participant_afresh() {
    let mut state = room(&["a"]);
    state.apply("a", &points("5")).unwrap();
    assert_eq!(state.join("a", 4), Ok(()));
    assert_eq!(state.len(), 1);
    assert_eq!(state.get("a").unwrap().points, None);
}

#[test]
fn clone_is_an_independent_snapshot() {
    let mut state = room(&["1", "2"]);
    state.apply("1", &points("5")).unwrap();
    state.apply("2", &ClientMessage::ClaimSession).unwrap();
    let snapshot = state.clone();
    state.apply("1", &points("8")).unwrap();
    state.leave("2", false);
    assert_eq!(snapshot.len(), 2);
    assert_eq!(snapshot.get("1").unwrap().points, Some("5".to_string()));
    assert_eq!(snapshot.admin(), &Some("2".to_string()));
    assert_eq!(state.len(), 1);
    assert_eq!(state.admin(), &None);
}

#[test]
fn registry_cap_is_reached_at_the_maximum() {
    assert_eq!(may_open_session(0, 8), Ok(()));
    assert_eq!(may_open_session(7, 8), Ok(()));
    assert_eq!(may_open_session(8, 8), Err(Error::MaxSessionsExceeded));
    assert_eq!(may_open_session(9, 8), Err(Error::MaxSessionsExceeded));
    assert_eq!(may_open_session(0, 0), Err(Error::MaxSessionsExceeded));
}

#[test]
fn new_participant_has_nothing_set() {
    let user = planc::UserState::default();
    assert_eq!(user.name, None);
    assert_eq!(user.points, None);
    assert!(!user.is_spectator && !user.is_inactive && !user.kicked);
    let same = planc::UserState::new();
    assert_eq!(same.name, None);
    assert_eq!(same.points, None);
    assert!(!same.is_spectator && !same.is_inactive && !same.kicked);
}

#[test]
fn participant_clone_keeps_every_field() {
    let user = planc::UserState {
        name: Some("Nat".to_string()),
        points: Some("40".to_string()),
        is_spectator: false,
        is_inactive: true,
        kicked: true,
    };
    let copy = user.clone();
    assert_eq!(copy.name, Some("Nat".to_string()));
    assert_eq!(copy.points, Some("40".to_string()));
    assert!(!copy.is_spectator && copy.is_inactive && copy.kicked);
}

#[test]
fn default_state_is_empty() {
    let state = SessionState::default();
    assert!(state.is_empty());
    assert_eq!(state.len(), 0);
    assert_eq!(state.ids(), Vec::<String>::new());
    assert_eq!(state.admin(), &None);
    assert!(state.get("1").is_none());
}
