use planc::{
    ClientMessage, ConnectionResult, Error, Inbound, Phase, Reaction, ServerMessage, Session,
};

fn command(session: &mut Session, issuer: &str, message: ClientMessage) -> Reaction {
    session.receive(issuer, Phase::Listening, &Inbound::Message(message))
}

fn accepted(reaction: &Reaction) -> bool {
    matches!(reaction, Reaction::Proceed { phase: Phase::Listening, reply: None })
}

fn failed_with(reaction: &Reaction, error: Error) -> bool {
    match reaction {
        Reaction::Done { outcome: Err(e), .. } => *e == error,
        _ => false,
    }
}

#[test]
fn two_participants_one_spectator_then_one_leaves() {
    let mut session = Session::new("retro", 2);
    let a = session.join().unwrap();
    assert_eq!(a, "1");
    assert!(accepted(&command(&mut session, &a, ClientMessage::SetPoints("5".to_string()))));
    let b = session.join().unwrap();
    assert_eq!(b, "2");
    assert!(accepted(&command(&mut session, &b, ClientMessage::SetSpectator(true))));

    let view = session.project(&a).unwrap();
    assert_eq!(view.len(), 2);
    let seen_b = view.get("2").unwrap();
    assert_eq!(seen_b.points, None);
    assert!(seen_b.is_spectator);
    let seen_a = view.get("1").unwrap();
    assert_eq!(seen_a.points, Some("5".to_string()));

    session.leave(&b, &Ok(ConnectionResult::Closed));
    assert_eq!(session.state().len(), 1);
    assert_eq!(session.state().ids(), vec!["1".to_string()]);
    assert!(session.state().contains("1"));
    assert!(!session.state().contains("2"));
}

#[test]
fn admin_kicks_unknown_then_real_participant() {
    let mut session = Session::new("retro", 4);
    let a = session.join().unwrap();
    let b = session.join().unwrap();
    assert!(accepted(&command(&mut session, &a, ClientMessage::ClaimSession)));
    assert_eq!(session.state().admin(), &Some("1".to_string()));

    let before = session.version();
    let reaction = command(&mut session, &a, ClientMessage::KickUser("9".to_string()));
    assert!(failed_with(&reaction, Error::UnknownUserId));
    assert_eq!(session.version(), before);
    assert_eq!(session.state().len(), 2);
    assert!(!session.state().get("1").unwrap().kicked);
    assert!(!session.state().get("2").unwrap().kicked);
    assert_eq!(session.state().admin(), &Some("1".to_string()));

    let reaction = command(&mut session, &a, ClientMessage::KickUser(b.clone()));
    assert!(accepted(&reaction));
    assert!(session.state().get("2").unwrap().kicked);
    let view = session.project(&a).unwrap();
    assert!(!view.contains("2"));
    assert!(view.contains("1"));
    assert_eq!(view.len(), 1);
}

#[test]
fn held_participant_is_taken_over_by_new_connection() {
    let mut session = Session::new("retro", 4);
    let a = session.join().unwrap();
    assert!(accepted(&command(&mut session, &a, ClientMessage::NameChange("Ada".to_string()))));
    assert!(accepted(&command(&mut session, &a, ClientMessage::SetPoints("8".to_string()))));

    let reaction = command(&mut session, &a, ClientMessage::HoldConnection);
    assert!(matches!(reaction, Reaction::Proceed { phase: Phase::Holding, reply: None }));
    let reaction = session.receive(&a, Phase::Holding, &Inbound::Closed);
    let outcome = match reaction {
        Reaction::Done { outcome, notice: None } => outcome,
        other => panic!("unexpected reaction {:?}", other),
    };
    assert_eq!(outcome, Ok(ConnectionResult::OnHold));
    session.leave(&a, &outcome);
    let held = session.state().get("1").unwrap();
    assert!(held.is_inactive);
    assert_eq!(held.points, Some("8".to_string()));
    assert_eq!(session.state().len(), 1);

    let b = session.join().unwrap();
    assert_eq!(b, "2");
    assert!(accepted(&command(&mut session, &b, ClientMessage::NameChange("Ada".to_string()))));
    assert!(!session.state().contains("1"));
    let resumed = session.state().get("2").unwrap();
    assert_eq!(resumed.name, Some("Ada".to_string()));
    assert_eq!(resumed.points, Some("8".to_string()));
    assert!(!resumed.is_spectator);
    assert!(!resumed.is_inactive);
    assert_eq!(session.state().len(), 1);
}

#[test]
fn takeover_keeps_spectator_flag() {
    let mut session = Session::new("retro", 4);
    let a = session.join().unwrap();
    assert!(accepted(&command(&mut session, &a, ClientMessage::NameChange("Bo".to_string()))));
    assert!(accepted(&command(&mut session, &a, ClientMessage::SetSpectator(true))));
    session.leave(&a, &Ok(ConnectionResult::OnHold));
    let b = session.join().unwrap();
    assert!(accepted(&command(&mut session, &b, ClientMessage::SetPoints("3".to_string()))));
    assert!(accepted(&command(&mut session, &b, ClientMessage::NameChange("Bo".to_string()))));
    let resumed = session.state().get(&b).unwrap();
    assert!(resumed.is_spectator);
    assert_eq!(resumed.points, None);
    assert_eq!(resumed.name, Some("Bo".to_string()));
    assert!(!session.state().contains(&a));
}

#[test]
fn ids_increase_and_are_never_reused() {
    let mut session = Session::new("retro", 2);
    let a = session.join().unwrap();
    let b = session.join().unwrap();
    assert_eq!((a.as_str(), b.as_str()), ("1", "2"));
    session.leave(&a, &Ok(ConnectionResult::Closed));
    session.leave(&b, &Ok(ConnectionResult::Closed));
    let c = session.join().unwrap();
    assert_eq!(c, "3");
    assert_eq!(session.next_user_id(), "4");
    let d = session.join().unwrap();
    assert_eq!(d, "4");
    // A refused join uses its number up as well.
    assert_eq!(session.join(), Err(Error::MaxUsersExceeded));
    session.leave(&c, &Ok(ConnectionResult::Closed));
    let e = session.join().unwrap();
    assert_eq!(e, "6");
}

#[test]
fn ids_count_past_single_digits() {
    let mut session = Session::new("retro", 1);
    let mut last = String::new();
    for _ in 0..12 {
        last = session.join().unwrap();
        session.leave(&last, &Ok(ConnectionResult::Closed));
    }
    assert_eq!(last, "12");
    assert_eq!(session.next_user_id(), "13");
}

#[test]
fn join_is_refused_exactly_when_full() {
    let mut session = Session::new("retro", 2);
    assert!(session.join().is_ok());
    assert!(session.join().is_ok());
    let version = session.version();
    let before = session.read();
    assert_eq!(session.join(), Err(Error::MaxUsersExceeded));
    assert_eq!(session.version(), version);
    assert_eq!(session.state().len(), 2);
    assert_eq!(session.state().ids(), before.ids());
    assert_eq!(session.state().admin(), before.admin());
    session.leave("1", &Ok(ConnectionResult::Closed));
    assert_eq!(session.join(), Ok("4".to_string()));
}

#[test]
fn session_without_room_admits_nobody() {
    let mut session = Session::new("retro", 0);
    assert_eq!(session.join(), Err(Error::MaxUsersExceeded));
    assert!(session.state().is_empty());
    assert_eq!(session.version(), 0);
}

#[test]
fn held_participant_still_counts_against_capacity() {
    let mut session = Session::new("retro", 1);
    let a = session.join().unwrap();
    session.leave(&a, &Ok(ConnectionResult::OnHold));
    assert_eq!(session.join(), Err(Error::MaxUsersExceeded));
}

#[test]
fn new_session_is_empty() {
    let session = Session::new("retro", 16);
    assert_eq!(session.session_id(), "retro");
    assert_eq!(session.max_users(), 16);
    assert_eq!(session.next_user_id(), "1");
    assert_eq!(session.version(), 0);
    assert!(session.state().is_empty());
    assert_eq!(session.state().admin(), &None);
}

#[test]
fn admin_role_is_given_up_on_departure() {
    let mut session = Session::new("retro", 4);
    let a = session.join().unwrap();
    let b = session.join().unwrap();
    assert!(accepted(&command(&mut session, &a, ClientMessage::ClaimSession)));
    session.leave(&b, &Ok(ConnectionResult::Closed));
    assert_eq!(session.state().admin(), &Some(a.clone()));
    session.leave(&a, &Ok(ConnectionResult::Closed));
    assert_eq!(session.state().admin(), &None);
    assert!(session.state().is_empty());
}

#[test]
fn admin_role_is_given_up_on_hold() {
    let mut session = Session::new("retro", 4);
    let a = session.join().unwrap();
    assert!(accepted(&command(&mut session, &a, ClientMessage::ClaimSession)));
    session.leave(&a, &Ok(ConnectionResult::OnHold));
    assert_eq!(session.state().admin(), &None);
    assert!(session.state().get(&a).unwrap().is_inactive);
}

#[test]
fn failed_connection_removes_participant() {
    let mut session = Session::new("retro", 4);
    let a = session.join().unwrap();
    session.leave(&a, &Err(Error::InvalidMessage));
    assert!(!session.state().contains(&a));
}

#[test]
fn departure_of_stranger_changes_no_participant() {
    let mut session = Session::new("retro", 4);
    let a = session.join().unwrap();
    session.leave("77", &Ok(ConnectionResult::OnHold));
    session.leave("78", &Ok(ConnectionResult::Closed));
    assert_eq!(session.state().ids(), vec![a.clone()]);
    assert!(!session.state().get(&a).unwrap().is_inactive);
}

#[test]
fn version_counts_committed_changes_only() {
    let mut session = Session::new("retro", 4);
    assert_eq!(session.version(), 0);
    let a = session.join().unwrap();
    assert_eq!(session.version(), 1);
    command(&mut session, &a, ClientMessage::Whoami);
    assert_eq!(session.version(), 1);
    command(&mut session, &a, ClientMessage::SetPoints("1".to_string()));
    assert_eq!(session.version(), 2);
    command(&mut session, &a, ClientMessage::ResetPoints);
    assert_eq!(session.version(), 2);
    command(&mut session, &a, ClientMessage::HoldConnection);
    assert_eq!(session.version(), 2);
    session.leave(&a, &Ok(ConnectionResult::OnHold));
    assert_eq!(session.version(), 3);
}

#[test]
fn kicked_participant_is_told_and_disconnected() {
    let mut session = Session::new("retro", 4);
    let a = session.join().unwrap();
    let b = session.join().unwrap();
    command(&mut session, &a, ClientMessage::ClaimSession);
    command(&mut session, &a, ClientMessage::KickUser(b.clone()));

    let sent = session.announce(&b);
    assert!(sent.last);
    match sent.message {
        ServerMessage::Error(text) => assert_eq!(text, "You have been kicked from the session"),
        other => panic!("unexpected message {:?}", other),
    }
    let reaction = command(&mut session, &b, ClientMessage::SetPoints("1".to_string()));
    match reaction {
        Reaction::Done { outcome, notice } => {
            assert_eq!(outcome, Err(Error::UserKicked));
            assert!(notice.is_none());
        },
        other => panic!("unexpected reaction {:?}", other),
    }
    assert_eq!(session.state().get(&b).unwrap().points, None);
    session.leave(&b, &Err(Error::UserKicked));
    assert!(!session.state().contains(&b));
}

#[test]
fn admin_who_kicks_itself_is_admin_no_longer() {
    let mut session = Session::new("retro", 4);
    let a = session.join().unwrap();
    let b = session.join().unwrap();
    assert!(accepted(&command(&mut session, &a, ClientMessage::ClaimSession)));
    let before = session.version();
    assert!(accepted(&command(&mut session, &a, ClientMessage::KickUser(a.clone()))));
    assert_eq!(session.version(), before + 1);
    assert_eq!(session.state().admin(), &None);
    assert!(session.state().get(&a).unwrap().kicked);
    let view = session.project(&b).unwrap();
    assert_eq!(view.admin(), &None);
    assert!(!view.contains(&a));
    // The role is free for the next to claim it.
    assert!(accepted(&command(&mut session, &b, ClientMessage::ClaimSession)));
    assert_eq!(session.state().admin(), &Some(b.clone()));
    let reaction = command(&mut session, &a, ClientMessage::ResetPoints);
    assert!(failed_with(&reaction, Error::UserKicked));
}

#[test]
fn admin_who_resumes_a_kicked_record_is_admin_no_longer() {
    let mut session = Session::new("retro", 4);
    let a = session.join().unwrap();
    let b = session.join().unwrap();
    assert!(accepted(&command(&mut session, &a, ClientMessage::ClaimSession)));
    assert!(accepted(&command(&mut session, &b, ClientMessage::NameChange("Ola".to_string()))));
    session.leave(&b, &Ok(ConnectionResult::OnHold));
    assert!(accepted(&command(&mut session, &a, ClientMessage::KickUser(b.clone()))));
    assert!(accepted(&command(&mut session, &a, ClientMessage::NameChange("Ola".to_string()))));
    assert!(!session.state().contains(&b));
    let resumed = session.state().get(&a).unwrap();
    assert!(resumed.kicked);
    assert_eq!(resumed.name, Some("Ola".to_string()));
    assert_eq!(session.state().admin(), &None);
}

#[test]
fn admin_who_resumes_a_record_in_good_standing_stays_admin() {
    let mut session = Session::new("retro", 4);
    let a = session.join().unwrap();
    let b = session.join().unwrap();
    assert!(accepted(&command(&mut session, &a, ClientMessage::ClaimSession)));
    assert!(accepted(&command(&mut session, &b, ClientMessage::NameChange("Pia".to_string()))));
    session.leave(&b, &Ok(ConnectionResult::OnHold));
    assert!(accepted(&command(&mut session, &a, ClientMessage::NameChange("Pia".to_string()))));
    assert_eq!(session.state().admin(), &Some(a.clone()));
    assert!(!session.state().get(&a).unwrap().kicked);
}

#[test]
fn admin_is_never_a_kicked_participant() {
    let mut session = Session::new("retro", 4);
    let a = session.join().unwrap();
    let b = session.join().unwrap();
    let c = session.join().unwrap();
    let steps = [
        (a.clone(), ClientMessage::ClaimSession),
        (a.clone(), ClientMessage::KickUser(c.clone())),
        (b.clone(), ClientMessage::NameChange("Quin".to_string())),
        (a.clone(), ClientMessage::KickUser(a.clone())),
        (b.clone(), ClientMessage::ClaimSession),
        (b.clone(), ClientMessage::KickUser(b.clone())),
    ];
    for (issuer, message) in steps {
        command(&mut session, &issuer, message);
        if let Some(admin) = session.state().admin() {
            let record = session.state().get(admin).unwrap();
            assert!(!record.kicked);
        }
    }
    assert_eq!(session.state().admin(), &None);
}
