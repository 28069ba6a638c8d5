use protohackers::room::{Delivery, Event, Room};
use protohackers::session::{Session, SessionAction, SessionState};
use protohackers::text::{
    chat_line, invalid_line, joined_line, left_line, prompt_line, roster_line,
};
use protohackers::validate::validate_name;

fn texts_to(deliveries: &[Delivery], to: u64) -> Vec<String> {
    deliveries
        .iter()
        .filter(|d| d.to == to)
        .map(|d| d.text.clone())
        .collect()
}

#[test]
fn test_validator_accepts_alphanumeric_names() {
    assert!(validate_name("alice"));
    assert!(validate_name("Bob123"));
    assert!(validate_name("X"));
    assert!(validate_name("7"));
}

#[test]
fn test_validator_rejects_bad_names() {
    assert!(!validate_name(""));
    assert!(!validate_name("bad name!"));
    assert!(!validate_name("with-dash"));
    assert!(!validate_name("tab\there"));
    assert!(!validate_name("caf\u{e9}"));
}

#[test]
fn test_rendered_lines_are_exact() {
    assert_eq!(prompt_line(), "What is your name?\n");
    assert_eq!(invalid_line(), "Invalid name!\n");
    assert_eq!(joined_line("alice"), "* alice joined!\n");
    assert_eq!(left_line("bob"), "* bob left!\n");
    assert_eq!(chat_line("alice", "hello room"), "[alice] hello room\n");
    assert_eq!(roster_line(&vec![]), "* Already here: \n");
    assert_eq!(roster_line(&vec!["alice".to_string()]), "* Already here: alice\n");
    assert_eq!(
        roster_line(&vec!["alice".to_string(), "bob".to_string()]),
        "* Already here: alice, bob\n"
    );
}

#[test]
fn test_three_joins_roster_and_notices() {
    let mut room = Room::new();
    let out_a = room.apply_event(Event::Joined("alice".to_string(), 1));
    assert_eq!(out_a.len(), 1);
    assert_eq!(out_a[0].to, 1);
    assert_eq!(out_a[0].text, "* Already here: \n");

    let out_b = room.apply_event(Event::Joined("bob".to_string(), 2));
    assert_eq!(texts_to(&out_b, 1), vec!["* bob joined!\n"]);
    assert_eq!(texts_to(&out_b, 2), vec!["* Already here: alice\n"]);

    let out_c = room.apply_event(Event::Joined("charlie".to_string(), 3));
    assert_eq!(texts_to(&out_c, 1), vec!["* charlie joined!\n"]);
    assert_eq!(texts_to(&out_c, 2), vec!["* charlie joined!\n"]);
    assert_eq!(texts_to(&out_c, 3), vec!["* Already here: alice, bob\n"]);
    assert_eq!(out_c.len(), 3);
}

#[test]
fn test_chat_goes_to_everyone_but_the_sender() {
    let mut room = Room::new();
    room.apply_event(Event::Joined("alice".to_string(), 1));
    room.apply_event(Event::Joined("bob".to_string(), 2));
    room.apply_event(Event::Joined("charlie".to_string(), 3));

    let out = room.apply_event(Event::Message(
        "alice".to_string(),
        "hello room".to_string(),
    ));
    assert_eq!(out.len(), 2);
    assert_eq!(texts_to(&out, 2), vec!["[alice] hello room\n"]);
    assert_eq!(texts_to(&out, 3), vec!["[alice] hello room\n"]);
    assert!(texts_to(&out, 1).is_empty());
}

#[test]
fn test_departure_notices_and_remaining_audience() {
    let mut room = Room::new();
    room.apply_event(Event::Joined("alice".to_string(), 1));
    room.apply_event(Event::Joined("bob".to_string(), 2));
    room.apply_event(Event::Joined("charlie".to_string(), 3));

    let out = room.apply_event(Event::Left("bob".to_string()));
    assert_eq!(out.len(), 2);
    assert_eq!(texts_to(&out, 1), vec!["* bob left!\n"]);
    assert_eq!(texts_to(&out, 3), vec!["* bob left!\n"]);
    assert!(texts_to(&out, 2).is_empty());

    let after = room.apply_event(Event::Message("alice".to_string(), "hi".to_string()));
    assert_eq!(after.len(), 1);
    assert_eq!(texts_to(&after, 3), vec!["[alice] hi\n"]);
}

#[test]
fn test_message_from_stranger_is_ignored() {
    let mut room = Room::new();
    room.apply_event(Event::Joined("alice".to_string(), 1));
    let out = room.apply_event(Event::Message("ghost".to_string(), "boo".to_string()));
    assert!(out.is_empty());
}

#[test]
fn test_session_happy_path() {
    let mut s = Session::new(7);
    assert!(matches!(s.state, SessionState::AwaitingName));

    let act = s.on_line(Some("alice".to_string()));
    match act {
        SessionAction::Emit(Event::Joined(name, handle)) => {
            assert_eq!(name, "alice");
            assert_eq!(handle, 7);
        }
        _ => panic!("expected a join event"),
    }

    let act = s.on_line(Some("hello".to_string()));
    match act {
        SessionAction::Emit(Event::Message(name, text)) => {
            assert_eq!(name, "alice");
            assert_eq!(text, "hello");
        }
        _ => panic!("expected a chat event"),
    }

    let act = s.on_line(None);
    match act {
        SessionAction::Emit(Event::Left(name)) => assert_eq!(name, "alice"),
        _ => panic!("expected a departure event"),
    }
    assert!(matches!(s.state, SessionState::Closed));
}

#[test]
fn test_session_closes_silently_without_a_name() {
    let mut s = Session::new(7);
    assert!(matches!(s.on_line(None), SessionAction::Close));
    assert!(matches!(s.state, SessionState::Closed));
}

#[test]
fn test_invalid_name_never_reaches_the_room() {
    let mut s = Session::new(9);
    let act = s.on_line(Some("bad name!".to_string()));
    match act {
        SessionAction::Reject(text) => assert_eq!(text, "Invalid name!\n"),
        _ => panic!("expected a rejection"),
    }
    assert!(matches!(s.state, SessionState::Closed));

    // The registry never saw the client, so nobody is told about it.
    let mut room = Room::new();
    room.apply_event(Event::Joined("alice".to_string(), 1));
    let out = room.apply_event(Event::Joined("bob".to_string(), 2));
    for d in &out {
        assert!(!d.text.contains("bad name!"));
    }
    assert_eq!(texts_to(&out, 2), vec!["* Already here: alice\n"]);
}

// Drives one session line through its state machine and hands whatever
// event it emits to the room, returning the deliveries that caused.
fn feed(room: &mut Room, session: &mut Session, line: Option<&str>) -> Vec<Delivery> {
    match session.on_line(line.map(|l| l.to_string())) {
        SessionAction::Emit(ev) => room.apply_event(ev),
        _ => Vec::new(),
    }
}

#[test]
fn test_full_protocol_flow() {
    let mut room = Room::new();
    let mut alice = Session::new(1);
    let mut bob = Session::new(2);
    let mut charlie = Session::new(3);

    assert_eq!(
        texts_to(&feed(&mut room, &mut alice, Some("alice")), 1),
        vec!["* Already here: \n"]
    );
    feed(&mut room, &mut bob, Some("bob"));
    let out = feed(&mut room, &mut charlie, Some("charlie"));
    assert_eq!(texts_to(&out, 3), vec!["* Already here: alice, bob\n"]);

    let out = feed(&mut room, &mut alice, Some("hello room"));
    assert_eq!(texts_to(&out, 2), vec!["[alice] hello room\n"]);
    assert_eq!(texts_to(&out, 3), vec!["[alice] hello room\n"]);
    assert!(texts_to(&out, 1).is_empty());

    let out = feed(&mut room, &mut bob, None);
    assert_eq!(texts_to(&out, 1), vec!["* bob left!\n"]);
    assert_eq!(texts_to(&out, 3), vec!["* bob left!\n"]);
    assert!(texts_to(&out, 2).is_empty());

    let out = feed(&mut room, &mut alice, Some("still here?"));
    assert_eq!(out.len(), 1);
    assert_eq!(texts_to(&out, 3), vec!["[alice] still here?\n"]);
}

#[test]
fn test_membership_after_interleaving() {
    let mut room = Room::new();
    room.apply_event(Event::Joined("alice".to_string(), 1));
    room.apply_event(Event::Joined("bob".to_string(), 2));
    room.apply_event(Event::Left("alice".to_string()));
    room.apply_event(Event::Joined("charlie".to_string(), 3));
    room.apply_event(Event::Message("ghost".to_string(), "boo".to_string()));

    assert!(!room.contains_name(&"alice".to_string()));
    assert!(room.contains_name(&"bob".to_string()));
    assert!(room.contains_name(&"charlie".to_string()));
    assert!(!room.contains_name(&"ghost".to_string()));

    assert!(!room.contains_handle(1));
    assert!(room.contains_handle(2));
    assert_eq!(room.handle_of(&"charlie".to_string()), Some(3));
    assert_eq!(room.handle_of(&"alice".to_string()), None);
}

#[test]
fn test_rejoining_name_replaces_prior_holder() {
    let mut room = Room::new();
    room.apply_event(Event::Joined("alice".to_string(), 1));
    room.apply_event(Event::Joined("bob".to_string(), 2));
    // The same name joins again from a new connection: the prior holder
    // is dropped first, so the newcomer's roster never lists itself.
    let out = room.apply_event(Event::Joined("alice".to_string(), 3));
    assert_eq!(texts_to(&out, 2), vec!["* alice joined!\n"]);
    assert_eq!(texts_to(&out, 3), vec!["* Already here: bob\n"]);
    assert!(texts_to(&out, 1).is_empty());
}
