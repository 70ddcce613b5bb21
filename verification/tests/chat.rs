use protohackers::chatroom::{Chatroom, NameConflict};
use protohackers::session::{HandshakeError, Session};
use protohackers::username::{welcome, InvalidUsername, Username};
use protohackers::wire::{
    format_chat, format_entered, format_left, format_roster, ALREADY_TAKEN, WELCOME,
};

fn name(text: &str) -> Username {
    match welcome(text) {
        Ok(username) => username,
        Err(e) => panic!("{:?} is no username: {:?}", text, e),
    }
}

fn awaiting() -> Session {
    let mut session = Session::new();
    session.accept();
    session
}

/// Joins `candidate` with `sink` and returns the message to the others, its
/// recipients and the roster for the newcomer.
fn enter(
    room: &mut Chatroom<&'static str>,
    candidate: &str,
    sink: &'static str,
) -> (Session, String, Vec<&'static str>, String) {
    let mut session = awaiting();
    let (message, recipients, roster) = match session.join(room, candidate, sink) {
        Ok(admission) => (
            admission.announcement.message,
            admission.announcement.recipients.into_iter().copied().collect::<Vec<_>>(),
            admission.roster,
        ),
        Err(e) => panic!("{:?} was turned down: {:?}", candidate, e),
    };
    (session, message, recipients, roster)
}

#[test]
fn welcome_accepts_letters_and_digits() {
    assert_eq!(name("alice").as_str(), "alice");
    assert_eq!(name("Bob42").as_str(), "Bob42");
    assert_eq!(name("7").as_str(), "7");
}

#[test]
fn welcome_trims_the_line_ending() {
    assert_eq!(name("alice\n").as_str(), "alice");
    assert_eq!(name("alice\r\n").as_str(), "alice");
    assert_eq!(name("  \talice \n").as_str(), "alice");
    assert_eq!(name("\u{2003}alice\u{a0}\u{3000}").as_str(), "alice");
}

#[test]
fn welcome_accepts_every_length_from_1_to_64() {
    for len in 1..=64usize {
        let candidate = "a".repeat(len);
        assert_eq!(name(&candidate).as_str(), candidate);
    }
}

#[test]
fn welcome_rejects_the_empty_name() {
    assert_eq!(welcome("").err(), Some(InvalidUsername::TooShortOrLong));
    assert_eq!(welcome("\n").err(), Some(InvalidUsername::TooShortOrLong));
    assert_eq!(welcome("   \r\n").err(), Some(InvalidUsername::TooShortOrLong));
}

#[test]
fn welcome_rejects_65_characters_and_more() {
    assert_eq!(welcome(&"a".repeat(65)).err(), Some(InvalidUsername::TooShortOrLong));
    assert_eq!(welcome(&"a".repeat(1000)).err(), Some(InvalidUsername::TooShortOrLong));
    assert_eq!(welcome(&"!".repeat(65)).err(), Some(InvalidUsername::TooShortOrLong));
}

#[test]
fn welcome_measures_length_in_bytes() {
    // 33 two-byte characters are 66 bytes: the length is at fault, not the characters.
    assert_eq!(welcome(&"\u{e9}".repeat(33)).err(), Some(InvalidUsername::TooShortOrLong));
    // 32 of them are 64 bytes: now it is the characters.
    assert_eq!(welcome(&"\u{e9}".repeat(32)).err(), Some(InvalidUsername::InvalidSequence));
}

#[test]
fn welcome_rejects_other_characters() {
    assert_eq!(welcome("a!b").err(), Some(InvalidUsername::InvalidSequence));
    assert_eq!(welcome("a b").err(), Some(InvalidUsername::InvalidSequence));
    assert_eq!(welcome("al_ice").err(), Some(InvalidUsername::InvalidSequence));
    assert_eq!(welcome("\u{e9}").err(), Some(InvalidUsername::InvalidSequence));
}

#[test]
fn rejections_carry_their_lines() {
    assert_eq!(
        InvalidUsername::TooShortOrLong.message(),
        "username too short or too long, bye.\n"
    );
    assert_eq!(
        InvalidUsername::InvalidSequence.message(),
        "username contains invalid sequence, bye.\n"
    );
    assert_eq!(
        HandshakeError::InvalidUsername(InvalidUsername::TooShortOrLong).message(),
        "username too short or too long, bye.\n"
    );
    assert_eq!(
        HandshakeError::InvalidUsername(InvalidUsername::InvalidSequence).message(),
        "username contains invalid sequence, bye.\n"
    );
    assert_eq!(HandshakeError::NameConflict.message(), "username is already taken\n");
    assert_eq!(ALREADY_TAKEN, "username is already taken\n");
}

#[test]
fn usernames_compare_by_text() {
    assert!(name("alice").same(&name("alice\n")));
    assert!(!name("alice").same(&name("Alice")));
    assert!(name("alice").clone().same(&name("alice")));
}

#[test]
fn wire_texts_are_exact() {
    assert_eq!(WELCOME, "Welcome to budgetchat! What shall I call you? \n");
    assert_eq!(format_entered("bob"), "* bob has entered the room\n");
    assert_eq!(format_left("bob"), "* bob has left the room\n");
    assert_eq!(format_chat("bob", "hi\n"), "[bob] hi\n");
    assert_eq!(format_chat("bob", ""), "[bob] ");
}

#[test]
fn roster_is_comma_and_space_joined() {
    assert_eq!(format_roster(&vec![]), "* The room contains: \n");
    assert_eq!(format_roster(&vec![name("alice")]), "* The room contains: alice\n");
    assert_eq!(
        format_roster(&vec![name("alice"), name("bob"), name("carol")]),
        "* The room contains: alice, bob, carol\n"
    );
}

#[test]
fn a_new_room_is_empty() {
    let room: Chatroom<u8> = Chatroom::new();
    assert!(room.existing().is_empty());
    assert!(!room.has_user(&name("alice")));
    assert!(room.broadcast(String::from("x"), None).recipients.is_empty());
}

#[test]
fn add_user_registers_a_name_once() {
    let mut room: Chatroom<u8> = Chatroom::new();
    assert_eq!(room.add_user(name("alice"), 1), Ok(()));
    assert!(room.has_user(&name("alice")));
    assert_eq!(room.add_user(name("alice"), 2), Err(NameConflict));
    assert_eq!(room.add_user(name("bob"), 3), Ok(()));
    let roster: Vec<String> = room.existing().iter().map(|u| u.as_str().to_string()).collect();
    assert_eq!(roster, vec!["alice", "bob"]);
    // The sink registered first is the one that stayed.
    assert_eq!(room.broadcast(String::new(), None).recipients, vec![&1, &3]);
}

#[test]
fn remove_user_takes_out_one_name() {
    let mut room: Chatroom<u8> = Chatroom::new();
    room.add_user(name("alice"), 1).unwrap();
    room.add_user(name("bob"), 2).unwrap();
    room.add_user(name("carol"), 3).unwrap();
    room.remove_user(&name("bob"));
    assert!(!room.has_user(&name("bob")));
    assert_eq!(room.broadcast(String::new(), None).recipients, vec![&1, &3]);
    // Removing a stranger changes nothing.
    room.remove_user(&name("dave"));
    assert_eq!(room.broadcast(String::new(), None).recipients, vec![&1, &3]);
    // A name that left can be taken again.
    assert_eq!(room.add_user(name("bob"), 4), Ok(()));
    assert_eq!(room.broadcast(String::new(), None).recipients, vec![&1, &3, &4]);
}

#[test]
fn broadcast_skips_the_excluded_name() {
    let mut room: Chatroom<u8> = Chatroom::new();
    room.add_user(name("alice"), 1).unwrap();
    room.add_user(name("bob"), 2).unwrap();
    room.add_user(name("carol"), 3).unwrap();
    let bob = name("bob");
    let out = room.broadcast(String::from("hello\n"), Some(&bob));
    assert_eq!(out.message, "hello\n");
    assert_eq!(out.recipients, vec![&1, &3]);
    let dave = name("dave");
    assert_eq!(room.broadcast(String::new(), Some(&dave)).recipients, vec![&1, &2, &3]);
}

#[test]
fn announce_reaches_everybody() {
    let mut room: Chatroom<u8> = Chatroom::new();
    room.add_user(name("alice"), 1).unwrap();
    room.add_user(name("bob"), 2).unwrap();
    let out = room.announce(&name("carol"));
    assert_eq!(out.message, "* carol has entered the room\n");
    assert_eq!(out.recipients, vec![&1, &2]);
}

#[test]
fn a_session_starts_by_prompting() {
    let mut session = Session::new();
    assert!(matches!(session, Session::Connecting));
    assert_eq!(session.accept(), "Welcome to budgetchat! What shall I call you? \n");
    assert!(matches!(session, Session::AwaitingUsername));
}

#[test]
fn handshake_with_empty_name_fails_and_leaves_the_room_alone() {
    let mut room: Chatroom<&'static str> = Chatroom::new();
    let (_alice, _, _, _) = enter(&mut room, "alice\n", "A");
    let mut session = awaiting();
    let error = session.join(&mut room, "\n", "B").err();
    assert_eq!(error, Some(HandshakeError::InvalidUsername(InvalidUsername::TooShortOrLong)));
    assert_eq!(error.unwrap().message(), "username too short or too long, bye.\n");
    assert!(matches!(session, Session::Disconnected));
    assert_eq!(room.broadcast(String::new(), None).recipients, vec![&"A"]);
}

#[test]
fn handshake_with_long_name_fails_and_leaves_the_room_alone() {
    let mut room: Chatroom<&'static str> = Chatroom::new();
    let mut session = awaiting();
    let candidate = format!("{}\n", "x".repeat(65));
    let error = session.join(&mut room, &candidate, "A").err();
    assert_eq!(error, Some(HandshakeError::InvalidUsername(InvalidUsername::TooShortOrLong)));
    assert!(matches!(session, Session::Disconnected));
    assert!(room.existing().is_empty());
}

#[test]
fn handshake_with_invalid_characters_fails() {
    let mut room: Chatroom<&'static str> = Chatroom::new();
    let mut session = awaiting();
    let error = session.join(&mut room, "a!b\n", "A").err();
    assert_eq!(error, Some(HandshakeError::InvalidUsername(InvalidUsername::InvalidSequence)));
    assert_eq!(error.unwrap().message(), "username contains invalid sequence, bye.\n");
    assert!(matches!(session, Session::Disconnected));
    assert!(room.existing().is_empty());
}

#[test]
fn handshake_with_a_taken_name_fails() {
    let mut room: Chatroom<&'static str> = Chatroom::new();
    let (_alice, _, _, _) = enter(&mut room, "alice\n", "A");
    let mut second = awaiting();
    let error = second.join(&mut room, "alice\n", "B").err();
    assert_eq!(error, Some(HandshakeError::NameConflict));
    assert_eq!(error.unwrap().message(), "username is already taken\n");
    assert!(matches!(second, Session::Disconnected));
    // The first alice is still the one in the room.
    assert_eq!(room.broadcast(String::new(), None).recipients, vec![&"A"]);
}

#[test]
fn handshake_admits_every_valid_length() {
    for len in [1usize, 2, 63, 64] {
        let mut room: Chatroom<&'static str> = Chatroom::new();
        let candidate = format!("{}\n", "Z9".repeat(32)[..len].to_string());
        let (session, _, _, _) = enter(&mut room, &candidate, "A");
        match session {
            Session::Active { username } => assert_eq!(username.as_str(), candidate.trim()),
            _ => panic!("not active"),
        }
    }
}

#[test]
fn roster_lists_those_who_were_there() {
    let mut room: Chatroom<&'static str> = Chatroom::new();
    let (_a, _, _, roster) = enter(&mut room, "alice\n", "A");
    assert_eq!(roster, "* The room contains: \n");
    let (_b, _, _, roster) = enter(&mut room, "bob\n", "B");
    assert_eq!(roster, "* The room contains: alice\n");
    let (_c, message, recipients, roster) = enter(&mut room, "carol\n", "C");
    assert_eq!(roster, "* The room contains: alice, bob\n");
    assert_eq!(message, "* carol has entered the room\n");
    assert_eq!(recipients, vec!["A", "B"]);
}

#[test]
fn a_line_is_not_echoed_to_its_sender() {
    let mut room: Chatroom<&'static str> = Chatroom::new();
    let (alice, _, _, _) = enter(&mut room, "alice\n", "A");
    let (bob, _, _, _) = enter(&mut room, "bob\n", "B");
    let (carol, _, _, _) = enter(&mut room, "carol\n", "C");
    let out = alice.say(&room, "one\n");
    assert_eq!(out.message, "[alice] one\n");
    assert_eq!(out.recipients, vec![&"B", &"C"]);
    let out = bob.say(&room, "two\n");
    assert_eq!(out.message, "[bob] two\n");
    assert_eq!(out.recipients, vec![&"A", &"C"]);
    let out = carol.say(&room, "three\n");
    assert_eq!(out.recipients, vec![&"A", &"B"]);
}

#[test]
fn leaving_is_told_once_to_each_who_remains() {
    let mut room: Chatroom<&'static str> = Chatroom::new();
    let (_alice, _, _, _) = enter(&mut room, "alice\n", "A");
    let (mut bob, _, _, _) = enter(&mut room, "bob\n", "B");
    let (_carol, _, _, _) = enter(&mut room, "carol\n", "C");
    {
        let out = bob.leave(&mut room);
        assert_eq!(out.message, "* bob has left the room\n");
        assert_eq!(out.recipients, vec![&"A", &"C"]);
    }
    assert!(matches!(bob, Session::Disconnected));
    assert!(!room.has_user(&name("bob")));
    assert!(room.has_user(&name("alice")));
    assert!(room.has_user(&name("carol")));
}

#[test]
fn scenario_alice_and_bob() {
    let mut room: Chatroom<&'static str> = Chatroom::new();

    let mut a = Session::new();
    assert_eq!(a.accept(), "Welcome to budgetchat! What shall I call you? \n");
    match a.join(&mut room, "alice\n", "A") {
        Ok(admission) => {
            assert!(admission.announcement.recipients.is_empty());
            assert_eq!(admission.roster, "* The room contains: \n");
        }
        Err(e) => panic!("alice was turned down: {:?}", e),
    }
    assert!(matches!(a, Session::Active { .. }));

    let mut b = Session::new();
    assert_eq!(b.accept(), "Welcome to budgetchat! What shall I call you? \n");
    match b.join(&mut room, "bob\n", "B") {
        Ok(admission) => {
            assert_eq!(admission.announcement.message, "* bob has entered the room\n");
            assert_eq!(admission.announcement.recipients, vec![&"A"]);
            assert_eq!(admission.roster, "* The room contains: alice\n");
        }
        Err(e) => panic!("bob was turned down: {:?}", e),
    }

    {
        let said = b.say(&room, "hi\n");
        assert_eq!(said.message, "[bob] hi\n");
        assert_eq!(said.recipients, vec![&"A"]);
    }

    {
        let left = b.leave(&mut room);
        assert_eq!(left.message, "* bob has left the room\n");
        assert_eq!(left.recipients, vec![&"A"]);
    }
    assert!(matches!(b, Session::Disconnected));
    let roster: Vec<String> = room.existing().iter().map(|u| u.as_str().to_string()).collect();
    assert_eq!(roster, vec!["alice"]);
}

#[test]
fn of_two_joiners_with_one_name_one_is_turned_down() {
    let mut room: Chatroom<&'static str> = Chatroom::new();
    let mut first = awaiting();
    let mut second = awaiting();
    assert!(first.join(&mut room, "sam\n", "A").is_ok());
    assert_eq!(second.join(&mut room, " sam\r\n", "B").err(), Some(HandshakeError::NameConflict));
    assert!(matches!(first, Session::Active { .. }));
    assert!(matches!(second, Session::Disconnected));
    assert_eq!(room.broadcast(String::new(), None).recipients, vec![&"A"]);
}

#[test]
fn a_session_knows_its_name_while_it_is_active() {
    let mut room: Chatroom<&'static str> = Chatroom::new();
    let mut session = Session::new();
    assert!(session.username().is_none());
    session.accept();
    assert!(session.username().is_none());
    assert!(session.join(&mut room, "alice\n", "A").is_ok());
    assert_eq!(session.username().map(|u| u.as_str()), Some("alice"));
    {
        let _ = session.leave(&mut room);
    }
    assert!(session.username().is_none());
    assert!(room.existing().is_empty());
}

#[test]
fn a_rejected_session_has_no_name() {
    let mut room: Chatroom<&'static str> = Chatroom::new();
    let mut session = Session::new();
    session.accept();
    assert!(session.join(&mut room, "not a name\n", "A").is_err());
    assert!(session.username().is_none());
    assert!(matches!(session, Session::Disconnected));
}
