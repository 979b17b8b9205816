use speedwatch::chat::{is_valid_username, ChatEvent, ChatOutput, Room};
use speedwatch::text::{accepted, matches_pattern, trim, trim_end};

fn send(conn: u64, text: &str) -> ChatOutput {
    ChatOutput::Send { conn, text: text.to_string() }
}

fn line(room: &mut Room, conn: u64, text: &str) -> Vec<ChatOutput> {
    room.handle(ChatEvent::Line { conn, text: text.to_string() })
}

fn join(room: &mut Room, conn: u64, name: &str) {
    room.handle(ChatEvent::Joined { conn });
    line(room, conn, name);
}

#[test]
fn user_names_are_letters_and_digits() {
    assert!(is_valid_username("alice"));
    assert!(is_valid_username("Alice42"));
    assert!(is_valid_username("0"));
    assert!(is_valid_username(""));
    assert!(!is_valid_username("al ice"));
    assert!(!is_valid_username("alice!"));
    assert!(!is_valid_username("alice\n"));
    assert!(!is_valid_username(" alice"));
    assert!(!is_valid_username("älice"));
    assert!(!is_valid_username("a_b"));
}

#[test]
fn pattern_is_matched_by_the_regex_engine() {
    assert!(matches_pattern("^a+b$", "aaab"));
    assert!(!matches_pattern("^a+b$", "aaabc"));
    assert!(matches_pattern("b", "abc"));
    assert!(!matches_pattern("^$", "x"));
    // a pattern that does not compile accepts nothing
    assert!(!matches_pattern("(", "("));
    assert!(!matches_pattern("(", ""));
}

#[test]
fn only_a_match_is_accepted() {
    assert!(accepted(Some(true)));
    assert!(!accepted(Some(false)));
    assert!(!accepted(None));
}

#[test]
fn white_space_is_trimmed() {
    assert_eq!(trim("  bob \r\n"), "bob");
    assert_eq!(trim("bob"), "bob");
    assert_eq!(trim(" \t "), "");
    assert_eq!(trim("a b"), "a b");
    assert_eq!(trim_end("  bob \r\n"), "  bob");
    assert_eq!(trim_end("hi there\n"), "hi there");
    assert_eq!(trim_end(""), "");
}

#[test]
fn newcomer_is_asked_for_a_name() {
    let mut room = Room::new();
    assert_eq!(room.len(), 0);
    assert_eq!(
        room.handle(ChatEvent::Joined { conn: 1 }),
        vec![send(1, "Please enter your username...\n")]
    );
    assert_eq!(room.len(), 1);
    assert_eq!(room.name_of(1), Some(String::new()));
    assert_eq!(room.name_of(2), None);
}

#[test]
fn first_member_finds_the_room_empty() {
    let mut room = Room::new();
    room.handle(ChatEvent::Joined { conn: 1 });
    assert_eq!(line(&mut room, 1, "alice"), vec![send(1, "* The room is currently empty\n")]);
    assert_eq!(room.name_of(1), Some("alice".to_string()));
}

#[test]
fn newcomer_is_shown_the_members_and_announced_to_them() {
    let mut room = Room::new();
    join(&mut room, 1, "alice");
    room.handle(ChatEvent::Joined { conn: 2 });
    assert_eq!(
        line(&mut room, 2, "bob"),
        vec![send(2, "* The room contains: alice\n"), send(1, "* bob has entered the room\n")]
    );
    room.handle(ChatEvent::Joined { conn: 9 });
    room.handle(ChatEvent::Joined { conn: 3 });
    assert_eq!(
        line(&mut room, 3, "carol"),
        vec![
            send(3, "* The room contains: alice, bob\n"),
            send(1, "* carol has entered the room\n"),
            send(2, "* carol has entered the room\n"),
        ]
    );
}

#[test]
fn line_goes_to_every_other_named_member() {
    let mut room = Room::new();
    join(&mut room, 1, "alice");
    join(&mut room, 2, "bob");
    room.handle(ChatEvent::Joined { conn: 3 });
    join(&mut room, 4, "dave");
    assert_eq!(
        line(&mut room, 2, "hello, world"),
        vec![send(1, "[bob] hello, world\n"), send(4, "[bob] hello, world\n")]
    );
    assert_eq!(line(&mut room, 1, ""), vec![send(2, "[alice] \n"), send(4, "[alice] \n")]);
}

#[test]
fn bad_name_is_turned_away() {
    let mut room = Room::new();
    for (conn, name) in [(1u64, "al ice"), (2, "bob!"), (3, ""), (4, "   "), (5, "né")] {
        room.handle(ChatEvent::Joined { conn });
        assert_eq!(
            line(&mut room, conn, name),
            vec![send(conn, "Invalid username...\n"), ChatOutput::Shutdown { conn }]
        );
        assert_eq!(room.name_of(conn), Some(String::new()));
    }
}

#[test]
fn name_in_use_is_turned_away() {
    let mut room = Room::new();
    join(&mut room, 1, "alice");
    room.handle(ChatEvent::Joined { conn: 2 });
    assert_eq!(
        line(&mut room, 2, "alice"),
        vec![send(2, "Invalid username...\n"), ChatOutput::Shutdown { conn: 2 }]
    );
    room.handle(ChatEvent::Joined { conn: 3 });
    assert_eq!(line(&mut room, 3, "Alice").len(), 2);
    assert_eq!(room.name_of(3), Some("Alice".to_string()));
}

#[test]
fn name_is_taken_without_the_white_space_around_it() {
    let mut room = Room::new();
    join(&mut room, 1, "alice");
    room.handle(ChatEvent::Joined { conn: 2 });
    assert_eq!(
        line(&mut room, 2, "  bob \t"),
        vec![send(2, "* The room contains: alice\n"), send(1, "* bob has entered the room\n")]
    );
    assert_eq!(room.name_of(2), Some("bob".to_string()));
}

#[test]
fn leaving_is_told_to_the_named_members_that_stay() {
    let mut room = Room::new();
    join(&mut room, 1, "alice");
    join(&mut room, 2, "bob");
    room.handle(ChatEvent::Joined { conn: 3 });
    assert_eq!(
        room.handle(ChatEvent::Left { conn: 1 }),
        vec![send(2, "* alice has left the room\n")]
    );
    assert_eq!(room.name_of(1), None);
    assert_eq!(room.handle(ChatEvent::Left { conn: 3 }), vec![]);
    assert_eq!(room.handle(ChatEvent::Left { conn: 2 }), vec![]);
    assert_eq!(room.len(), 0);
}

#[test]
fn name_is_free_again_after_its_owner_left() {
    let mut room = Room::new();
    join(&mut room, 1, "alice");
    room.handle(ChatEvent::Left { conn: 1 });
    room.handle(ChatEvent::Joined { conn: 2 });
    assert_eq!(line(&mut room, 2, "alice"), vec![send(2, "* The room is currently empty\n")]);
}

#[test]
fn strangers_are_ignored() {
    let mut room = Room::new();
    join(&mut room, 1, "alice");
    assert_eq!(line(&mut room, 7, "hi"), vec![]);
    assert_eq!(room.handle(ChatEvent::Left { conn: 7 }), vec![]);
    assert_eq!(room.len(), 1);
}

#[test]
fn joining_again_starts_over() {
    let mut room = Room::new();
    join(&mut room, 1, "alice");
    join(&mut room, 2, "bob");
    assert_eq!(
        room.handle(ChatEvent::Joined { conn: 1 }),
        vec![send(1, "Please enter your username...\n")]
    );
    assert_eq!(room.len(), 2);
    assert_eq!(room.name_of(1), Some(String::new()));
    assert_eq!(
        line(&mut room, 1, "alice"),
        vec![send(1, "* The room contains: bob\n"), send(2, "* alice has entered the room\n")]
    );
}

#[test]
fn verdict_given_from_outside_decides_the_name() {
    let mut room = Room::new();
    room.apply(ChatEvent::Joined { conn: 1 }, false);
    assert_eq!(
        room.apply(ChatEvent::Line { conn: 1, text: "alice".to_string() }, false),
        vec![send(1, "Invalid username...\n"), ChatOutput::Shutdown { conn: 1 }]
    );
    assert_eq!(
        room.apply(ChatEvent::Line { conn: 1, text: "alice".to_string() }, true),
        vec![send(1, "* The room is currently empty\n")]
    );
    // the empty name is always taken: by the one who asks for it
    room.apply(ChatEvent::Joined { conn: 2 }, true);
    assert_eq!(
        room.apply(ChatEvent::Line { conn: 2, text: "".to_string() }, true),
        vec![send(2, "Invalid username...\n"), ChatOutput::Shutdown { conn: 2 }]
    );
}
