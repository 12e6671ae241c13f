use chat_rooms::notices::{
    make_already_in, make_chat_line, make_joined_notice, make_left_notice, make_missed_notice,
    make_name_changed, make_name_taken, make_rooms_line, make_users_line, make_you_are, HELP_MSG,
};

#[test]
fn notices_to_a_room() {
    assert_eq!(make_joined_notice("swiftFox", "lobby"), "swiftFox joined lobby room");
    assert_eq!(make_left_notice("swiftFox", "lobby"), "swiftFox left lobby room");
    assert_eq!(make_chat_line("swiftFox", "hello"), "swiftFox: hello");
    assert_eq!(make_chat_line("swiftFox", ""), "swiftFox: ");
}

#[test]
fn replies_to_a_client() {
    assert_eq!(make_you_are("swiftFox"), "You are swiftFox");
    assert_eq!(make_rooms_line("B(5) A(2) "), "Rooms: B(5) A(2) ");
    assert_eq!(
        make_users_line("main", "swiftFox nimbleOwl "),
        "Users in main: swiftFox nimbleOwl "
    );
    assert_eq!(make_already_in("main"), "you are already in main");
    assert_eq!(make_name_changed("braveHare"), "Your name has been changed to braveHare");
    assert_eq!(make_name_taken("nimbleOwl"), "This name nimbleOwl has been used");
    assert_eq!(make_missed_notice(0), "missed 0 messages");
    assert_eq!(make_missed_notice(37), "missed 37 messages");
}

#[test]
fn the_help_text_names_every_command() {
    for keyword in ["/help", "/quit", "/print", "/rooms", "/users", "/join", "/name"] {
        assert!(HELP_MSG.contains(keyword), "{keyword}");
    }
    assert_eq!(HELP_MSG.lines().count(), 8);
    assert_eq!(HELP_MSG.lines().next(), Some("/help - show this help"));
}
