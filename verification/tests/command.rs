use chat_rooms::command::{parse, Command};

#[test]
fn bare_keywords_are_commands() {
    assert_eq!(parse("/help"), Command::Help);
    assert_eq!(parse("/quit"), Command::Quit);
    assert_eq!(parse("/print"), Command::Print);
    assert_eq!(parse("/rooms"), Command::Rooms);
    assert_eq!(parse("/users"), Command::Users);
}

#[test]
fn keywords_are_case_sensitive_and_exact() {
    assert_eq!(parse("/HELP"), Command::Say);
    assert_eq!(parse("/help "), Command::Say);
    assert_eq!(parse(" /help"), Command::Say);
    assert_eq!(parse("/quit now"), Command::Say);
    assert_eq!(parse("/Join lobby"), Command::Say);
}

#[test]
fn join_takes_the_second_field() {
    assert_eq!(parse("/join lobby"), Command::Join("lobby".to_string()));
    assert_eq!(parse("/join lobby extra words"), Command::Join("lobby".to_string()));
    assert_eq!(parse("/joinx lobby"), Command::Join("lobby".to_string()));
}

#[test]
fn name_takes_the_second_field() {
    assert_eq!(parse("/name swiftFox"), Command::Name("swiftFox".to_string()));
    assert_eq!(parse("/name swiftFox Junior"), Command::Name("swiftFox".to_string()));
}

#[test]
fn a_missing_argument_is_told_apart() {
    assert_eq!(parse("/join"), Command::JoinWithoutRoom);
    assert_eq!(parse("/name"), Command::NameWithoutName);
    assert_eq!(parse("/joinlobby"), Command::JoinWithoutRoom);
}

#[test]
fn an_empty_second_field_is_an_empty_argument() {
    assert_eq!(parse("/join "), Command::Join(String::new()));
    assert_eq!(parse("/join  lobby"), Command::Join(String::new()));
    assert_eq!(parse("/name "), Command::Name(String::new()));
}

#[test]
fn everything_else_is_chat() {
    assert_eq!(parse("hello"), Command::Say);
    assert_eq!(parse(""), Command::Say);
    assert_eq!(parse("/unknown"), Command::Say);
    assert_eq!(parse("say /join lobby"), Command::Say);
    assert_eq!(parse("/joi lobby"), Command::Say);
}

#[test]
fn arguments_may_hold_any_characters_but_spaces() {
    assert_eq!(parse("/join café-日本"), Command::Join("café-日本".to_string()));
    assert_eq!(parse("/name a\tb c"), Command::Name("a\tb".to_string()));
}
