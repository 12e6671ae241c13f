use chat_rooms::names::Names;
use chat_rooms::notices::{HELP_MSG, JOIN_USAGE, MAIN, NAME_USAGE, WELCOME};
use chat_rooms::rooms::Rooms;
use chat_rooms::session::{Delivery, Phase, Session};

fn heard(session: &mut Session) -> Vec<String> {
    let mut seen = Vec::new();
    if let Some(subscription) = session.subscription() {
        while let Ok(message) = subscription.try_recv() {
            seen.push(message);
        }
    }
    seen
}

fn arrive(names: &mut Names, rooms: &mut Rooms, name: &str) -> Session {
    assert!(names.insert(name.to_string()));
    let (session, _greeting) = Session::enter(name.to_string(), rooms);
    session
}

fn lines(texts: &[&str]) -> Vec<String> {
    texts.iter().map(|text| text.to_string()).collect()
}

#[test]
fn enter_greets_the_client_and_tells_the_main_room() {
    let mut names = Names::new();
    let mut rooms = Rooms::new();
    let mut first = arrive(&mut names, &mut rooms, "nimbleOwl");
    heard(&mut first);
    assert!(names.insert("swiftFox".to_string()));
    let (mut session, greeting) = Session::enter("swiftFox".to_string(), &mut rooms);
    assert_eq!(greeting, lines(&[WELCOME, "You are swiftFox", HELP_MSG]));
    assert_eq!(greeting[0], "Welcome!");
    assert_eq!(session.name(), "swiftFox");
    assert_eq!(session.room(), "main");
    assert_eq!(MAIN, "main");
    assert_eq!(session.phase(), Phase::Active);
    assert!(session.is_active());
    assert!(!session.is_closed());
    assert_eq!(rooms.get_users("main"), "nimbleOwl swiftFox ");
    assert_eq!(heard(&mut first), lines(&["swiftFox joined main room"]));
    assert_eq!(heard(&mut session), lines(&["swiftFox joined main room"]));
}

#[test]
fn open_assigns_a_free_generated_name() {
    let mut names = Names::new();
    let mut rooms = Rooms::new();
    let (session, greeting) = Session::open(&mut names, &mut rooms, 1).expect("one draw suffices");
    assert!(names.contains(session.name()));
    assert_eq!(names.len(), 1);
    assert_eq!(greeting[1], format!("You are {}", session.name()));
    assert_eq!(rooms.get_users("main"), format!("{} ", session.name()));
    let (other, _) = Session::open(&mut names, &mut rooms, 64).expect("names are left");
    assert_ne!(other.name(), session.name());
    assert_eq!(names.len(), 2);
}

#[test]
fn open_without_draws_changes_nothing() {
    let mut names = Names::new();
    let mut rooms = Rooms::new();
    assert!(Session::open(&mut names, &mut rooms, 0).is_none());
    assert_eq!(names.len(), 0);
    assert_eq!(rooms.len(), 0);
}

#[test]
fn help_print_rooms_and_users_answer_the_caller_only() {
    let mut names = Names::new();
    let mut rooms = Rooms::new();
    let mut fox = arrive(&mut names, &mut rooms, "swiftFox");
    let mut owl = arrive(&mut names, &mut rooms, "nimbleOwl");
    heard(&mut fox);
    heard(&mut owl);
    assert_eq!(fox.on_line(&mut names, &mut rooms, "/help"), lines(&[HELP_MSG]));
    assert_eq!(fox.on_line(&mut names, &mut rooms, "/print"), lines(&["swiftFox nimbleOwl "]));
    assert_eq!(fox.on_line(&mut names, &mut rooms, "/rooms"), lines(&["Rooms: main(2) "]));
    assert_eq!(
        fox.on_line(&mut names, &mut rooms, "/users"),
        lines(&["Users in main: swiftFox nimbleOwl "])
    );
    assert!(heard(&mut fox).is_empty());
    assert!(heard(&mut owl).is_empty());
    assert!(fox.is_active());
}

#[test]
fn chat_goes_to_the_room_with_the_name_in_front() {
    let mut names = Names::new();
    let mut rooms = Rooms::new();
    let mut fox = arrive(&mut names, &mut rooms, "swiftFox");
    let mut owl = arrive(&mut names, &mut rooms, "nimbleOwl");
    heard(&mut fox);
    heard(&mut owl);
    assert!(fox.on_line(&mut names, &mut rooms, "hello").is_empty());
    assert!(fox.on_line(&mut names, &mut rooms, "/unknown command").is_empty());
    let expected = lines(&["swiftFox: hello", "swiftFox: /unknown command"]);
    assert_eq!(heard(&mut owl), expected);
    assert_eq!(heard(&mut fox), expected);
}

#[test]
fn join_moves_to_the_other_room_and_tells_both() {
    let mut names = Names::new();
    let mut rooms = Rooms::new();
    let mut fox = arrive(&mut names, &mut rooms, "swiftFox");
    let mut owl = arrive(&mut names, &mut rooms, "nimbleOwl");
    let mut lynx = arrive(&mut names, &mut rooms, "calmLynx");
    assert!(lynx.on_line(&mut names, &mut rooms, "/join lobby").is_empty());
    heard(&mut fox);
    heard(&mut owl);
    heard(&mut lynx);
    assert!(fox.on_line(&mut names, &mut rooms, "/join lobby").is_empty());
    assert_eq!(fox.room(), "lobby");
    assert_eq!(heard(&mut owl), lines(&["swiftFox left main room"]));
    assert_eq!(heard(&mut lynx), lines(&["swiftFox joined lobby room"]));
    assert_eq!(heard(&mut fox), lines(&["swiftFox joined lobby room"]));
    assert_eq!(rooms.get_users("main"), "nimbleOwl ");
    assert_eq!(rooms.get_users("lobby"), "calmLynx swiftFox ");
    assert_eq!(rooms.summary(), vec![("lobby".to_string(), 2), ("main".to_string(), 1)]);
}

#[test]
fn join_of_the_current_room_only_tells_the_caller() {
    let mut names = Names::new();
    let mut rooms = Rooms::new();
    let mut fox = arrive(&mut names, &mut rooms, "swiftFox");
    heard(&mut fox);
    assert_eq!(
        fox.on_line(&mut names, &mut rooms, "/join main"),
        lines(&["you are already in main"])
    );
    assert_eq!(fox.room(), "main");
    assert!(heard(&mut fox).is_empty());
    assert_eq!(rooms.to_string(), "main(1) ");
}

#[test]
fn the_last_to_move_out_takes_the_room_along() {
    let mut names = Names::new();
    let mut rooms = Rooms::new();
    let mut fox = arrive(&mut names, &mut rooms, "swiftFox");
    fox.on_line(&mut names, &mut rooms, "/join lobby");
    assert!(!rooms.contains("main"));
    assert!(rooms.contains("lobby"));
    fox.on_line(&mut names, &mut rooms, "/join den");
    assert_eq!(rooms.to_string(), "den(1) ");
}

#[test]
fn a_command_without_its_argument_is_answered_with_its_usage() {
    let mut names = Names::new();
    let mut rooms = Rooms::new();
    let mut fox = arrive(&mut names, &mut rooms, "swiftFox");
    heard(&mut fox);
    assert_eq!(fox.on_line(&mut names, &mut rooms, "/join"), lines(&[JOIN_USAGE]));
    assert_eq!(fox.on_line(&mut names, &mut rooms, "/name"), lines(&[NAME_USAGE]));
    assert_eq!(fox.name(), "swiftFox");
    assert_eq!(fox.room(), "main");
    assert!(fox.is_active());
    assert!(heard(&mut fox).is_empty());
}

#[test]
fn name_takes_a_free_name_and_frees_the_old_one() {
    let mut names = Names::new();
    let mut rooms = Rooms::new();
    let mut fox = arrive(&mut names, &mut rooms, "swiftFox");
    let mut owl = arrive(&mut names, &mut rooms, "nimbleOwl");
    heard(&mut fox);
    heard(&mut owl);
    assert_eq!(
        fox.on_line(&mut names, &mut rooms, "/name braveHare"),
        lines(&["Your name has been changed to braveHare"])
    );
    assert_eq!(fox.name(), "braveHare");
    assert_eq!(names.to_string(), "nimbleOwl braveHare ");
    assert_eq!(rooms.get_users("main"), "nimbleOwl braveHare ");
    assert!(heard(&mut owl).is_empty());
    fox.on_line(&mut names, &mut rooms, "still me");
    assert_eq!(heard(&mut owl), lines(&["braveHare: still me"]));
    assert_eq!(
        owl.on_line(&mut names, &mut rooms, "/name swiftFox"),
        lines(&["Your name has been changed to swiftFox"])
    );
}

#[test]
fn name_refuses_a_name_that_is_held() {
    let mut names = Names::new();
    let mut rooms = Rooms::new();
    let mut fox = arrive(&mut names, &mut rooms, "swiftFox");
    let _owl = arrive(&mut names, &mut rooms, "nimbleOwl");
    assert_eq!(
        fox.on_line(&mut names, &mut rooms, "/name nimbleOwl"),
        lines(&["This name nimbleOwl has been used"])
    );
    assert_eq!(
        fox.on_line(&mut names, &mut rooms, "/name swiftFox"),
        lines(&["This name swiftFox has been used"])
    );
    assert_eq!(fox.name(), "swiftFox");
    assert_eq!(names.to_string(), "swiftFox nimbleOwl ");
    assert_eq!(rooms.get_users("main"), "swiftFox nimbleOwl ");
}

#[test]
fn a_rename_keeps_the_subscription() {
    let mut names = Names::new();
    let mut rooms = Rooms::new();
    let mut fox = arrive(&mut names, &mut rooms, "swiftFox");
    let mut owl = arrive(&mut names, &mut rooms, "nimbleOwl");
    heard(&mut fox);
    owl.on_line(&mut names, &mut rooms, "before");
    fox.on_line(&mut names, &mut rooms, "/name braveHare");
    owl.on_line(&mut names, &mut rooms, "after");
    assert_eq!(heard(&mut fox), lines(&["nimbleOwl: before", "nimbleOwl: after"]));
    assert_eq!(rooms.to_string(), "main(2) ");
}

#[test]
fn quit_stops_the_session_and_close_cleans_up() {
    let mut names = Names::new();
    let mut rooms = Rooms::new();
    let mut fox = arrive(&mut names, &mut rooms, "swiftFox");
    let mut owl = arrive(&mut names, &mut rooms, "nimbleOwl");
    heard(&mut owl);
    assert!(fox.on_line(&mut names, &mut rooms, "/quit").is_empty());
    assert_eq!(fox.phase(), Phase::Closing);
    assert!(fox.on_line(&mut names, &mut rooms, "too late").is_empty());
    assert!(fox.on_line(&mut names, &mut rooms, "/name braveHare").is_empty());
    assert_eq!(fox.name(), "swiftFox");
    assert!(heard(&mut owl).is_empty());
    fox.close(&mut names, &mut rooms);
    assert_eq!(fox.phase(), Phase::Closed);
    assert!(fox.is_closed());
    assert!(fox.subscription().is_none());
    assert_eq!(heard(&mut owl), lines(&["swiftFox left main room"]));
    assert_eq!(names.to_string(), "nimbleOwl ");
    assert_eq!(rooms.get_users("main"), "nimbleOwl ");
    assert_eq!(rooms.to_string(), "main(1) ");
}

#[test]
fn close_happens_once() {
    let mut names = Names::new();
    let mut rooms = Rooms::new();
    let mut fox = arrive(&mut names, &mut rooms, "swiftFox");
    let mut owl = arrive(&mut names, &mut rooms, "nimbleOwl");
    heard(&mut owl);
    fox.close(&mut names, &mut rooms);
    // Somebody else takes the name, then the closed session is closed again.
    let mut heir = arrive(&mut names, &mut rooms, "swiftFox");
    heard(&mut owl);
    fox.close(&mut names, &mut rooms);
    assert!(names.contains("swiftFox"));
    assert_eq!(rooms.get_users("main"), "nimbleOwl swiftFox ");
    assert!(heard(&mut owl).is_empty());
    assert!(heard(&mut heir).len() == 1);
}

#[test]
fn close_without_quit_cleans_up_as_well() {
    let mut names = Names::new();
    let mut rooms = Rooms::new();
    let mut fox = arrive(&mut names, &mut rooms, "swiftFox");
    fox.on_line(&mut names, &mut rooms, "/join lobby");
    fox.close(&mut names, &mut rooms);
    assert_eq!(names.len(), 0);
    assert_eq!(rooms.len(), 0);
    assert!(fox.is_closed());
}

#[test]
fn a_broadcast_is_passed_on_as_it_is() {
    let mut names = Names::new();
    let mut rooms = Rooms::new();
    let mut fox = arrive(&mut names, &mut rooms, "swiftFox");
    assert_eq!(
        fox.on_delivery(Delivery::Message("nimbleOwl: hi /quit".to_string())),
        lines(&["nimbleOwl: hi /quit"])
    );
    assert!(fox.is_active());
}

#[test]
fn a_loss_is_reported_and_the_session_goes_on() {
    let mut names = Names::new();
    let mut rooms = Rooms::new();
    let mut fox = arrive(&mut names, &mut rooms, "swiftFox");
    assert_eq!(fox.on_delivery(Delivery::Missed(4)), lines(&["missed 4 messages"]));
    assert_eq!(fox.on_delivery(Delivery::Missed(120)), lines(&["missed 120 messages"]));
    assert!(fox.is_active());
}

#[test]
fn an_ended_channel_ends_the_session() {
    let mut names = Names::new();
    let mut rooms = Rooms::new();
    let mut fox = arrive(&mut names, &mut rooms, "swiftFox");
    assert!(fox.on_delivery(Delivery::Closed).is_empty());
    assert_eq!(fox.phase(), Phase::Closing);
    assert!(fox.on_delivery(Delivery::Message("late".to_string())).is_empty());
    fox.close(&mut names, &mut rooms);
    assert_eq!(names.len(), 0);
}

#[test]
fn messages_stay_inside_their_room() {
    let mut names = Names::new();
    let mut rooms = Rooms::new();
    let mut fox = arrive(&mut names, &mut rooms, "swiftFox");
    let mut owl = arrive(&mut names, &mut rooms, "nimbleOwl");
    let mut lynx = arrive(&mut names, &mut rooms, "calmLynx");
    lynx.on_line(&mut names, &mut rooms, "/join lobby");
    heard(&mut fox);
    heard(&mut owl);
    heard(&mut lynx);
    fox.on_line(&mut names, &mut rooms, "hello main");
    lynx.on_line(&mut names, &mut rooms, "hello lobby");
    assert_eq!(heard(&mut owl), lines(&["swiftFox: hello main"]));
    assert_eq!(heard(&mut fox), lines(&["swiftFox: hello main"]));
    assert_eq!(heard(&mut lynx), lines(&["calmLynx: hello lobby"]));
}

#[test]
fn a_whole_visit() {
    let mut names = Names::new();
    let mut rooms = Rooms::new();
    let mut owl = arrive(&mut names, &mut rooms, "nimbleOwl");
    let mut lynx = arrive(&mut names, &mut rooms, "calmLynx");
    owl.on_line(&mut names, &mut rooms, "/join lobby");
    heard(&mut owl);
    heard(&mut lynx);

    assert!(names.insert("swiftFox".to_string()));
    let (mut fox, greeting) = Session::enter("swiftFox".to_string(), &mut rooms);
    assert_eq!(greeting[1], "You are swiftFox");
    assert_eq!(heard(&mut lynx), lines(&["swiftFox joined main room"]));

    assert!(fox.on_line(&mut names, &mut rooms, "/join lobby").is_empty());
    assert_eq!(heard(&mut lynx), lines(&["swiftFox left main room"]));
    assert_eq!(heard(&mut owl), lines(&["swiftFox joined lobby room"]));

    assert!(fox.on_line(&mut names, &mut rooms, "hello").is_empty());
    assert_eq!(heard(&mut owl), lines(&["swiftFox: hello"]));
    assert!(heard(&mut lynx).is_empty());

    assert_eq!(
        fox.on_line(&mut names, &mut rooms, "/name swiftFox"),
        lines(&["This name swiftFox has been used"])
    );
    assert_eq!(
        fox.on_line(&mut names, &mut rooms, "/name nimbleOwl"),
        lines(&["This name nimbleOwl has been used"])
    );
    fox.on_line(&mut names, &mut rooms, "still here");
    assert_eq!(heard(&mut owl), lines(&["swiftFox: still here"]));

    assert!(fox.on_line(&mut names, &mut rooms, "/quit").is_empty());
    assert!(!fox.is_active());
    fox.close(&mut names, &mut rooms);
    assert_eq!(heard(&mut owl), lines(&["swiftFox left lobby room"]));
    assert_eq!(rooms.get_users("lobby"), "nimbleOwl ");
    assert!(!names.contains("swiftFox"));
    assert!(names.insert("swiftFox".to_string()));
}
