//! Exercises the interface-side state: screens, composition, and the
//! conversation records.

use bane_relay::state::{ChatLog, Directory, State};
use bane_relay::SendMessage;

#[test]
fn default_main_is_a_blank_main_screen() {
    let s = State::default_main();
    match s {
        State::Main { selected_id, add_person, message } => {
            assert!(selected_id.is_none());
            assert_eq!(add_person, "");
            assert_eq!(message, "");
        },
        State::Login(_, _) => panic!("default_main landed on the login screen"),
    }
}

#[test]
fn compose_addresses_the_selected_conversation() {
    let s = State::Main {
        selected_id: Some(7),
        add_person: String::new(),
        message: String::from("hi"),
    };
    let m = s.compose_outbound();
    assert_eq!(
        m,
        Some(SendMessage::Message { message: String::from("hi"), reciever: 7 })
    );
}

#[test]
fn compose_needs_a_selected_conversation() {
    let s = State::Main {
        selected_id: None,
        add_person: String::new(),
        message: String::from("hi"),
    };
    assert_eq!(s.compose_outbound(), None);
    let login = State::Login(String::from("user"), String::from("pw"));
    assert_eq!(login.compose_outbound(), None);
}

#[test]
fn chat_log_keeps_arrival_order() {
    let mut log = ChatLog::new();
    log.record(7, String::from("hi"), true);
    log.record(9, String::from("other"), false);
    log.record(7, String::from("hello"), false);
    assert_eq!(log.len(), 3);
    let (peer, line) = log.line(0);
    assert_eq!((peer, line.message.as_str(), line.from_self), (7, "hi", true));
    let (peer, line) = log.line(1);
    assert_eq!((peer, line.message.as_str(), line.from_self), (9, "other", false));
    let (peer, line) = log.line(2);
    assert_eq!((peer, line.message.as_str(), line.from_self), (7, "hello", false));
}

#[test]
fn directory_latest_name_wins() {
    let mut chats = Directory::new();
    assert!(!chats.contains(7));
    assert_eq!(chats.get_name(7), None);
    chats.insert(7, String::from("bob"));
    chats.insert(9, String::from("eve"));
    assert_eq!(chats.get_name(7), Some(&String::from("bob")));
    chats.insert(7, String::from("bob#7"));
    assert_eq!(chats.get_name(7), Some(&String::from("bob#7")));
    assert_eq!(chats.get_name(9), Some(&String::from("eve")));
    assert!(chats.contains(9));
    assert!(!chats.contains(10));
    assert_eq!(chats.len(), 3);
    let (peer, name) = chats.entry(1);
    assert_eq!((peer, name.as_str()), (9, "eve"));
}
