use server_tan::command::{classify_command, command_argument, has_prefix, Command};
use server_tan::xml::{parse_message, UniversMessage, XmlEvent};

fn s(x: &str) -> String {
    x.to_string()
}

#[test]
fn commands_are_classified_by_prefix() {
    assert_eq!(classify_command("help"), Command::Help);
    assert_eq!(classify_command("help me"), Command::Echo);
    assert_eq!(classify_command("show channel"), Command::ShowChannel);
    assert_eq!(classify_command("show subscribe"), Command::ShowSubscribe);
    assert_eq!(classify_command("del channel abc"), Command::DelChannel);
    assert_eq!(classify_command("create channel News"), Command::CreateChannel);
    assert_eq!(classify_command("subscribe abc"), Command::Subscribe);
    assert_eq!(classify_command("unsubscribe abc"), Command::Unsubscribe);
    assert_eq!(classify_command("hello"), Command::Echo);
    assert_eq!(classify_command(""), Command::Echo);
    assert!(has_prefix("abc", ""));
    assert!(!has_prefix("ab", "abc"));
}

#[test]
fn command_arguments_follow_the_spaces() {
    assert_eq!(command_argument("create channel My News", 2), Some(s("My News")));
    assert_eq!(command_argument("create channel", 2), None);
    assert_eq!(command_argument("create channel ", 2), Some(s("")));
    assert_eq!(command_argument("subscribe 频道", 1), Some(s("频道")));
    assert_eq!(command_argument("subscribe", 1), None);
    assert_eq!(command_argument("a  b", 2), Some(s("b")));
    assert_eq!(command_argument("x", 0), Some(s("x")));
}

#[test]
fn message_fields_come_from_cdata() {
    let evs = vec![
        XmlEvent::Start(s("xml")),
        XmlEvent::Start(s("ToUserName")),
        XmlEvent::CData(s("server")),
        XmlEvent::Other,
        XmlEvent::Start(s("FromUserName")),
        XmlEvent::CData(s("alice")),
        XmlEvent::Start(s("CreateTime")),
        XmlEvent::Other,
        XmlEvent::Start(s("MsgType")),
        XmlEvent::CData(s("text")),
        XmlEvent::Start(s("Content")),
        XmlEvent::CData(s("subscribe abc")),
        XmlEvent::Start(s("Unknown")),
        XmlEvent::CData(s("ignored")),
        XmlEvent::Eof,
        XmlEvent::Start(s("Event")),
        XmlEvent::CData(s("after the end")),
    ];
    let m = parse_message(&evs).unwrap();
    assert_eq!(m.to, Some(s("server")));
    assert_eq!(m.from, Some(s("alice")));
    assert_eq!(m.msg_type, Some(s("text")));
    assert_eq!(m.content, Some(s("subscribe abc")));
    assert_eq!(m.event, None);
    assert_eq!(m.event_key, None);
}

#[test]
fn event_messages_and_failures() {
    let evs = vec![
        XmlEvent::Start(s("Event")),
        XmlEvent::CData(s("subscribe")),
        XmlEvent::Start(s("EventKey")),
        XmlEvent::CData(s("k")),
        XmlEvent::Eof,
    ];
    let m = parse_message(&evs).unwrap();
    assert_eq!(m.event, Some(s("subscribe")));
    assert_eq!(m.event_key, Some(s("k")));
    assert!(parse_message(&vec![XmlEvent::Start(s("xml")), XmlEvent::Failed]).is_none());
    let empty = UniversMessage::new();
    assert!(empty.from.is_none() && empty.to.is_none() && empty.content.is_none());
    let mut m2 = UniversMessage::new();
    m2.apply_cdata("MsgType", s("event"));
    assert_eq!(m2.msg_type, Some(s("event")));
}
