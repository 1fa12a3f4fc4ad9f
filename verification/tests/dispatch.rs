use circ::circ_comms;
use circ::circ_comms::{Request, Response};
use circ::clock::Timespec;
use circ::irc::{
    add_message, get_channels, get_messages, get_status, process_task, set_topic, tx_task,
    ChannelStore, Connection, ConnectionConfig, Event, Source,
};
use circ::irc_channel::Channel;
use circ::irc_message::Message;

fn at(sec: i64) -> Timespec {
    Timespec { sec, nsec: 0 }
}

fn line(sec: i64, text: &str) -> Event {
    Event::Protocol(at(sec), Message::parse_at(at(sec), text.as_bytes()).unwrap())
}

fn config() -> ConnectionConfig {
    ConnectionConfig {
        address: "irc.example.net".to_string(),
        port: 6667,
        nickname: "bob".to_string(),
        realname: "Bob Real".to_string(),
    }
}

/// A dispatcher whose two introductory commands are already written.
fn started() -> Connection {
    let mut c = Connection::new(config());
    assert_eq!(tx_task(&mut c), Some(b"NICK bob\r\n".to_vec()));
    assert_eq!(tx_task(&mut c), Some(b"USER circ 8 * :Bob Real\r\n".to_vec()));
    assert_eq!(tx_task(&mut c), None);
    c
}

fn names(c: &mut Connection) -> Vec<String> {
    match process_task(c, Event::Rpc(Request::ListChannels)) {
        Some(Response::Channels(n)) => n,
        other => panic!("unexpected {:?}", other),
    }
}

fn status(c: &mut Connection) -> Vec<(String, usize)> {
    match process_task(c, Event::Rpc(Request::GetStatus)) {
        Some(Response::Status(s)) => s,
        other => panic!("unexpected {:?}", other),
    }
}

#[test]
fn new_connection_introduces_the_user() {
    let mut c = Connection::new(config());
    assert!(!c.is_stopped());
    assert_eq!(c.pending(), 2);
    assert_eq!(tx_task(&mut c), Some(b"NICK bob\r\n".to_vec()));
    assert_eq!(c.pending(), 1);
    assert_eq!(tx_task(&mut c), Some(b"USER circ 8 * :Bob Real\r\n".to_vec()));
    assert_eq!(tx_task(&mut c), None);
    assert!(names(&mut c).is_empty());
}

#[test]
fn ping_is_answered_with_one_pong() {
    let mut c = started();
    assert_eq!(process_task(&mut c, line(1, "PING :server.example.com")), None);
    assert_eq!(c.pending(), 1);
    assert_eq!(tx_task(&mut c), Some(b"PONG :server.example.com\r\n".to_vec()));
    assert_eq!(tx_task(&mut c), None);
    assert!(names(&mut c).is_empty());
    assert!(status(&mut c).is_empty());
}

#[test]
fn ping_without_data_is_not_answered() {
    let mut c = started();
    assert_eq!(process_task(&mut c, line(1, "PING server")), None);
    assert_eq!(c.pending(), 0);
}

#[test]
fn error_and_unknown_commands_change_nothing() {
    let mut c = started();
    assert_eq!(process_task(&mut c, line(1, "ERROR :Closing Link")), None);
    assert_eq!(process_task(&mut c, line(2, ":srv 001 bob :Welcome")), None);
    assert_eq!(process_task(&mut c, line(3, ":a!b@c JOIN #rust")), None);
    assert_eq!(c.pending(), 0);
    assert!(names(&mut c).is_empty());
}

#[test]
fn first_message_creates_the_channel() {
    let mut c = started();
    assert_eq!(process_task(&mut c, line(1, ":a!b@c PRIVMSG #foo :hi")), None);
    assert_eq!(status(&mut c), vec![("#foo".to_string(), 1)]);
    assert_eq!(names(&mut c), vec!["#foo".to_string()]);
    assert_eq!(c.pending(), 0);
}

#[test]
fn notice_is_buffered_like_a_message() {
    let mut c = started();
    process_task(&mut c, line(1, ":srv NOTICE #foo :maintenance"));
    process_task(&mut c, line(2, ":a!b@c PRIVMSG #foo :hi"));
    assert_eq!(status(&mut c), vec![("#foo".to_string(), 2)]);
}

#[test]
fn messages_to_auth_are_dropped() {
    let mut c = started();
    process_task(&mut c, line(1, "NOTICE AUTH :*** Looking up your hostname"));
    process_task(&mut c, line(2, ":srv PRIVMSG AUTH :*** Checking ident"));
    assert!(names(&mut c).is_empty());
    assert!(status(&mut c).is_empty());
    process_task(&mut c, line(3, ":a!b@c PRIVMSG #foo :hi"));
    process_task(&mut c, line(4, "NOTICE AUTH :*** Found your hostname"));
    assert_eq!(names(&mut c), vec!["#foo".to_string()]);
    assert_eq!(
        process_task(&mut c, Event::Rpc(Request::GetMessages("AUTH".to_string()))),
        Some(Response::Error("Unknown channel AUTH".to_string()))
    );
}

#[test]
fn message_without_target_is_dropped() {
    let mut c = started();
    process_task(&mut c, line(1, "PRIVMSG :nobody"));
    process_task(&mut c, line(2, "TOPIC"));
    assert!(names(&mut c).is_empty());
}

#[test]
fn reading_drains_the_backlog() {
    let mut c = started();
    process_task(&mut c, line(10, ":a!b@c PRIVMSG #foo :one"));
    process_task(&mut c, line(11, "PRIVMSG #foo :two"));
    process_task(&mut c, line(12, ":d!e@f NOTICE #foo"));
    process_task(&mut c, line(13, ":a!b@c PRIVMSG #other :elsewhere"));
    let first = process_task(&mut c, Event::Rpc(Request::GetMessages("#foo".to_string())));
    assert_eq!(
        first,
        Some(Response::Messages(vec![
            circ_comms::Message { time: at(10), user: "a!b@c".to_string(), msg: "one".to_string() },
            circ_comms::Message {
                time: at(11),
                user: "Unknown User".to_string(),
                msg: "two".to_string()
            },
            circ_comms::Message {
                time: at(12),
                user: "d!e@f".to_string(),
                msg: "No message".to_string()
            },
        ]))
    );
    let second = process_task(&mut c, Event::Rpc(Request::GetMessages("#foo".to_string())));
    assert_eq!(second, Some(Response::Messages(vec![])));
    assert_eq!(status(&mut c), vec![("#foo".to_string(), 0), ("#other".to_string(), 1)]);
    process_task(&mut c, line(14, ":a!b@c PRIVMSG #foo :three"));
    assert_eq!(
        process_task(&mut c, Event::Rpc(Request::GetMessages("#foo".to_string()))),
        Some(Response::Messages(vec![circ_comms::Message {
            time: at(14),
            user: "a!b@c".to_string(),
            msg: "three".to_string()
        }]))
    );
}

#[test]
fn unknown_channel_is_an_error_that_names_it() {
    let mut c = started();
    process_task(&mut c, line(1, ":a!b@c PRIVMSG #foo :hi"));
    match process_task(&mut c, Event::Rpc(Request::GetMessages("#bar".to_string()))) {
        Some(Response::Error(text)) => {
            assert!(text.contains("#bar"));
            assert_eq!(text, "Unknown channel #bar");
        }
        other => panic!("unexpected {:?}", other),
    }
    assert_eq!(status(&mut c), vec![("#foo".to_string(), 1)]);
}

#[test]
fn channels_are_listed_in_order_of_first_mention() {
    let mut c = started();
    process_task(&mut c, line(1, ":a!b@c PRIVMSG #zeta :1"));
    process_task(&mut c, line(2, ":srv TOPIC #alpha :All about alpha"));
    process_task(&mut c, line(3, ":a!b@c PRIVMSG #mid :2"));
    process_task(&mut c, line(4, ":a!b@c PRIVMSG #zeta :3"));
    assert_eq!(
        names(&mut c),
        vec!["#zeta".to_string(), "#alpha".to_string(), "#mid".to_string()]
    );
    assert_eq!(
        status(&mut c),
        vec![("#zeta".to_string(), 2), ("#alpha".to_string(), 0), ("#mid".to_string(), 1)]
    );
}

#[test]
fn users_are_always_empty() {
    let mut c = started();
    process_task(&mut c, line(1, ":a!b@c PRIVMSG #foo :hi"));
    assert_eq!(
        process_task(&mut c, Event::Rpc(Request::GetUsers("#foo".to_string()))),
        Some(Response::Users(vec![]))
    );
    assert_eq!(
        process_task(&mut c, Event::Rpc(Request::GetUsers("#nowhere".to_string()))),
        Some(Response::Users(vec![]))
    );
}

#[test]
fn commands_are_written_in_the_order_of_their_requests() {
    let mut c = started();
    assert_eq!(process_task(&mut c, Event::Rpc(Request::Join("#x".to_string()))), None);
    assert_eq!(
        process_task(
            &mut c,
            Event::Rpc(Request::SendMessage("#x".to_string(), "hello all".to_string()))
        ),
        None
    );
    process_task(&mut c, line(1, "PING :tick"));
    assert_eq!(process_task(&mut c, Event::Rpc(Request::Part("#x".to_string()))), None);
    assert_eq!(c.pending(), 4);
    assert_eq!(tx_task(&mut c), Some(b"JOIN #x\r\n".to_vec()));
    assert_eq!(tx_task(&mut c), Some(b"PRIVMSG #x :hello all\r\n".to_vec()));
    assert_eq!(tx_task(&mut c), Some(b"PONG :tick\r\n".to_vec()));
    assert_eq!(tx_task(&mut c), Some(b"PART #x\r\n".to_vec()));
    assert_eq!(tx_task(&mut c), None);
    assert!(names(&mut c).is_empty());
}

#[test]
fn writer_hands_out_utf8_bytes() {
    let mut c = started();
    c.request(Request::SendMessage("#caf\u{e9}".to_string(), "\u{1f600}".to_string()));
    assert_eq!(tx_task(&mut c), Some("PRIVMSG #caf\u{e9} :\u{1f600}\r\n".as_bytes().to_vec()));
}

#[test]
fn quit_stops_the_dispatcher() {
    let mut c = started();
    process_task(&mut c, line(1, ":a!b@c PRIVMSG #foo :hi"));
    assert_eq!(process_task(&mut c, Event::Rpc(Request::Quit)), None);
    assert!(c.is_stopped());
    assert_eq!(process_task(&mut c, line(2, ":a!b@c PRIVMSG #foo :late")), None);
    assert_eq!(process_task(&mut c, line(3, "PING :late")), None);
    assert_eq!(process_task(&mut c, Event::Rpc(Request::GetStatus)), None);
    assert_eq!(process_task(&mut c, Event::Rpc(Request::Join("#late".to_string()))), None);
    assert_eq!(c.request_response(Request::ListChannels), None);
    assert_eq!(c.select(true, true), None);
    assert_eq!(tx_task(&mut c), Some(b"QUIT\r\n".to_vec()));
    assert_eq!(tx_task(&mut c), None);
}

#[test]
fn request_and_request_response() {
    let mut c = started();
    c.request(Request::Join("#x".to_string()));
    assert_eq!(c.pending(), 1);
    assert_eq!(c.request_response(Request::Part("#x".to_string())), None);
    assert_eq!(c.pending(), 2);
    assert_eq!(c.request_response(Request::ListChannels), Some(Response::Channels(vec![])));
    process_task(&mut c, line(1, ":a!b@c PRIVMSG #foo :hi"));
    c.request(Request::GetMessages("#foo".to_string()));
    assert_eq!(
        c.request_response(Request::GetStatus),
        Some(Response::Status(vec![("#foo".to_string(), 0)]))
    );
}

#[test]
fn both_inputs_are_served_in_turn() {
    let mut c = started();
    assert_eq!(c.select(false, false), None);
    assert_eq!(c.select(true, false), Some(Source::Protocol));
    assert_eq!(c.select(false, true), Some(Source::Rpc));
    let mut served = Vec::new();
    for i in 0..6 {
        let s = c.select(true, true).unwrap();
        served.push(s);
        match s {
            Source::Protocol => {
                process_task(&mut c, line(i, ":a!b@c PRIVMSG #flood :again"));
            }
            Source::Rpc => {
                process_task(&mut c, Event::Rpc(Request::GetStatus));
            }
        }
    }
    assert_eq!(
        served,
        vec![
            Source::Protocol,
            Source::Rpc,
            Source::Protocol,
            Source::Rpc,
            Source::Protocol,
            Source::Rpc
        ]
    );
    process_task(&mut c, line(9, "PING :x"));
    assert_eq!(c.select(true, true), Some(Source::Rpc));
    assert_eq!(c.select(true, false), Some(Source::Protocol));
}

#[test]
fn topic_is_set_or_defaults() {
    let mut store = ChannelStore::new();
    set_topic(&mut store, Message::parse_at(at(1), b":srv TOPIC #rust :Safe and fast").unwrap());
    set_topic(&mut store, Message::parse_at(at(2), b":srv TOPIC #bare").unwrap());
    assert_eq!(
        get_channels(&store),
        Response::Channels(vec!["#rust".to_string(), "#bare".to_string()])
    );
    assert_eq!(
        get_status(&store),
        Response::Status(vec![("#rust".to_string(), 0), ("#bare".to_string(), 0)])
    );
    set_topic(&mut store, Message::parse_at(at(3), b":srv TOPIC #rust :New topic").unwrap());
    assert_eq!(
        get_channels(&store),
        Response::Channels(vec!["#rust".to_string(), "#bare".to_string()])
    );
}

#[test]
fn store_functions_work_alone() {
    let mut store = ChannelStore::new();
    assert_eq!(get_channels(&store), Response::Channels(vec![]));
    assert_eq!(get_status(&store), Response::Status(vec![]));
    let m = Message::parse_at(at(5), b":a!b@c PRIVMSG #foo :hi").unwrap();
    add_message(&mut store, (at(5), m));
    let auth = Message::parse_at(at(6), b"NOTICE AUTH :x").unwrap();
    add_message(&mut store, (at(6), auth));
    assert_eq!(get_status(&store), Response::Status(vec![("#foo".to_string(), 1)]));
    assert_eq!(
        get_messages(&mut store, "#foo"),
        Response::Messages(vec![circ_comms::Message::new(at(5), "a!b@c", "hi")])
    );
    assert_eq!(get_messages(&mut store, "#foo"), Response::Messages(vec![]));
    assert_eq!(
        get_messages(&mut store, "#bar"),
        Response::Error("Unknown channel #bar".to_string())
    );
    assert_eq!(get_status(&store), Response::Status(vec![("#foo".to_string(), 0)]));
}

#[test]
fn entry_time_is_what_the_client_sees() {
    let mut store = ChannelStore::new();
    let m = Message::parse_at(at(5), b":a!b@c PRIVMSG #foo :hi").unwrap();
    add_message(&mut store, (at(77), m));
    assert_eq!(
        get_messages(&mut store, "#foo"),
        Response::Messages(vec![circ_comms::Message::new(at(77), "a!b@c", "hi")])
    );
}

#[test]
fn channel_operations() {
    let mut c = Channel::new("#rust");
    assert_eq!(c.name, "#rust");
    assert_eq!(c.topic, "No topic provided");
    assert!(c.users.is_empty());
    assert!(c.messages.is_empty());
    c.set_topic("Safe and fast");
    assert_eq!(c.topic, "Safe and fast");
    let m = Message::parse_at(at(1), b"PRIVMSG #rust :hi").unwrap();
    c.add((at(1), m.clone()));
    c.add((at(2), m.clone()));
    assert_eq!(c.messages, vec![(at(1), m.clone()), (at(2), m)]);
    c.clear();
    assert!(c.messages.is_empty());
    assert_eq!(c.name, "#rust");
    assert_eq!(c.topic, "Safe and fast");
}
