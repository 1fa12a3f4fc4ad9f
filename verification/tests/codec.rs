use circ::clock::Timespec;
use circ::irc::{chomp, receive_at, rx_task, LineError};
use circ::irc_message::{Message, ParseError};

fn at() -> Timespec {
    Timespec { sec: 1_400_000_000, nsec: 5 }
}

fn strings(v: &[&str]) -> Vec<String> {
    v.iter().map(|s| s.to_string()).collect()
}

#[test]
fn parse_full_line() {
    let m = Message::parse_at(at(), b":nick!user@host PRIVMSG #rust :hello world").unwrap();
    assert_eq!(m.time, at());
    assert_eq!(m.prefix, Some("nick!user@host".to_string()));
    assert_eq!(m.command, "PRIVMSG");
    assert_eq!(m.parameters, strings(&["#rust"]));
    assert_eq!(m.trailing, Some("hello world".to_string()));
}

#[test]
fn parse_ping() {
    let m = Message::parse_at(at(), b"PING :server.example.com").unwrap();
    assert_eq!(m.prefix, None);
    assert_eq!(m.command, "PING");
    assert!(m.parameters.is_empty());
    assert_eq!(m.trailing, Some("server.example.com".to_string()));
}

#[test]
fn parse_without_trailing() {
    let m = Message::parse_at(at(), b":irc.example.net MODE #rust +o nick").unwrap();
    assert_eq!(m.prefix, Some("irc.example.net".to_string()));
    assert_eq!(m.command, "MODE");
    assert_eq!(m.parameters, strings(&["#rust", "+o", "nick"]));
    assert_eq!(m.trailing, None);
}

#[test]
fn parse_command_only() {
    let m = Message::parse_at(at(), b"QUIT").unwrap();
    assert_eq!(m.prefix, None);
    assert_eq!(m.command, "QUIT");
    assert!(m.parameters.is_empty());
    assert_eq!(m.trailing, None);
}

#[test]
fn parse_keeps_spaces_and_colons_of_trailing() {
    let m = Message::parse_at(at(), b"NOTICE AUTH :*** Looking  up: your hostname ").unwrap();
    assert_eq!(m.command, "NOTICE");
    assert_eq!(m.parameters, strings(&["AUTH"]));
    assert_eq!(m.trailing, Some("*** Looking  up: your hostname ".to_string()));
}

#[test]
fn parse_empty_trailing() {
    let m = Message::parse_at(at(), b"TOPIC #rust :").unwrap();
    assert_eq!(m.parameters, strings(&["#rust"]));
    assert_eq!(m.trailing, Some(String::new()));
}

#[test]
fn parse_second_marker_belongs_to_trailing() {
    let m = Message::parse_at(at(), b"PRIVMSG #a :one :two").unwrap();
    assert_eq!(m.parameters, strings(&["#a"]));
    assert_eq!(m.trailing, Some("one :two".to_string()));
}

#[test]
fn parse_double_space_gives_empty_parameter() {
    let m = Message::parse_at(at(), b"MODE  #rust").unwrap();
    assert_eq!(m.command, "MODE");
    assert_eq!(m.parameters, strings(&["", "#rust"]));
    assert_eq!(m.trailing, None);
}

#[test]
fn parse_empty_line_has_empty_command() {
    let m = Message::parse_at(at(), b"").unwrap();
    assert_eq!(m.prefix, None);
    assert_eq!(m.command, "");
    assert!(m.parameters.is_empty());
    assert_eq!(m.trailing, None);
}

#[test]
fn parse_prefix_alone_is_rejected() {
    assert_eq!(Message::parse_at(at(), b":irc.example.net"), Err(ParseError::MissingCommand));
    assert_eq!(Message::parse_at(at(), b":"), Err(ParseError::MissingCommand));
}

#[test]
fn parse_prefix_then_space_has_empty_command() {
    let m = Message::parse_at(at(), b":p ").unwrap();
    assert_eq!(m.prefix, Some("p".to_string()));
    assert_eq!(m.command, "");
}

#[test]
fn parse_rejects_invalid_utf8() {
    assert_eq!(Message::parse_at(at(), &[b'P', b'I', 0xff, b'G']), Err(ParseError::NotUtf8));
    assert_eq!(Message::parse_at(at(), &[0xc3]), Err(ParseError::NotUtf8));
}

#[test]
fn parse_decodes_utf8() {
    let m = Message::parse_at(at(), ":ni\u{e9} PRIVMSG #caf\u{e9} :gr\u{fc}\u{df}e \u{1f600}".as_bytes())
        .unwrap();
    assert_eq!(m.prefix, Some("ni\u{e9}".to_string()));
    assert_eq!(m.parameters, strings(&["#caf\u{e9}"]));
    assert_eq!(m.trailing, Some("gr\u{fc}\u{df}e \u{1f600}".to_string()));
}

#[test]
fn parse_round_trip_of_a_built_line() {
    let line = "PRIVMSG #rust :hello there, world";
    let m = Message::parse_at(at(), line.as_bytes()).unwrap();
    let mut again = m.command.clone();
    for p in &m.parameters {
        again.push(' ');
        again.push_str(p);
    }
    again.push_str(" :");
    again.push_str(m.trailing.as_ref().unwrap());
    assert_eq!(again, line);
}

#[test]
fn parse_stamps_with_the_clock() {
    let m = Message::parse(b"PING :x").unwrap();
    assert!(m.time.sec > 1_000_000_000);
    assert!(m.time.nsec >= 0 && m.time.nsec < 1_000_000_000);
    assert_eq!(m.command, "PING");
    assert_eq!(Message::parse(b":only"), Err(ParseError::MissingCommand));
}

#[test]
fn new_message_is_empty_and_stamped() {
    let m = Message::new();
    assert!(m.time.sec > 1_000_000_000);
    assert!(m.time.nsec >= 0 && m.time.nsec < 1_000_000_000);
    assert_eq!(m.prefix, None);
    assert_eq!(m.command, "");
    assert!(m.parameters.is_empty());
    assert_eq!(m.trailing, None);
}

#[test]
fn timespec_new_checks_nanoseconds() {
    assert_eq!(Timespec::new(3, 0), Some(Timespec { sec: 3, nsec: 0 }));
    assert_eq!(Timespec::new(-2, 999_999_999), Some(Timespec { sec: -2, nsec: 999_999_999 }));
    assert_eq!(Timespec::new(3, 1_000_000_000), None);
    assert_eq!(Timespec::new(3, -1), None);
}

#[test]
fn builders_give_exact_lines() {
    assert_eq!(Message::nick("bob"), "NICK bob\r\n");
    assert_eq!(Message::user("Bob Real"), "USER circ 8 * :Bob Real\r\n");
    assert_eq!(Message::join("#rust"), "JOIN #rust\r\n");
    assert_eq!(Message::part("#rust"), "PART #rust\r\n");
    assert_eq!(Message::pong("server.example.com"), "PONG :server.example.com\r\n");
    assert_eq!(Message::msg("#rust", "hello world"), "PRIVMSG #rust :hello world\r\n");
    assert_eq!(Message::quit(), "QUIT\r\n");
}

#[test]
fn built_line_parses_back() {
    let mut line = Message::msg("#rust", "hi :) there").into_bytes();
    assert_eq!(chomp(&mut line), Ok(()));
    let m = Message::parse_at(at(), &line).unwrap();
    assert_eq!(m.command, "PRIVMSG");
    assert_eq!(m.parameters, strings(&["#rust"]));
    assert_eq!(m.trailing, Some("hi :) there".to_string()));
}

#[test]
fn chomp_strips_terminator() {
    let mut b = b"PING :x\r\n".to_vec();
    assert_eq!(chomp(&mut b), Ok(()));
    assert_eq!(b, b"PING :x".to_vec());
    let mut only = b"\r\n".to_vec();
    assert_eq!(chomp(&mut only), Ok(()));
    assert!(only.is_empty());
}

#[test]
fn chomp_rejects_other_endings() {
    for raw in [&b"PING :x\n"[..], b"PING :x\r", b"PING :x\n\r", b"PING :x", b"\n", b""] {
        let mut b = raw.to_vec();
        assert_eq!(chomp(&mut b), Err(LineError::BadTerminator));
        assert_eq!(b, raw.to_vec());
    }
}

#[test]
fn reader_turns_a_raw_line_into_a_message() {
    let m = receive_at(at(), b":a!b@c NOTICE #x :hey\r\n".to_vec()).unwrap();
    assert_eq!(m.time, at());
    assert_eq!(m.prefix, Some("a!b@c".to_string()));
    assert_eq!(m.command, "NOTICE");
    assert_eq!(m.parameters, strings(&["#x"]));
    assert_eq!(m.trailing, Some("hey".to_string()));
}

#[test]
fn reader_skips_malformed_lines() {
    assert_eq!(receive_at(at(), b"PING :x\n".to_vec()), Err(LineError::BadTerminator));
    assert_eq!(
        receive_at(at(), b":lonely\r\n".to_vec()),
        Err(LineError::Parse(ParseError::MissingCommand))
    );
    assert_eq!(
        receive_at(at(), vec![0xff, b'\r', b'\n']),
        Err(LineError::Parse(ParseError::NotUtf8))
    );
}

#[test]
fn reader_stamps_with_the_clock() {
    let m = rx_task(b"PING :x\r\n".to_vec()).unwrap();
    assert!(m.time.sec > 1_000_000_000);
    assert_eq!(m.trailing, Some("x".to_string()));
    assert_eq!(rx_task(b"PING :x".to_vec()), Err(LineError::BadTerminator));
}
