use circ::circ_comms::{Message, Request};
use circ::client::{
    decimal_string, is_highlighted, print_msgs, process_args, select, show, show_with, single,
    status_line, ArgError, Body, Line,
};
use circ::clock::Timespec;

fn args(v: &[&str]) -> Vec<String> {
    v.iter().map(|s| s.to_string()).collect()
}

fn message(user: &str, msg: &str) -> Message {
    Message::new(Timespec { sec: 100, nsec: 1 }, user, msg)
}

#[test]
fn one_action_per_invocation() {
    assert_eq!(process_args(&args(&["-l"])), Ok((Request::ListChannels, true, vec![])));
    assert_eq!(process_args(&args(&["--list-channels"])), Ok((Request::ListChannels, true, vec![])));
    assert_eq!(process_args(&args(&["-s"])), Ok((Request::GetStatus, true, vec![])));
    assert_eq!(process_args(&args(&["-q"])), Ok((Request::Quit, false, vec![])));
    assert_eq!(process_args(&args(&[])), Err(ArgError::NotOneAction));
    assert_eq!(process_args(&args(&["-l", "-s"])), Err(ArgError::NotOneAction));
    assert_eq!(process_args(&args(&["-ljq"])), Err(ArgError::NotOneAction));
    assert_eq!(process_args(&args(&["-c", "#rust"])), Err(ArgError::NotOneAction));
}

#[test]
fn actions_on_a_channel() {
    assert_eq!(
        process_args(&args(&["-j", "-c", "#rust"])),
        Ok((Request::Join("#rust".to_string()), false, vec![]))
    );
    assert_eq!(
        process_args(&args(&["--part", "--channel=#rust"])),
        Ok((Request::Part("#rust".to_string()), false, vec![]))
    );
    assert_eq!(
        process_args(&args(&["-u", "-c#rust"])),
        Ok((Request::GetMessages("#rust".to_string()), true, vec![]))
    );
    assert_eq!(
        process_args(&args(&["-w", "-c", "#rust"])),
        Ok((Request::GetUsers("#rust".to_string()), true, vec![]))
    );
    assert_eq!(process_args(&args(&["-j"])), Err(ArgError::MissingChannel));
    assert_eq!(process_args(&args(&["-u"])), Err(ArgError::MissingChannel));
    assert_eq!(process_args(&args(&["-m", "hello"])), Err(ArgError::MissingChannel));
}

#[test]
fn message_text_is_the_free_arguments() {
    assert_eq!(
        process_args(&args(&["-m", "-c", "#rust", "hello", "big", "world"])),
        Ok((Request::SendMessage("#rust".to_string(), "hello big world".to_string()), false, vec![]))
    );
    assert_eq!(
        process_args(&args(&["hello", "-m", "-c", "#rust", "--", "-x"])),
        Ok((Request::SendMessage("#rust".to_string(), "hello -x".to_string()), false, vec![]))
    );
    assert_eq!(process_args(&args(&["-m", "-c", "#rust"])), Err(ArgError::MissingText));
}

#[test]
fn highlight_words_are_split_at_commas() {
    assert_eq!(
        process_args(&args(&["-u", "-c", "#rust", "-h", "bob,alice"])),
        Ok((
            Request::GetMessages("#rust".to_string()),
            true,
            vec!["bob".to_string(), "alice".to_string()]
        ))
    );
    assert_eq!(
        process_args(&args(&["-l", "--highlight", "one"])),
        Ok((Request::ListChannels, true, vec!["one".to_string()]))
    );
    assert_eq!(
        process_args(&args(&["-l", "--highlight=a,,b,"])),
        Ok((
            Request::ListChannels,
            true,
            vec!["a".to_string(), String::new(), "b".to_string(), String::new()]
        ))
    );
}

#[test]
fn arguments_that_fit_no_option() {
    assert_eq!(process_args(&args(&["-z"])), Err(ArgError::Invalid));
    assert_eq!(process_args(&args(&["--nothing"])), Err(ArgError::Invalid));
    assert_eq!(process_args(&args(&["-l", "-c"])), Err(ArgError::Invalid));
    assert_eq!(process_args(&args(&["-l", "-l"])), Err(ArgError::Invalid));
    assert_eq!(process_args(&args(&["--join=now"])), Err(ArgError::Invalid));
}

#[test]
fn select_from_parsed_values() {
    let mut flags = vec![false; 8];
    flags[2] = true;
    assert_eq!(
        select(&flags, Some("#a".to_string()), Some("x,y".to_string()), &args(&["hi", "there"])),
        Ok((
            Request::SendMessage("#a".to_string(), "hi there".to_string()),
            false,
            vec!["x".to_string(), "y".to_string()]
        ))
    );
    assert_eq!(select(&flags, None, None, &args(&["hi"])), Err(ArgError::MissingChannel));
    assert_eq!(select(&flags, Some("#a".to_string()), None, &args(&[])), Err(ArgError::MissingText));
    flags[7] = true;
    assert_eq!(select(&flags, Some("#a".to_string()), None, &args(&[])), Err(ArgError::NotOneAction));
    assert_eq!(select(&vec![], None, None, &args(&[])), Err(ArgError::NotOneAction));
    let mut nine = vec![false; 9];
    nine[8] = true;
    assert_eq!(select(&nine, None, None, &args(&[])), Err(ArgError::NotOneAction));
}

#[test]
fn single_flag() {
    assert_eq!(single(&vec![]), None);
    assert_eq!(single(&vec![false, false]), None);
    assert_eq!(single(&vec![false, true, false]), Some(1));
    assert_eq!(single(&vec![true, false, true]), None);
    assert_eq!(single(&vec![true]), Some(0));
}

#[test]
fn action_is_found_in_the_text() {
    let m = message("bob!bob@example.com", "\u{1}ACTION waves hello\u{1}");
    assert_eq!(
        show(&m, &args(&["waves"])),
        Line {
            time: Timespec { sec: 100, nsec: 1 },
            nick: "bob".to_string(),
            body: Body::Action("waves hello".to_string())
        }
    );
    let inside = message("bob", "look: \u{1}ACTION jumps\u{1} twice");
    assert_eq!(show(&inside, &vec![]).body, Body::Action("jumps".to_string()));
}

#[test]
fn plain_text_is_highlighted_by_a_word() {
    let m = message("alice!a@b", "hello bob, are you there?");
    assert_eq!(
        show(&m, &args(&["carol", "bob"])),
        Line {
            time: Timespec { sec: 100, nsec: 1 },
            nick: "alice".to_string(),
            body: Body::Plain("hello bob, are you there?".to_string(), true)
        }
    );
    assert_eq!(
        show(&m, &args(&["carol"])).body,
        Body::Plain("hello bob, are you there?".to_string(), false)
    );
    assert_eq!(show(&m, &vec![]).body, Body::Plain("hello bob, are you there?".to_string(), false));
    let broken = message("alice", "\u{1}ACTION \u{1}");
    assert_eq!(show(&broken, &vec![]).body, Body::Plain("\u{1}ACTION \u{1}".to_string(), false));
}

#[test]
fn nickname_ends_at_the_first_bang() {
    assert_eq!(show(&message("a!b!c", "x"), &vec![]).nick, "a");
    assert_eq!(show(&message("Unknown User", "x"), &vec![]).nick, "Unknown User");
    assert_eq!(show(&message("!x", "x"), &vec![]).nick, "");
    assert_eq!(show(&message("", "x"), &vec![]).nick, "");
    assert_eq!(show(&message("\u{e9}t\u{e9}!h", "x"), &vec![]).nick, "\u{e9}t\u{e9}");
}

#[test]
fn show_with_a_given_action() {
    let m = message("bob!x", "text with bob");
    assert_eq!(
        show_with(&m, &args(&["bob"]), Some("dances".to_string())).body,
        Body::Action("dances".to_string())
    );
    assert_eq!(
        show_with(&m, &args(&["bob"]), None).body,
        Body::Plain("text with bob".to_string(), true)
    );
}

#[test]
fn highlight_needs_an_occurrence() {
    assert!(is_highlighted("hello world", &args(&["lo w"])));
    assert!(is_highlighted("hello world", &args(&["x", "world"])));
    assert!(is_highlighted("hello", &args(&["hello"])));
    assert!(is_highlighted("hello", &args(&[""])));
    assert!(!is_highlighted("hello", &args(&["hello!"])));
    assert!(!is_highlighted("hello", &args(&["Hello"])));
    assert!(!is_highlighted("hello", &vec![]));
    assert!(is_highlighted("caf\u{e9} au lait", &args(&["\u{e9} au"])));
}

#[test]
fn one_line_per_message() {
    let msgs = vec![message("a!x", "one"), message("b!y", "\u{1}ACTION two\u{1}")];
    let lines = print_msgs(&msgs, &args(&["one"]));
    assert_eq!(lines.len(), 2);
    assert_eq!(lines[0].nick, "a");
    assert_eq!(lines[0].body, Body::Plain("one".to_string(), true));
    assert_eq!(lines[1].nick, "b");
    assert_eq!(lines[1].body, Body::Action("two".to_string()));
    assert!(print_msgs(&vec![], &vec![]).is_empty());
}

#[test]
fn status_lines() {
    assert_eq!(status_line("#rust", 0), None);
    assert_eq!(status_line("#rust", 1), Some("#rust has 1 new message".to_string()));
    assert_eq!(status_line("#rust", 2), Some("#rust has 2 new messages".to_string()));
    assert_eq!(status_line("#rust", 120), Some("#rust has 120 new messages".to_string()));
}

#[test]
fn decimal_digits() {
    assert_eq!(decimal_string(0), "0");
    assert_eq!(decimal_string(7), "7");
    assert_eq!(decimal_string(10), "10");
    assert_eq!(decimal_string(1_234_567_890), "1234567890");
    assert_eq!(decimal_string(usize::MAX), usize::MAX.to_string());
}
