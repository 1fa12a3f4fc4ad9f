//! The client's side: from its command line to the one request it sends,
//! and from the response to the lines it shows.

use vstd::prelude::*;
use vstd::string::*;
use vstd::utf8::is_ascii_chars;
use crate::circ_comms::{ClientMessageView, Message, Request, RequestView};
use crate::clock::Timespec;
use crate::irc_message::{opt_text, texts_of};
use crate::text::{
    chars_of, contains_text, find_from, find_sep, join, join_chars, occurs, pieces_of, split,
    split_chars, string_of,
};

verus! {

/// Why a command line gives no request.
#[derive(Clone, Copy, Debug, PartialEq, Eq, Structural)]
pub enum ArgError {
    /// The arguments do not fit the options.
    Invalid,
    /// Not exactly one action is asked for.
    NotOneAction,
    /// The action needs a channel and none is given.
    MissingChannel,
    /// A message is to be sent and has no text.
    MissingText,
}

/// One option of the command line: its short and its long name, its
/// description, and the hint for its value.
#[derive(Clone, Debug, PartialEq, Eq)]
pub struct OptSpec {
    pub short: String,
    pub long: String,
    pub desc: String,
    pub hint: String,
}

/// What a command line holds once it is parsed: for each flag whether it
/// is set, for each option with a value that value, and the free
/// arguments.
#[derive(Clone, Debug, PartialEq, Eq)]
pub struct Parsed {
    pub flags: Vec<bool>,
    pub values: Vec<Option<String>>,
    pub free: Vec<String>,
}

/// The short and long names of a list of options.
pub open spec fn names_of(v: Seq<OptSpec>) -> Seq<(Seq<char>, Seq<char>)> {
    Seq::new(v.len(), |i: int| (v[i].short@, v[i].long@))
}

/// The texts of a list of optional strings.
pub open spec fn opt_texts_of(v: Seq<Option<String>>) -> Seq<Option<Seq<char>>> {
    Seq::new(v.len(), |i: int| opt_text(v[i]))
}

/// What `getopts` makes of a command line: given the names of the flags,
/// the names of the options that take a value, and the arguments, either
/// nothing, where the arguments do not fit, or which flags are set, the
/// values of the options, and the free arguments.
pub uninterp spec fn getopts_parse(
    flags: Seq<(Seq<char>, Seq<char>)>,
    valued: Seq<(Seq<char>, Seq<char>)>,
    args: Seq<Seq<char>>,
) -> Option<(Seq<bool>, Seq<Option<Seq<char>>>, Seq<Seq<char>>)>;

/// The option can be declared: one ASCII character as short name, an ASCII
/// word of two characters or more as long name.
pub open spec fn declarable(o: OptSpec) -> bool {
    &&& o.short@.len() == 1
    &&& is_ascii_chars(o.short@)
    &&& o.long@.len() >= 2
    &&& is_ascii_chars(o.long@)
}

/// Parses a command line with the `getopts` crate. The flags are declared
/// with `Options::optflag`, the options that take a value with
/// `Options::optopt`, and the arguments go to `Options::parse`. A failure
/// of `parse` gives `None`. Else each flag is asked for with
/// `Matches::opt_present`, each value with `Matches::opt_str`, by the short
/// name, and the free arguments are those of `Matches`. The result is
/// `getopts_parse` of the names and the arguments, and holds one entry for
/// each declared flag and option.
#[verifier::external_body]
fn parse_options(flags: &Vec<OptSpec>, valued: &Vec<OptSpec>, args: &Vec<String>) -> (r: Option<
    Parsed,
>)
    requires
        forall|i: int| 0 <= i < flags.len() ==> declarable(#[trigger] flags[i]),
        forall|i: int| 0 <= i < valued.len() ==> declarable(#[trigger] valued[i]),
    ensures
        match r {
            Some(p) => getopts_parse(names_of(flags@), names_of(valued@), texts_of(args@)) == Some(
                (p.flags@, opt_texts_of(p.values@), texts_of(p.free@)),
            ) && p.flags.len() == flags.len() && p.values.len() == valued.len(),
            None => getopts_parse(names_of(flags@), names_of(valued@), texts_of(args@)) is None,
        },
{
    let mut o = getopts::Options::new();
    for f in flags {
        o.optflag(&f.short, &f.long, &f.desc);
    }
    for v in valued {
        o.optopt(&v.short, &v.long, &v.desc, &v.hint);
    }
    let m = o.parse(args).ok()?;
    Some(Parsed {
        flags: flags.iter().map(|f| m.opt_present(&f.short)).collect(),
        values: valued.iter().map(|v| m.opt_str(&v.short)).collect(),
        free: m.free.clone(),
    })
}

/// Flag `k` is set and no other.
pub open spec fn only(flags: Seq<bool>, k: int) -> bool {
    &&& 0 <= k < flags.len()
    &&& flags[k]
    &&& forall|j: int| 0 <= j < flags.len() && j != k ==> !flags[j]
}

/// The one flag that is set, where exactly one is.
pub fn single(flags: &Vec<bool>) -> (r: Option<usize>)
    ensures
        match r {
            Some(k) => only(flags@, k as int),
            None => forall|k: int| !only(flags@, k),
        },
{
    let mut found: Option<usize> = None;
    let mut i: usize = 0;
    while i < flags.len()
        invariant
            i <= flags.len(),
            match found {
                Some(k) => k < i && flags@[k as int] && forall|j: int|
                    0 <= j < i && j != k ==> !flags@[j],
                None => forall|j: int| 0 <= j < i ==> !flags@[j],
            },
        decreases flags.len() - i,
    {
        if flags[i] {
            if found.is_some() {
                assert forall|k: int| !only(flags@, k) by {
                    let a = found->0 as int;
                    if only(flags@, k) {
                        if k == a {
                            assert(!flags@[i as int]);
                        } else {
                            assert(!flags@[a]);
                        }
                    }
                }
                return None;
            }
            found = Some(i);
        }
        i = i + 1;
    }
    found
}

/// The highlight words: the pieces of the option's value between commas,
/// or none where the option is not given.
pub open spec fn highlight_words(highlight: Option<Seq<char>>) -> Seq<Seq<char>> {
    match highlight {
        Some(h) => split(h, ','),
        None => Seq::empty(),
    }
}

/// The request that the command line asks for, and whether a response is
/// to be awaited.
///
/// The eight flags stand, in this order, for: list the channels, join,
/// send a message, part, quit, status of all channels, unread messages of
/// a channel, users of a channel. Exactly one of them must be set. Join,
/// message, part, unread and users need the channel; the text of a message
/// is the free arguments joined by single spaces, and there must be one at
/// least.
pub open spec fn chosen(flags: Seq<bool>, channel: Option<Seq<char>>, free: Seq<Seq<char>>) -> Result<
    (RequestView, bool),
    ArgError,
> {
    if only(flags, 0) {
        Ok((RequestView::ListChannels, true))
    } else if only(flags, 4) {
        Ok((RequestView::Quit, false))
    } else if only(flags, 5) {
        Ok((RequestView::GetStatus, true))
    } else if only(flags, 1) || only(flags, 2) || only(flags, 3) || only(flags, 6) || only(
        flags,
        7,
    ) {
        match channel {
            None => Err(ArgError::MissingChannel),
            Some(c) => if only(flags, 1) {
                Ok((RequestView::Join(c), false))
            } else if only(flags, 3) {
                Ok((RequestView::Part(c), false))
            } else if only(flags, 6) {
                Ok((RequestView::GetMessages(c), true))
            } else if only(flags, 7) {
                Ok((RequestView::GetUsers(c), true))
            } else if free.len() == 0 {
                Err(ArgError::MissingText)
            } else {
                Ok((RequestView::SendMessage(c, join(free, ' ')), false))
            },
        }
    } else {
        Err(ArgError::NotOneAction)
    }
}

/// The view of what a command line asks for.
pub open spec fn asked(r: Result<(Request, bool, Vec<String>), ArgError>) -> Result<
    (RequestView, bool, Seq<Seq<char>>),
    ArgError,
> {
    match r {
        Ok(t) => Ok((t.0@, t.1, texts_of(t.2@))),
        Err(e) => Err(e),
    }
}

/// What a parsed command line asks for, with the highlight words.
pub open spec fn selected(
    flags: Seq<bool>,
    channel: Option<Seq<char>>,
    highlight: Option<Seq<char>>,
    free: Seq<Seq<char>>,
) -> Result<(RequestView, bool, Seq<Seq<char>>), ArgError> {
    match chosen(flags, channel, free) {
        Ok(t) => Ok((t.0, t.1, highlight_words(highlight))),
        Err(e) => Err(e),
    }
}

/// The strings that the pieces of text are.
fn strings_of(pieces: &Vec<Vec<char>>) -> (r: Vec<String>)
    ensures
        texts_of(r@) == pieces_of(pieces@),
{
    let mut r: Vec<String> = Vec::new();
    let mut i: usize = 0;
    while i < pieces.len()
        invariant
            i <= pieces.len(),
            texts_of(r@) == pieces_of(pieces@).take(i as int),
        decreases pieces.len() - i,
    {
        let ghost before = r@;
        r.push(string_of(pieces[i].as_slice()));
        assert(texts_of(r@) =~= texts_of(before).push(pieces@[i as int]@));
        i = i + 1;
        assert(pieces_of(pieces@).take(i as int) =~= pieces_of(pieces@).take(i - 1).push(
            pieces@[i - 1]@,
        ));
    }
    assert(pieces_of(pieces@).take(i as int) =~= pieces_of(pieces@));
    r
}

/// The characters of each string.
fn chars_of_all(v: &Vec<String>) -> (r: Vec<Vec<char>>)
    ensures
        pieces_of(r@) == texts_of(v@),
{
    let mut r: Vec<Vec<char>> = Vec::new();
    let mut i: usize = 0;
    while i < v.len()
        invariant
            i <= v.len(),
            pieces_of(r@) == texts_of(v@).take(i as int),
        decreases v.len() - i,
    {
        let ghost before = r@;
        r.push(chars_of(v[i].as_str()));
        assert(pieces_of(r@) =~= pieces_of(before).push(v@[i as int]@));
        i = i + 1;
        assert(texts_of(v@).take(i as int) =~= texts_of(v@).take(i - 1).push(v@[i - 1]@));
    }
    assert(texts_of(v@).take(i as int) =~= texts_of(v@));
    r
}

/// Picks the request out of a parsed command line: `flags` as `chosen`
/// orders them, the value of the channel option, the value of the
/// highlight option, and the free arguments.
pub fn select(
    flags: &Vec<bool>,
    channel: Option<String>,
    highlight: Option<String>,
    free: &Vec<String>,
) -> (r: Result<(Request, bool, Vec<String>), ArgError>)
    ensures
        asked(r) == selected(flags@, opt_text(channel), opt_text(highlight), texts_of(free@)),
{
    let k = match single(flags) {
        Some(k) => k,
        None => {
            return Err(ArgError::NotOneAction);
        },
    };
    let request = if k == 0 {
        Request::ListChannels
    } else if k == 4 {
        Request::Quit
    } else if k == 5 {
        Request::GetStatus
    } else if k == 1 || k == 2 || k == 3 || k == 6 || k == 7 {
        let c = match channel {
            Some(c) => c,
            None => {
                return Err(ArgError::MissingChannel);
            },
        };
        if k == 1 {
            Request::Join(c)
        } else if k == 3 {
            Request::Part(c)
        } else if k == 6 {
            Request::GetMessages(c)
        } else if k == 7 {
            Request::GetUsers(c)
        } else {
            if free.len() == 0 {
                return Err(ArgError::MissingText);
            }
            let words = chars_of_all(free);
            let text = join_chars(&words, 0, ' ');
            assert(pieces_of(words@).skip(0) == texts_of(free@));
            Request::SendMessage(c, string_of(text.as_slice()))
        }
    } else {
        return Err(ArgError::NotOneAction);
    };
    let highlights = match highlight {
        Some(h) => {
            let chars = chars_of(h.as_str());
            strings_of(&split_chars(chars.as_slice(), ','))
        },
        None => Vec::new(),
    };
    assert(highlight is None ==> texts_of(highlights@) =~= Seq::<Seq<char>>::empty());
    let expected = request.expects_response();
    Ok((request, expected, highlights))
}

/// One option, from its four texts.
fn opt(short: &str, long: &str, desc: &str, hint: &str) -> (o: OptSpec)
    ensures
        o.short@ == short@,
        o.long@ == long@,
        o.desc@ == desc@,
        o.hint@ == hint@,
{
    OptSpec {
        short: String::from_str(short),
        long: String::from_str(long),
        desc: String::from_str(desc),
        hint: String::from_str(hint),
    }
}

/// The names of the eight flags, in the order of `chosen`.
pub open spec fn flag_names() -> Seq<(Seq<char>, Seq<char>)> {
    seq![
        ("l"@, "list-channels"@),
        ("j"@, "join"@),
        ("m"@, "msg"@),
        ("p"@, "part"@),
        ("q"@, "quit"@),
        ("s"@, "status"@),
        ("u"@, "unread"@),
        ("w"@, "who"@),
    ]
}

/// The names of the two options that take a value: the channel, then the
/// highlight words.
pub open spec fn valued_names() -> Seq<(Seq<char>, Seq<char>)> {
    seq![("c"@, "channel"@), ("h"@, "highlight"@)]
}

/// What the arguments of the client ask for: `select` applied to what
/// `getopts` makes of them, or `Invalid` where they do not fit the options.
pub open spec fn invocation(args: Seq<Seq<char>>) -> Result<
    (RequestView, bool, Seq<Seq<char>>),
    ArgError,
> {
    match getopts_parse(flag_names(), valued_names(), args) {
        Some(p) => selected(p.0, p.1[0], p.1[1], p.2),
        None => Err(ArgError::Invalid),
    }
}

/// Reads the client's arguments, the program's name left out: the request
/// to send, whether to await a response, and the highlight words.
pub fn process_args(args: &Vec<String>) -> (r: Result<(Request, bool, Vec<String>), ArgError>)
    ensures
        asked(r) == invocation(texts_of(args@)),
{
    let mut flags: Vec<OptSpec> = Vec::new();
    flags.push(opt("l", "list-channels", "List the channels that circd is using", ""));
    flags.push(opt("j", "join", "Join a channel", ""));
    flags.push(opt("m", "msg", "Send a message to a channel", ""));
    flags.push(opt("p", "part", "Part from a channel", ""));
    flags.push(opt("q", "quit", "Quit irc and stop circd", ""));
    flags.push(opt("s", "status", "Get the unread message status of all channels", ""));
    flags.push(opt("u", "unread", "Get the unread messages from a channel", ""));
    flags.push(opt("w", "who", "Get the users currently active on the channel", ""));
    let mut valued: Vec<OptSpec> = Vec::new();
    valued.push(opt("c", "channel", "Channel to use for the operations", "#rust"));
    valued.push(
        opt(
            "h",
            "highlight",
            "List of words that would cause the line to be highlighted",
            "word1[,word2...]",
        ),
    );
    proof {
        reveal_strlit("l");
        reveal_strlit("list-channels");
        reveal_strlit("j");
        reveal_strlit("join");
        reveal_strlit("m");
        reveal_strlit("msg");
        reveal_strlit("p");
        reveal_strlit("part");
        reveal_strlit("q");
        reveal_strlit("quit");
        reveal_strlit("s");
        reveal_strlit("status");
        reveal_strlit("u");
        reveal_strlit("unread");
        reveal_strlit("w");
        reveal_strlit("who");
        reveal_strlit("c");
        reveal_strlit("channel");
        reveal_strlit("h");
        reveal_strlit("highlight");
        assert(names_of(flags@) =~= flag_names());
        assert(names_of(valued@) =~= valued_names());
    }
    match parse_options(&flags, &valued, args) {
        None => Err(ArgError::Invalid),
        Some(p) => {
            let mut values = p.values;
            let highlight = values.pop().unwrap();
            let channel = values.pop().unwrap();
            assert(opt_text(highlight) == opt_texts_of(p.values@)[1]);
            assert(opt_text(channel) == opt_texts_of(p.values@)[0]);
            select(&p.flags, channel, highlight, &p.free)
        },
    }
}

/// What the `regex` crate finds: the text that the group named `group`
/// took in the leftmost match of `pattern` in `text`, or nothing, where
/// `pattern` is no regular expression, where it matches nowhere in `text`,
/// or where the group took no part in the match.
pub uninterp spec fn regex_capture(pattern: Seq<char>, group: Seq<char>, text: Seq<char>) -> Option<
    Seq<char>,
>;

/// Searches `text` with the `regex` crate: `Regex::new` compiles the
/// pattern, `Regex::captures` finds the leftmost match, `Captures::name`
/// picks the group. The result is `regex_capture` of the three texts.
#[verifier::external_body]
fn capture(pattern: &str, group: &str, text: &str) -> (r: Option<String>)
    ensures
        opt_text(r) == regex_capture(pattern@, group@, text@),
{
    let re = regex::Regex::new(pattern).ok()?;
    let found = re.captures(text)?;
    found.name(group).map(|m| m.as_str().to_string())
}

/// What is shown of a message after the time and the nickname.
#[derive(Clone, Debug, PartialEq, Eq)]
pub enum Body {
    /// An action: what the user does.
    Action(String),
    /// Plain text, and whether it holds a highlight word.
    Plain(String, bool),
}

/// A `Body` as mathematical text.
pub enum BodyView {
    Action(Seq<char>),
    Plain(Seq<char>, bool),
}

impl View for Body {
    type V = BodyView;

    open spec fn view(&self) -> BodyView {
        match *self {
            Body::Action(a) => BodyView::Action(a@),
            Body::Plain(t, h) => BodyView::Plain(t@, h),
        }
    }
}

/// One message as the client shows it.
#[derive(Clone, Debug, PartialEq, Eq)]
pub struct Line {
    pub time: Timespec,
    pub nick: String,
    pub body: Body,
}

/// A `Line` as mathematical values.
pub struct LineView {
    pub time: Timespec,
    pub nick: Seq<char>,
    pub body: BodyView,
}

impl View for Line {
    type V = LineView;

    open spec fn view(&self) -> LineView {
        LineView { time: self.time, nick: self.nick@, body: self.body@ }
    }
}

/// The nickname of a user: what stands before the first `!`.
pub open spec fn nick_of(user: Seq<char>) -> Seq<char> {
    user.take(find_from(user, '!', 0) as int)
}

/// One of the first `n` words occurs in the text.
pub open spec fn highlighted_by(text: Seq<char>, words: Seq<Seq<char>>, n: int) -> bool {
    exists|i: int| 0 <= i < n && occurs(#[trigger] words[i], text)
}

/// One of the words occurs in the text.
pub open spec fn highlighted(text: Seq<char>, words: Seq<Seq<char>>) -> bool {
    highlighted_by(text, words, words.len() as int)
}

/// The pattern of an action: the word `ACTION` and what is done, between
/// two bytes of value one.
pub open spec fn action_pattern() -> Seq<char> {
    "\\x01ACTION (?P<action>[^\\x01]+)\\x01"@
}

/// How a message is shown, given the action that was found in its text, if
/// any: as that action, or as its text, highlighted or not.
pub open spec fn shown(m: ClientMessageView, words: Seq<Seq<char>>, action: Option<Seq<char>>) -> LineView {
    LineView {
        time: m.time,
        nick: nick_of(m.user),
        body: match action {
            Some(a) => BodyView::Action(a),
            None => BodyView::Plain(m.msg, highlighted(m.msg, words)),
        },
    }
}

/// Whether one of the words occurs in the text.
pub fn is_highlighted(text: &str, words: &Vec<String>) -> (r: bool)
    ensures
        r == highlighted(text@, texts_of(words@)),
{
    let mut i: usize = 0;
    while i < words.len()
        invariant
            i <= words.len(),
            !highlighted_by(text@, texts_of(words@), i as int),
        decreases words.len() - i,
    {
        if contains_text(text, words[i].as_str()) {
            assert(occurs(texts_of(words@)[i as int], text@));
            return true;
        }
        i = i + 1;
    }
    false
}

/// How a message is shown, given the action that was found in its text.
pub fn show_with(m: &Message, highlights: &Vec<String>, action: Option<String>) -> (line: Line)
    ensures
        line@ == shown(m@, texts_of(highlights@), opt_text(action)),
{
    let user = chars_of(m.user.as_str());
    let end = find_sep(user.as_slice(), '!', 0);
    let mut nick = String::new();
    let mut i: usize = 0;
    while i < end
        invariant
            i <= end <= user.len(),
            nick@ == user@.take(i as int),
        decreases end - i,
    {
        nick.push(user[i]);
        i = i + 1;
        assert(user@.take(i as int) == user@.take(i - 1).push(user@[i - 1]));
    }
    let body = match action {
        Some(a) => Body::Action(a),
        None => Body::Plain(m.msg.clone(), is_highlighted(m.msg.as_str(), highlights)),
    };
    Line { time: m.time, nick, body }
}

/// How a message is shown: its text is searched for an action first.
pub fn show(m: &Message, highlights: &Vec<String>) -> (line: Line)
    ensures
        line@ == shown(
            m@,
            texts_of(highlights@),
            regex_capture(action_pattern(), "action"@, m@.msg),
        ),
{
    let action = capture("\\x01ACTION (?P<action>[^\\x01]+)\\x01", "action", m.msg.as_str());
    show_with(m, highlights, action)
}

/// The lines to print for a list of messages, one for each, in order.
pub fn print_msgs(msgs: &Vec<Message>, highlights: &Vec<String>) -> (lines: Vec<Line>)
    ensures
        lines.len() == msgs.len(),
        forall|i: int|
            0 <= i < msgs.len() ==> (#[trigger] lines[i])@ == shown(
                msgs[i]@,
                texts_of(highlights@),
                regex_capture(action_pattern(), "action"@, msgs[i]@.msg),
            ),
{
    let mut lines: Vec<Line> = Vec::new();
    let mut i: usize = 0;
    while i < msgs.len()
        invariant
            i <= msgs.len(),
            lines.len() == i,
            forall|j: int|
                0 <= j < i ==> (#[trigger] lines[j])@ == shown(
                    msgs[j]@,
                    texts_of(highlights@),
                    regex_capture(action_pattern(), "action"@, msgs[j]@.msg),
                ),
        decreases msgs.len() - i,
    {
        lines.push(show(&msgs[i], highlights));
        i = i + 1;
    }
    lines
}

/// The character of a decimal digit.
pub open spec fn digit(d: nat) -> char {
    if d == 0 {
        '0'
    } else if d == 1 {
        '1'
    } else if d == 2 {
        '2'
    } else if d == 3 {
        '3'
    } else if d == 4 {
        '4'
    } else if d == 5 {
        '5'
    } else if d == 6 {
        '6'
    } else if d == 7 {
        '7'
    } else if d == 8 {
        '8'
    } else {
        '9'
    }
}

/// A number in decimal digits, without leading zeros.
pub open spec fn decimal(n: nat) -> Seq<char>
    decreases n,
{
    if n < 10 {
        seq![digit(n)]
    } else {
        decimal(n / 10).push(digit(n % 10))
    }
}

/// The digit's character.
fn digit_char(d: usize) -> (c: char)
    requires
        d < 10,
    ensures
        c == digit(d as nat),
{
    if d == 0 {
        '0'
    } else if d == 1 {
        '1'
    } else if d == 2 {
        '2'
    } else if d == 3 {
        '3'
    } else if d == 4 {
        '4'
    } else if d == 5 {
        '5'
    } else if d == 6 {
        '6'
    } else if d == 7 {
        '7'
    } else if d == 8 {
        '8'
    } else {
        '9'
    }
}

/// Writes a number in decimal digits.
pub fn decimal_string(n: usize) -> (s: String)
    ensures
        s@ == decimal(n as nat),
    decreases n,
{
    if n < 10 {
        let mut s = String::new();
        s.push(digit_char(n));
        s
    } else {
        let mut s = decimal_string(n / 10);
        s.push(digit_char(n % 10));
        s
    }
}

/// What is said of a channel in the status: nothing where no message
/// waits, else how many wait.
pub open spec fn status_text(channel: Seq<char>, count: nat) -> Option<Seq<char>> {
    if count == 0 {
        None
    } else if count == 1 {
        Some(channel + " has 1 new message"@)
    } else {
        Some(channel + " has "@ + decimal(count) + " new messages"@)
    }
}

/// The line of the status for one channel, if it has one.
pub fn status_line(channel: &str, count: usize) -> (line: Option<String>)
    ensures
        opt_text(line) == status_text(channel@, count as nat),
{
    if count == 0 {
        None
    } else if count == 1 {
        Some(String::from_str(channel).concat(" has 1 new message"))
    } else {
        let n = decimal_string(count);
        Some(String::from_str(channel).concat(" has ").concat(n.as_str()).concat(" new messages"))
    }
}

} // verus!
