//! The wire codec: one protocol line to and from a structured message.

use vstd::prelude::*;
use vstd::string::*;
use vstd::utf8::*;
use crate::clock::{get_time, Timespec};
use crate::text::{
    chars_of, find_from, join, join_chars, lemma_find_from, lemma_join_split, lemma_split_concat,
    lemma_split_join, pieces_of, split, split_chars, string_of, utf8_text,
};

verus! {

/// Why a line is not a message.
#[derive(Clone, Copy, Debug, PartialEq, Eq, Structural)]
pub enum ParseError {
    /// The bytes are not valid UTF-8.
    NotUtf8,
    /// The line ends after its prefix: there is no command token.
    MissingCommand,
}

/// One protocol line, taken apart.
#[derive(Clone, Debug, PartialEq, Eq)]
pub struct Message {
    pub time: Timespec,
    pub prefix: Option<String>,
    pub command: String,
    pub parameters: Vec<String>,
    pub trailing: Option<String>,
}

/// What a `Message` holds, as mathematical text.
pub struct MessageView {
    pub time: Timespec,
    pub prefix: Option<Seq<char>>,
    pub command: Seq<char>,
    pub parameters: Seq<Seq<char>>,
    pub trailing: Option<Seq<char>>,
}

/// The text of an optional string.
pub open spec fn opt_text(o: Option<String>) -> Option<Seq<char>> {
    match o {
        Some(s) => Some(s@),
        None => None,
    }
}

/// The texts of a list of strings.
pub open spec fn texts_of(v: Seq<String>) -> Seq<Seq<char>> {
    Seq::new(v.len(), |i: int| v[i]@)
}

impl View for Message {
    type V = MessageView;

    open spec fn view(&self) -> MessageView {
        MessageView {
            time: self.time,
            prefix: opt_text(self.prefix),
            command: self.command@,
            parameters: texts_of(self.parameters@),
            trailing: opt_text(self.trailing),
        }
    }
}

/// The token is marked: it begins with a colon.
pub open spec fn marked(token: Seq<char>) -> bool {
    token.len() > 0 && token[0] == ':'
}

/// The least index at or after `from` of a marked token, or the number of
/// tokens where none is marked.
pub open spec fn first_marked(tokens: Seq<Seq<char>>, from: nat) -> nat
    decreases tokens.len() - from,
{
    if from >= tokens.len() {
        tokens.len()
    } else if marked(tokens[from as int]) {
        from
    } else {
        first_marked(tokens, from + 1)
    }
}

/// The message that a line of text stands for, received at `time`.
///
/// The line is cut at single spaces. A marked first token is the prefix,
/// without its colon. The next token is the command. The tokens after it
/// are parameters up to the first marked one; from that token on, the rest
/// of the tokens, joined by single spaces and without the leading colon,
/// are the trailing parameter.
pub open spec fn parse_line(time: Timespec, line: Seq<char>) -> Result<MessageView, ParseError> {
    let tokens = split(line, ' ');
    let c: nat = if marked(tokens[0]) { 1 } else { 0 };
    if c >= tokens.len() {
        Err(ParseError::MissingCommand)
    } else {
        let k = first_marked(tokens, c + 1);
        Ok(
            MessageView {
                time,
                prefix: if marked(tokens[0]) {
                    Some(tokens[0].skip(1))
                } else {
                    None
                },
                command: tokens[c as int],
                parameters: tokens.subrange(c as int + 1, k as int),
                trailing: if k < tokens.len() {
                    Some(join(tokens.skip(k as int), ' ').skip(1))
                } else {
                    None
                },
            },
        )
    }
}

/// The message that a line of bytes stands for, received at `time`.
pub open spec fn parse_bytes(time: Timespec, bytes: Seq<u8>) -> Result<MessageView, ParseError> {
    if valid_utf8(bytes) {
        parse_line(time, decode_utf8(bytes))
    } else {
        Err(ParseError::NotUtf8)
    }
}

/// `m` with its receipt time replaced.
pub open spec fn at_time(m: MessageView, time: Timespec) -> MessageView {
    MessageView { time, ..m }
}

/// What ends every protocol line: carriage return, line feed.
pub open spec fn eol() -> Seq<char> {
    "\r\n"@
}

/// The NICK command for `nick`.
pub open spec fn nick_line(nick: Seq<char>) -> Seq<char> {
    "NICK "@ + nick + eol()
}

/// The USER command for `name`.
pub open spec fn user_line(name: Seq<char>) -> Seq<char> {
    "USER circ 8 * :"@ + name + eol()
}

/// The JOIN command for `channel`.
pub open spec fn join_line(channel: Seq<char>) -> Seq<char> {
    "JOIN "@ + channel + eol()
}

/// The PART command for `channel`.
pub open spec fn part_line(channel: Seq<char>) -> Seq<char> {
    "PART "@ + channel + eol()
}

/// The PONG command that echoes `data`.
pub open spec fn pong_line(data: Seq<char>) -> Seq<char> {
    "PONG :"@ + data + eol()
}

/// The PRIVMSG command that sends `data` to `dest`.
pub open spec fn msg_line(dest: Seq<char>, data: Seq<char>) -> Seq<char> {
    "PRIVMSG "@ + dest + " :"@ + data + eol()
}

/// The QUIT command.
pub open spec fn quit_line() -> Seq<char> {
    "QUIT"@ + eol()
}

/// `first_marked` stays within `from..=len`, names a marked token unless it
/// is the length, and no token before it, from `from` on, is marked.
pub proof fn lemma_first_marked(tokens: Seq<Seq<char>>, from: nat)
    requires
        from <= tokens.len(),
    ensures
        from <= first_marked(tokens, from) <= tokens.len(),
        first_marked(tokens, from) < tokens.len() ==> marked(
            tokens[first_marked(tokens, from) as int],
        ),
        forall|i: int| from <= i < first_marked(tokens, from) ==> !marked(tokens[i]),
    decreases tokens.len() - from,
{
    if from < tokens.len() && !marked(tokens[from as int]) {
        lemma_first_marked(tokens, from + 1);
    }
}

/// The search from `from` ends at `i` where no token in `from..i` is
/// marked and `i` is marked, or the end.
pub proof fn lemma_first_marked_found(tokens: Seq<Seq<char>>, from: nat, i: nat)
    requires
        from <= i <= tokens.len(),
        forall|k: int| from <= k < i ==> !marked(tokens[k]),
        i < tokens.len() ==> marked(tokens[i as int]),
    ensures
        first_marked(tokens, from) == i,
    decreases i - from,
{
    if from < i {
        lemma_first_marked_found(tokens, from + 1, i);
    }
}

/// The text holds no space.
pub open spec fn spaceless(t: Seq<char>) -> bool {
    forall|k: int| 0 <= k < t.len() ==> t[k] != ' '
}

/// A message that a line of the shape `[:prefix] command param ...
/// [:trailing words]` can say: prefix, command and parameters hold no
/// space, and neither the command nor a parameter begins with a colon.
/// The trailing parameter is free.
pub open spec fn well_formed(m: MessageView) -> bool {
    &&& m.prefix matches Some(p) ==> spaceless(p)
    &&& spaceless(m.command)
    &&& !marked(m.command)
    &&& forall|i: int|
        0 <= i < m.parameters.len() ==> spaceless(#[trigger] m.parameters[i]) && !marked(
            m.parameters[i],
        )
}

/// The tokens before the trailing parameter: the prefix with its colon,
/// if there is one, the command, the parameters.
pub open spec fn head_tokens(m: MessageView) -> Seq<Seq<char>> {
    (match m.prefix {
        Some(p) => seq![seq![':'] + p],
        None => Seq::empty(),
    }) + seq![m.command] + m.parameters
}

/// The line that says `m`: its tokens with single spaces between them,
/// the trailing parameter last, behind a colon.
pub open spec fn wire_line(m: MessageView) -> Seq<char> {
    join(head_tokens(m), ' ') + (match m.trailing {
        Some(t) => seq![' ', ':'] + t,
        None => Seq::empty(),
    })
}

/// Parsing the line of a well-formed message gives the message back:
/// prefix, command, parameters and trailing parameter, each exactly.
pub proof fn lemma_parse_round_trip(time: Timespec, m: MessageView)
    requires
        well_formed(m),
    ensures
        parse_line(time, wire_line(m)) == Ok::<MessageView, ParseError>(at_time(m, time)),
        parse_bytes(time, encode_utf8(wire_line(m))) == Ok::<MessageView, ParseError>(
            at_time(m, time),
        ),
{
    encode_utf8_valid_utf8(wire_line(m));
    encode_utf8_decode_utf8(wire_line(m));
    let h = head_tokens(m);
    let c: nat = if m.prefix is Some { 1 } else { 0 };
    assert(h.len() == c + 1 + m.parameters.len());
    assert(h[c as int] == m.command);
    assert forall|i: int| c + 1 <= i < h.len() implies h[i] == m.parameters[i - c - 1] by {}
    assert forall|i: int, k: int| 0 <= i < h.len() && 0 <= k < h[i].len() implies h[i][k]
        != ' ' by {
        if i < c {
            let p = m.prefix->0;
            if k > 0 {
                assert(h[i][k] == p[k - 1]);
            }
        } else if i == c {
        } else {
            assert(spaceless(m.parameters[i - c - 1]));
        }
    }
    lemma_split_join(h, ' ');
    assert(marked(h[0]) <==> m.prefix is Some);
    if m.prefix is Some {
        assert(h[0].skip(1) == m.prefix->0);
    }
    match m.trailing {
        None => {
            assert(wire_line(m) == join(h, ' '));
            lemma_first_marked_found(h, c + 1, h.len());
            assert(h.subrange(c as int + 1, h.len() as int) == m.parameters);
        },
        Some(t) => {
            let tt = seq![':'] + t;
            let tail = split(tt, ' ');
            assert(wire_line(m) == join(h, ' ') + seq![' '] + tt);
            lemma_split_concat(join(h, ' '), tt, ' ');
            lemma_join_split(tt, ' ');
            let tokens = h + tail;
            assert(split(wire_line(m), ' ') == tokens);
            lemma_find_from(tt, ' ', 0);
            let e = find_from(tt, ' ', 0) as int;
            assert(e >= 1) by {
                if e == 0 {
                    assert(tt[0] == ' ');
                }
            }
            assert(tail[0] == tt.take(e));
            assert(marked(tail[0]));
            assert(tokens[h.len() as int] == tail[0]);
            assert(tokens[0] == h[0]);
            assert forall|k: int| c + 1 <= k < h.len() implies !marked(tokens[k]) by {
                assert(tokens[k] == h[k]);
            }
            lemma_first_marked_found(tokens, c + 1, h.len());
            assert(tokens.subrange(c as int + 1, h.len() as int) == m.parameters);
            assert(tokens.skip(h.len() as int) == tail);
            assert(tt.skip(1) == t);
            assert(tokens[c as int] == m.command);
        },
    }
}

/// A message without prefix.
pub open spec fn command_view(
    time: Timespec,
    command: Seq<char>,
    parameters: Seq<Seq<char>>,
    trailing: Option<Seq<char>>,
) -> MessageView {
    MessageView { time, prefix: None, command, parameters, trailing }
}

/// A line without its terminator.
pub open spec fn unterminated(line: Seq<char>) -> Seq<char> {
    line.take(line.len() - eol().len())
}

/// A command word alone parses as just that.
proof fn lemma_bare(time: Timespec, word: Seq<char>)
    requires
        spaceless(word),
        !marked(word),
    ensures
        parse_line(time, word) == Ok::<MessageView, ParseError>(
            command_view(time, word, Seq::empty(), None),
        ),
{
    let m = command_view(time, word, Seq::empty(), None);
    lemma_parse_round_trip(time, m);
    assert(head_tokens(m) =~= seq![word]);
    assert(wire_line(m) =~= word);
}

/// A command word followed by one parameter parses as just that.
proof fn lemma_one_parameter(time: Timespec, word: Seq<char>, name: Seq<char>)
    requires
        spaceless(word),
        !marked(word),
        spaceless(name),
        !marked(name),
    ensures
        parse_line(time, word + seq![' '] + name) == Ok::<MessageView, ParseError>(
            command_view(time, word, seq![name], None),
        ),
{
    let m = command_view(time, word, seq![name], None);
    lemma_parse_round_trip(time, m);
    let h = head_tokens(m);
    assert(h =~= seq![word, name]);
    assert(h.skip(1) =~= seq![name]);
    assert(join(h, ' ') == word + seq![' '] + join(h.skip(1), ' '));
    assert(wire_line(m) =~= word + seq![' '] + name);
}

/// A command word followed by a trailing parameter parses as just that.
proof fn lemma_only_trailing(time: Timespec, word: Seq<char>, data: Seq<char>)
    requires
        spaceless(word),
        !marked(word),
    ensures
        parse_line(time, word + seq![' ', ':'] + data) == Ok::<MessageView, ParseError>(
            command_view(time, word, Seq::empty(), Some(data)),
        ),
{
    let m = command_view(time, word, Seq::empty(), Some(data));
    lemma_parse_round_trip(time, m);
    assert(head_tokens(m) =~= seq![word]);
    assert(wire_line(m) =~= word + seq![' ', ':'] + data);
}

/// A command word followed by parameters and a trailing parameter parses
/// as just that.
proof fn lemma_parameters_and_trailing(
    time: Timespec,
    word: Seq<char>,
    names: Seq<Seq<char>>,
    data: Seq<char>,
)
    requires
        spaceless(word),
        !marked(word),
        names.len() >= 1,
        forall|i: int| 0 <= i < names.len() ==> spaceless(#[trigger] names[i]) && !marked(names[i]),
    ensures
        parse_line(time, word + seq![' '] + join(names, ' ') + seq![' ', ':'] + data) == Ok::<
            MessageView,
            ParseError,
        >(command_view(time, word, names, Some(data))),
{
    let m = command_view(time, word, names, Some(data));
    lemma_parse_round_trip(time, m);
    let h = head_tokens(m);
    assert(h =~= seq![word] + names);
    assert(h.skip(1) =~= names);
    assert(join(h, ' ') == word + seq![' '] + join(names, ' '));
    assert(wire_line(m) =~= word + seq![' '] + join(names, ' ') + seq![' ', ':'] + data);
}

/// The NICK, JOIN and PART commands, without their terminator, parse as
/// their command word with the name as single parameter, where the name
/// holds no space and does not begin with a colon.
pub proof fn lemma_named_commands_parse_back(time: Timespec, name: Seq<char>)
    requires
        spaceless(name),
        !marked(name),
    ensures
        parse_line(time, unterminated(nick_line(name))) == Ok::<MessageView, ParseError>(
            command_view(time, "NICK"@, seq![name], None),
        ),
        parse_line(time, unterminated(join_line(name))) == Ok::<MessageView, ParseError>(
            command_view(time, "JOIN"@, seq![name], None),
        ),
        parse_line(time, unterminated(part_line(name))) == Ok::<MessageView, ParseError>(
            command_view(time, "PART"@, seq![name], None),
        ),
{
    reveal_strlit("\r\n");
    assert(parse_line(time, unterminated(nick_line(name))) == Ok::<MessageView, ParseError>(
        command_view(time, "NICK"@, seq![name], None),
    )) by {
        reveal_strlit("NICK ");
        reveal_strlit("NICK");
        lemma_one_parameter(time, "NICK"@, name);
        assert(unterminated(nick_line(name)) =~= "NICK"@ + seq![' '] + name);
    }
    assert(parse_line(time, unterminated(join_line(name))) == Ok::<MessageView, ParseError>(
        command_view(time, "JOIN"@, seq![name], None),
    )) by {
        reveal_strlit("JOIN ");
        reveal_strlit("JOIN");
        lemma_one_parameter(time, "JOIN"@, name);
        assert(unterminated(join_line(name)) =~= "JOIN"@ + seq![' '] + name);
    }
    assert(parse_line(time, unterminated(part_line(name))) == Ok::<MessageView, ParseError>(
        command_view(time, "PART"@, seq![name], None),
    )) by {
        reveal_strlit("PART ");
        reveal_strlit("PART");
        lemma_one_parameter(time, "PART"@, name);
        assert(unterminated(part_line(name)) =~= "PART"@ + seq![' '] + name);
    }
}

/// The PONG and QUIT commands, without their terminator, parse as their
/// command word, the PONG with its data as trailing parameter.
pub proof fn lemma_pong_and_quit_parse_back(time: Timespec, data: Seq<char>)
    ensures
        parse_line(time, unterminated(pong_line(data))) == Ok::<MessageView, ParseError>(
            command_view(time, "PONG"@, Seq::empty(), Some(data)),
        ),
        parse_line(time, unterminated(quit_line())) == Ok::<MessageView, ParseError>(
            command_view(time, "QUIT"@, Seq::empty(), None),
        ),
{
    reveal_strlit("\r\n");
    assert(parse_line(time, unterminated(pong_line(data))) == Ok::<MessageView, ParseError>(
        command_view(time, "PONG"@, Seq::empty(), Some(data)),
    )) by {
        reveal_strlit("PONG :");
        reveal_strlit("PONG");
        lemma_only_trailing(time, "PONG"@, data);
        assert(unterminated(pong_line(data)) =~= "PONG"@ + seq![' ', ':'] + data);
    }
    assert(parse_line(time, unterminated(quit_line())) == Ok::<MessageView, ParseError>(
        command_view(time, "QUIT"@, Seq::empty(), None),
    )) by {
        reveal_strlit("QUIT");
        lemma_bare(time, "QUIT"@);
        assert(unterminated(quit_line()) =~= "QUIT"@);
    }
}

/// A ping as the server sends it, the word and its data behind a colon,
/// parses as the command `PING` with the data as trailing parameter, no
/// prefix and no parameters.
pub proof fn lemma_ping_parses(time: Timespec, data: Seq<char>)
    ensures
        parse_line(time, "PING :"@ + data) == Ok::<MessageView, ParseError>(
            command_view(time, "PING"@, Seq::empty(), Some(data)),
        ),
{
    reveal_strlit("PING :");
    reveal_strlit("PING");
    lemma_only_trailing(time, "PING"@, data);
    assert("PING :"@ + data =~= "PING"@ + seq![' ', ':'] + data);
}

/// The PRIVMSG command, without its terminator, parses as its command
/// word with the destination as single parameter and the text as trailing
/// parameter, where the destination holds no space and does not begin
/// with a colon.
pub proof fn lemma_msg_parses_back(time: Timespec, dest: Seq<char>, data: Seq<char>)
    requires
        spaceless(dest),
        !marked(dest),
    ensures
        parse_line(time, unterminated(msg_line(dest, data))) == Ok::<MessageView, ParseError>(
            command_view(time, "PRIVMSG"@, seq![dest], Some(data)),
        ),
{
    reveal_strlit("\r\n");
    reveal_strlit("PRIVMSG ");
    reveal_strlit("PRIVMSG");
    reveal_strlit(" :");
    lemma_parameters_and_trailing(time, "PRIVMSG"@, seq![dest], data);
    assert(join(seq![dest], ' ') == dest);
    assert(unterminated(msg_line(dest, data)) =~= "PRIVMSG"@ + seq![' '] + dest + seq![' ', ':']
        + data);
}

/// The USER command, without its terminator, parses as its command word
/// with the program's name, the mode digit and the star as parameters and
/// the real name as trailing parameter.
pub proof fn lemma_user_parses_back(time: Timespec, name: Seq<char>)
    ensures
        parse_line(time, unterminated(user_line(name))) == Ok::<MessageView, ParseError>(
            command_view(time, "USER"@, seq!["circ"@, "8"@, "*"@], Some(name)),
        ),
{
    reveal_strlit("\r\n");
    reveal_strlit("USER circ 8 * :");
    reveal_strlit("USER");
    reveal_strlit("circ");
    reveal_strlit("8");
    reveal_strlit("*");
    let names = seq!["circ"@, "8"@, "*"@];
    assert(spaceless(names[0]) && spaceless(names[1]) && spaceless(names[2]));
    lemma_parameters_and_trailing(time, "USER"@, names, name);
    assert(names.skip(1) =~= seq!["8"@, "*"@]);
    assert(names.skip(1).skip(1) =~= seq!["*"@]);
    assert(join(names.skip(1).skip(1), ' ') == "*"@);
    assert(join(names.skip(1), ' ') == "8"@ + seq![' '] + "*"@);
    assert(join(names, ' ') == "circ"@ + seq![' '] + join(names.skip(1), ' '));
    assert(unterminated(user_line(name)) =~= "USER"@ + seq![' '] + join(names, ' ') + seq![
        ' ',
        ':',
    ] + name);
}

/// The text of `chars` from index `from` on.
fn tail_string(chars: &Vec<char>, from: usize) -> (r: String)
    requires
        from <= chars.len(),
    ensures
        r@ == chars@.skip(from as int),
{
    let mut r = String::new();
    let mut i = from;
    while i < chars.len()
        invariant
            from <= i <= chars.len(),
            r@ == chars@.subrange(from as int, i as int),
        decreases chars.len() - i,
    {
        r.push(chars[i]);
        i = i + 1;
    }
    r
}

impl Message {
    /// An empty message, stamped with the current time.
    pub fn new() -> (m: Message)
        ensures
            m@.time.wf(),
            m@.prefix is None,
            m@.command == Seq::<char>::empty(),
            m@.parameters == Seq::<Seq<char>>::empty(),
            m@.trailing is None,
    {
        let m = Message {
            time: get_time(),
            prefix: None,
            command: String::new(),
            parameters: Vec::new(),
            trailing: None,
        };
        assert(m@.parameters =~= Seq::<Seq<char>>::empty());
        m
    }

    /// Parses one line, without its terminator, as received at `time`.
    pub fn parse_at(time: Timespec, buffer: &[u8]) -> (r: Result<Message, ParseError>)
        ensures
            match r {
                Ok(m) => parse_bytes(time, buffer@) == Ok::<MessageView, ParseError>(m@),
                Err(e) => parse_bytes(time, buffer@) == Err::<MessageView, ParseError>(e),
            },
    {
        let line = match utf8_text(buffer) {
            Some(s) => s,
            None => {
                return Err(ParseError::NotUtf8);
            },
        };
        let chars = chars_of(line);
        let tokens = split_chars(chars.as_slice(), ' ');
        let ghost toks = split(line@, ' ');
        assert(toks.len() >= 1);
        assert(forall|i: int| 0 <= i < toks.len() ==> toks[i] == #[trigger] tokens@[i]@);
        assert(tokens.len() == toks.len());

        let mut prefix: Option<String> = None;
        let mut c: usize = 0;
        if tokens[0].len() > 0 && tokens[0][0] == ':' {
            prefix = Some(tail_string(&tokens[0], 1));
            c = 1;
        }
        if c >= tokens.len() {
            return Err(ParseError::MissingCommand);
        }
        let command = string_of(tokens[c].as_slice());

        let mut parameters: Vec<String> = Vec::new();
        let mut k: usize = c + 1;
        while k < tokens.len() && !(tokens[k].len() > 0 && tokens[k][0] == ':')
            invariant
                c + 1 <= k <= tokens.len(),
                tokens.len() == toks.len(),
                forall|i: int| 0 <= i < toks.len() ==> toks[i] == #[trigger] tokens@[i]@,
                first_marked(toks, (c + 1) as nat) == first_marked(toks, k as nat),
                texts_of(parameters@) == toks.subrange(c + 1, k as int),
            decreases tokens.len() - k,
        {
            let ghost before = parameters@;
            parameters.push(string_of(tokens[k].as_slice()));
            assert(texts_of(parameters@) == texts_of(before).push(toks[k as int]));
            k = k + 1;
            assert(toks.subrange(c + 1, k as int) == toks.subrange(c + 1, k - 1).push(
                toks[k - 1],
            ));
        }
        proof {
            lemma_first_marked(toks, k as nat);
        }
        let trailing = if k < tokens.len() {
            let joined = join_chars(&tokens, k, ' ');
            proof {
                let tail = toks.skip(k as int);
                assert(pieces_of(tokens@).skip(k as int) == tail);
                assert(marked(tail[0]));
                if tail.len() > 1 {
                    assert(join(tail, ' ') == tail[0] + seq![' '] + join(tail.skip(1), ' '));
                }
                assert(join(tail, ' ').len() >= 1);
            }
            Some(tail_string(&joined, 1))
        } else {
            None
        };
        let m = Message { time, prefix, command, parameters, trailing };
        Ok(m)
    }

    /// Parses one line, without its terminator, and stamps the message with
    /// the time of the call.
    pub fn parse(buffer: &[u8]) -> (r: Result<Message, ParseError>)
        ensures
            match r {
                Ok(m) => m@.time.wf() && parse_bytes(m@.time, buffer@) == Ok::<
                    MessageView,
                    ParseError,
                >(m@),
                Err(e) => forall|t: Timespec| parse_bytes(t, buffer@) == Err::<
                    MessageView,
                    ParseError,
                >(e),
            },
    {
        let now = get_time();
        Message::parse_at(now, buffer)
    }

    /// The command that sets the nickname.
    pub fn nick(nick: &str) -> (line: String)
        ensures
            line@ == nick_line(nick@),
    {
        String::from_str("NICK ").concat(nick).concat("\r\n")
    }

    /// The command that registers the user: the program's name, the mode
    /// digit, and the real name as trailing parameter.
    pub fn user(name: &str) -> (line: String)
        ensures
            line@ == user_line(name@),
    {
        String::from_str("USER circ 8 * :").concat(name).concat("\r\n")
    }

    /// The command that joins a channel.
    pub fn join(channel: &str) -> (line: String)
        ensures
            line@ == join_line(channel@),
    {
        String::from_str("JOIN ").concat(channel).concat("\r\n")
    }

    /// The command that leaves a channel.
    pub fn part(channel: &str) -> (line: String)
        ensures
            line@ == part_line(channel@),
    {
        String::from_str("PART ").concat(channel).concat("\r\n")
    }

    /// The answer to a ping, echoing its data.
    pub fn pong(data: &str) -> (line: String)
        ensures
            line@ == pong_line(data@),
    {
        String::from_str("PONG :").concat(data).concat("\r\n")
    }

    /// The command that sends `data` to `dest`.
    pub fn msg(dest: &str, data: &str) -> (line: String)
        ensures
            line@ == msg_line(dest@, data@),
    {
        String::from_str("PRIVMSG ").concat(dest).concat(" :").concat(data).concat("\r\n")
    }

    /// The command that ends the session.
    pub fn quit() -> (line: String)
        ensures
            line@ == quit_line(),
    {
        String::from_str("QUIT").concat("\r\n")
    }
}

} // verus!
