//! The daemon's core: the channel store, the dispatcher that owns it, and
//! the decisions of the tasks that read and write protocol lines.

use std::collections::VecDeque;
use vstd::prelude::*;
use vstd::string::*;
use crate::circ_comms;
use crate::circ_comms::{ClientMessageView, Request, RequestView, Response, ResponseView};
use crate::clock::{get_time, Timespec};
use crate::irc_channel::{default_topic, fresh_channel, Channel, ChannelView};
use crate::irc_message::{
    join_line, msg_line, nick_line, parse_bytes, part_line, pong_line, quit_line, texts_of,
    user_line, Message, MessageView, ParseError,
};
use crate::text::same_text;

verus! {

/// Where the daemon finds its chat server and how it introduces itself.
#[derive(Clone, Debug, PartialEq, Eq)]
pub struct ConnectionConfig {
    pub address: String,
    pub port: u16,
    pub nickname: String,
    pub realname: String,
}

/// Why a line read from the server is skipped.
#[derive(Clone, Copy, Debug, PartialEq, Eq, Structural)]
pub enum LineError {
    /// The line does not end in carriage return and line feed.
    BadTerminator,
    /// The line, without its terminator, is not a message.
    Parse(ParseError),
}

/// The line ends in carriage return and line feed.
pub open spec fn terminated(line: Seq<u8>) -> bool {
    line.len() >= 2 && line[line.len() - 2] == 13 && line[line.len() - 1] == 10
}

/// Strips the two-byte terminator. A buffer that does not end in it is
/// left as it is.
pub fn chomp(buffer: &mut Vec<u8>) -> (r: Result<(), LineError>)
    ensures
        match r {
            Ok(_) => terminated(old(buffer)@) && final(buffer)@ == old(buffer)@.take(
                old(buffer)@.len() - 2,
            ),
            Err(e) => e == LineError::BadTerminator && !terminated(old(buffer)@) && final(buffer)@
                == old(buffer)@,
        },
{
    let n = buffer.len();
    if n >= 2 && buffer[n - 2] == 13 && buffer[n - 1] == 10 {
        buffer.truncate(n - 2);
        assert(buffer@ == old(buffer)@.take(n - 2));
        Ok(())
    } else {
        Err(LineError::BadTerminator)
    }
}

/// The message that one raw line, terminator included, stands for when it
/// is received at `time`.
pub open spec fn line_message(time: Timespec, raw: Seq<u8>) -> Result<MessageView, LineError> {
    if !terminated(raw) {
        Err(LineError::BadTerminator)
    } else {
        match parse_bytes(time, raw.take(raw.len() - 2)) {
            Ok(m) => Ok(m),
            Err(e) => Err(LineError::Parse(e)),
        }
    }
}

/// The reader's work on one raw line received at `time`: strip the
/// terminator and parse. An error means that the line is skipped.
pub fn receive_at(time: Timespec, buffer: Vec<u8>) -> (r: Result<Message, LineError>)
    ensures
        match r {
            Ok(m) => line_message(time, buffer@) == Ok::<MessageView, LineError>(m@),
            Err(e) => line_message(time, buffer@) == Err::<MessageView, LineError>(e),
        },
{
    let mut buffer = buffer;
    match chomp(&mut buffer) {
        Ok(_) => {},
        Err(e) => {
            return Err(e);
        },
    }
    match Message::parse_at(time, buffer.as_slice()) {
        Ok(m) => Ok(m),
        Err(e) => Err(LineError::Parse(e)),
    }
}

/// The reader's work on one raw line: strip the terminator, parse, and
/// stamp the message with the time of the call.
pub fn rx_task(buffer: Vec<u8>) -> (r: Result<Message, LineError>)
    ensures
        match r {
            Ok(m) => m@.time.wf() && line_message(m@.time, buffer@) == Ok::<
                MessageView,
                LineError,
            >(m@),
            Err(e) => forall|t: Timespec| line_message(t, buffer@) == Err::<
                MessageView,
                LineError,
            >(e),
        },
{
    let now = get_time();
    receive_at(now, buffer)
}

/// The least index at or after `from` of a channel called `name`, or the
/// number of channels where there is none.
pub open spec fn channel_from(store: Seq<ChannelView>, name: Seq<char>, from: nat) -> nat
    decreases store.len() - from,
{
    if from >= store.len() {
        store.len()
    } else if store[from as int].name == name {
        from
    } else {
        channel_from(store, name, from + 1)
    }
}

/// The index of the channel called `name`, or the number of channels where
/// there is none.
pub open spec fn channel_index(store: Seq<ChannelView>, name: Seq<char>) -> nat {
    channel_from(store, name, 0)
}

/// There is a channel called `name`.
pub open spec fn has_channel(store: Seq<ChannelView>, name: Seq<char>) -> bool {
    channel_index(store, name) < store.len()
}

/// No two channels share a name.
pub open spec fn distinct_names(store: Seq<ChannelView>) -> bool {
    forall|i: int, j: int|
        0 <= i < j < store.len() ==> (#[trigger] store[i]).name != (#[trigger] store[j]).name
}

/// The store with channel `name` brought into being if it was not there.
pub open spec fn with_channel(store: Seq<ChannelView>, name: Seq<char>) -> Seq<ChannelView> {
    if has_channel(store, name) {
        store
    } else {
        store.push(fresh_channel(name))
    }
}

/// The store after the topic of `name` is set, the channel created first
/// where it was unknown.
pub open spec fn with_topic(store: Seq<ChannelView>, name: Seq<char>, topic: Seq<char>) -> Seq<
    ChannelView,
> {
    let s = with_channel(store, name);
    let i = channel_index(s, name) as int;
    s.update(i, ChannelView { topic, ..s[i] })
}

/// The store after `entry` is appended to the backlog of `name`, the
/// channel created first where it was unknown.
pub open spec fn with_entry(
    store: Seq<ChannelView>,
    name: Seq<char>,
    entry: (Timespec, MessageView),
) -> Seq<ChannelView> {
    let s = with_channel(store, name);
    let i = channel_index(s, name) as int;
    s.update(i, ChannelView { messages: s[i].messages.push(entry), ..s[i] })
}

/// The store after the backlog of `name` is emptied.
pub open spec fn drained(store: Seq<ChannelView>, name: Seq<char>) -> Seq<ChannelView> {
    if has_channel(store, name) {
        let i = channel_index(store, name) as int;
        store.update(i, ChannelView { messages: Seq::empty(), ..store[i] })
    } else {
        store
    }
}

/// The names of the channels, in store order.
pub open spec fn names(store: Seq<ChannelView>) -> Seq<Seq<char>> {
    Seq::new(store.len(), |i: int| store[i].name)
}

/// Each channel's name with the length of its backlog, in store order.
pub open spec fn statuses(store: Seq<ChannelView>) -> Seq<(Seq<char>, nat)> {
    Seq::new(store.len(), |i: int| (store[i].name, store[i].messages.len()))
}

/// What a client is shown of one backlog entry: the entry's time, the
/// sender prefix as user, the trailing parameter as text.
pub open spec fn client_message(entry: (Timespec, MessageView)) -> ClientMessageView {
    ClientMessageView {
        time: entry.0,
        user: match entry.1.prefix {
            Some(p) => p,
            None => "Unknown User"@,
        },
        msg: match entry.1.trailing {
            Some(t) => t,
            None => "No message"@,
        },
    }
}

/// What a client is shown of a backlog.
pub open spec fn client_messages(backlog: Seq<(Timespec, MessageView)>) -> Seq<ClientMessageView> {
    Seq::new(backlog.len(), |i: int| client_message(backlog[i]))
}

/// The store after a TOPIC message: the channel named by the first
/// parameter gets the trailing parameter as topic, or the default topic.
/// A message without parameters names no channel and changes nothing.
pub open spec fn topic_set(store: Seq<ChannelView>, m: MessageView) -> Seq<ChannelView> {
    if m.parameters.len() == 0 {
        store
    } else {
        with_topic(
            store,
            m.parameters[0],
            match m.trailing {
                Some(t) => t,
                None => default_topic(),
            },
        )
    }
}

/// The store after a PRIVMSG or NOTICE: the entry joins the backlog of the
/// channel named by the first parameter. Messages to `AUTH` are dropped,
/// and a message without parameters names no channel.
pub open spec fn message_added(store: Seq<ChannelView>, entry: (Timespec, MessageView)) -> Seq<
    ChannelView,
> {
    if entry.1.parameters.len() == 0 || entry.1.parameters[0] == "AUTH"@ {
        store
    } else {
        with_entry(store, entry.1.parameters[0], entry)
    }
}

/// The response to a request for the messages of `name`.
pub open spec fn messages_response(store: Seq<ChannelView>, name: Seq<char>) -> ResponseView {
    if has_channel(store, name) {
        ResponseView::Messages(
            client_messages(store[channel_index(store, name) as int].messages),
        )
    } else {
        ResponseView::Error("Unknown channel "@ + name)
    }
}

/// The views of a list of channels.
pub open spec fn channels_of(v: Seq<Channel>) -> Seq<ChannelView> {
    Seq::new(v.len(), |i: int| v[i]@)
}

/// `channel_from` stays within `from..=len`, names a channel called `name`
/// unless it is the length, and no channel before it, from `from` on, has
/// that name.
pub proof fn lemma_channel_from(store: Seq<ChannelView>, name: Seq<char>, from: nat)
    requires
        from <= store.len(),
    ensures
        from <= channel_from(store, name, from) <= store.len(),
        channel_from(store, name, from) < store.len() ==> store[channel_from(
            store,
            name,
            from,
        ) as int].name == name,
        forall|i: int| from <= i < channel_from(store, name, from) ==> store[i].name != name,
    decreases store.len() - from,
{
    if from < store.len() && store[from as int].name != name {
        lemma_channel_from(store, name, from + 1);
    }
}

/// The search from `from` ends at `i` where `i` is the first channel from
/// there on called `name`.
pub proof fn lemma_channel_found(store: Seq<ChannelView>, name: Seq<char>, from: nat, i: nat)
    requires
        from <= i < store.len(),
        store[i as int].name == name,
        forall|k: int| from <= k < i ==> store[k].name != name,
    ensures
        channel_from(store, name, from) == i,
    decreases i - from,
{
    if from < i {
        lemma_channel_found(store, name, from + 1, i);
    }
}

/// The channels that the daemon knows, in the order in which it first
/// heard of them. No two have the same name.
pub struct ChannelStore {
    channels: Vec<Channel>,
}

impl View for ChannelStore {
    type V = Seq<ChannelView>;

    closed spec fn view(&self) -> Seq<ChannelView> {
        channels_of(self.channels@)
    }
}

impl ChannelStore {
    #[verifier::type_invariant]
    spec fn inv(self) -> bool {
        distinct_names(channels_of(self.channels@))
    }

    /// A store without channels.
    pub fn new() -> (s: ChannelStore)
        ensures
            s@ == Seq::<ChannelView>::empty(),
    {
        let s = ChannelStore { channels: Vec::new() };
        assert(s@ =~= Seq::<ChannelView>::empty());
        s
    }

    /// Does nothing when run; to the verifier it shows that no two channels
    /// of a store share a name.
    pub fn check(&self)
        ensures
            distinct_names(self@),
    {
        proof {
            use_type_invariant(self);
        }
    }

    /// The index of the channel called `name`, or the number of channels.
    fn position(&self, name: &str) -> (i: usize)
        ensures
            i == channel_index(self@, name@),
            i <= self@.len(),
    {
        let mut i: usize = 0;
        while i < self.channels.len() && !same_text(self.channels[i].name.as_str(), name)
            invariant
                i <= self.channels.len(),
                channel_index(self@, name@) == channel_from(self@, name@, i as nat),
            decreases self.channels.len() - i,
        {
            i = i + 1;
        }
        proof {
            lemma_channel_from(self@, name@, i as nat);
        }
        i
    }

    /// The index of the channel called `name`, which is created first where
    /// it was unknown.
    fn get_or_create(&mut self, name: &str) -> (i: usize)
        ensures
            final(self)@ == with_channel(old(self)@, name@),
            i == channel_index(final(self)@, name@),
            i < final(self)@.len(),
    {
        let i = self.position(name);
        if i >= self.channels.len() {
            proof {
                use_type_invariant(&*self);
                lemma_channel_from(self@, name@, 0);
            }
            let ghost before = self@;
            let mut list: Vec<Channel> = Vec::new();
            std::mem::swap(&mut self.channels, &mut list);
            list.push(Channel::new(name));
            proof {
                assert(channels_of(list@) =~= before.push(fresh_channel(name@)));
                lemma_channel_found(channels_of(list@), name@, 0, i as nat);
            }
            std::mem::swap(&mut self.channels, &mut list);
        }
        i
    }
}

/// Applies a TOPIC message to the store.
pub fn set_topic(channels: &mut ChannelStore, msg: Message)
    ensures
        final(channels)@ == topic_set(old(channels)@, msg@),
        distinct_names(final(channels)@),
{
    channels.check();
    if msg.parameters.len() == 0 {
        return ;
    }
    let i = channels.get_or_create(msg.parameters[0].as_str());
    let ghost mid = channels@;
    let mut list: Vec<Channel> = Vec::new();
    proof {
        use_type_invariant(&*channels);
    }
    std::mem::swap(&mut channels.channels, &mut list);
    let c = &mut list[i];
    match &msg.trailing {
        Some(t) => c.set_topic(t.as_str()),
        None => c.set_topic("No topic provided"),
    }
    proof {
        assert(channels_of(list@) =~= topic_set(old(channels)@, msg@));
        assert(distinct_names(channels_of(list@))) by {
            assert forall|a: int, b: int| 0 <= a < b < list@.len() implies (#[trigger] channels_of(
                list@,
            )[a]).name != (#[trigger] channels_of(list@)[b]).name by {
                assert(channels_of(list@)[a].name == mid[a].name);
                assert(channels_of(list@)[b].name == mid[b].name);
            }
        }
    }
    std::mem::swap(&mut channels.channels, &mut list);
    channels.check();
}

/// Applies a PRIVMSG or NOTICE to the store.
pub fn add_message(channels: &mut ChannelStore, msg: (Timespec, Message))
    ensures
        final(channels)@ == message_added(old(channels)@, (msg.0, msg.1@)),
        distinct_names(final(channels)@),
{
    channels.check();
    if msg.1.parameters.len() == 0 {
        return ;
    }
    if same_text(msg.1.parameters[0].as_str(), "AUTH") {
        return ;
    }
    let i = channels.get_or_create(msg.1.parameters[0].as_str());
    let ghost mid = channels@;
    let ghost entry = (msg.0, msg.1@);
    let mut list: Vec<Channel> = Vec::new();
    proof {
        use_type_invariant(&*channels);
    }
    std::mem::swap(&mut channels.channels, &mut list);
    let c = &mut list[i];
    c.add(msg);
    proof {
        assert(channels_of(list@) =~= message_added(old(channels)@, entry));
        assert(distinct_names(channels_of(list@))) by {
            assert forall|a: int, b: int| 0 <= a < b < list@.len() implies (#[trigger] channels_of(
                list@,
            )[a]).name != (#[trigger] channels_of(list@)[b]).name by {
                assert(channels_of(list@)[a].name == mid[a].name);
                assert(channels_of(list@)[b].name == mid[b].name);
            }
        }
    }
    std::mem::swap(&mut channels.channels, &mut list);
    channels.check();
}

/// The names of all channels, in store order.
pub fn get_channels(channels: &ChannelStore) -> (r: Response)
    ensures
        r@ == ResponseView::Channels(names(channels@)),
{
    let mut list: Vec<String> = Vec::new();
    let mut i: usize = 0;
    while i < channels.channels.len()
        invariant
            i <= channels.channels.len(),
            texts_of(list@) == names(channels@).take(i as int),
        decreases channels.channels.len() - i,
    {
        let ghost before = list@;
        list.push(channels.channels[i].name.clone());
        assert(texts_of(list@) =~= texts_of(before).push(channels@[i as int].name));
        i = i + 1;
        assert(names(channels@).take(i as int) =~= names(channels@).take(i - 1).push(
            channels@[i - 1].name,
        ));
    }
    assert(names(channels@).take(i as int) =~= names(channels@));
    Response::Channels(list)
}

/// Each channel's name with the number of messages waiting in it.
pub fn get_status(channels: &ChannelStore) -> (r: Response)
    ensures
        r@ == ResponseView::Status(statuses(channels@)),
{
    let mut list: Vec<(String, usize)> = Vec::new();
    let mut i: usize = 0;
    while i < channels.channels.len()
        invariant
            i <= channels.channels.len(),
            circ_comms::statuses_of(list@) == statuses(channels@).take(i as int),
        decreases channels.channels.len() - i,
    {
        let ghost before = list@;
        let c = &channels.channels[i];
        list.push((c.name.clone(), c.messages.len()));
        assert(circ_comms::statuses_of(list@) =~= circ_comms::statuses_of(before).push(
            statuses(channels@)[i as int],
        ));
        i = i + 1;
        assert(statuses(channels@).take(i as int) =~= statuses(channels@).take(i - 1).push(
            statuses(channels@)[i - 1],
        ));
    }
    assert(statuses(channels@).take(i as int) =~= statuses(channels@));
    Response::Status(list)
}

/// Hands out the backlog of `name` and empties it. An unknown channel is
/// answered with an error that names it.
pub fn get_messages(channels: &mut ChannelStore, name: &str) -> (r: Response)
    ensures
        r@ == messages_response(old(channels)@, name@),
        final(channels)@ == drained(old(channels)@, name@),
        distinct_names(final(channels)@),
{
    channels.check();
    let i = channels.position(name);
    if i >= channels.channels.len() {
        return Response::Error(String::from_str("Unknown channel ").concat(name));
    }
    let ghost before = channels@;
    let mut list: Vec<Channel> = Vec::new();
    proof {
        use_type_invariant(&*channels);
    }
    std::mem::swap(&mut channels.channels, &mut list);
    let mut out: Vec<circ_comms::Message> = Vec::new();
    let c = &mut list[i];
    let ghost backlog = c@.messages;
    let mut j: usize = 0;
    while j < c.messages.len()
        invariant
            j <= c.messages.len(),
            c@.messages == backlog,
            circ_comms::client_messages_of(out@) == client_messages(backlog).take(j as int),
        decreases c.messages.len() - j,
    {
        let m = &c.messages[j];
        let user = match &m.1.prefix {
            Some(p) => p.clone(),
            None => String::from_str("Unknown User"),
        };
        let text = match &m.1.trailing {
            Some(t) => t.clone(),
            None => String::from_str("No message"),
        };
        let ghost prior = out@;
        out.push(circ_comms::Message::new(m.0, user.as_str(), text.as_str()));
        assert(circ_comms::client_messages_of(out@) =~= circ_comms::client_messages_of(prior).push(
            client_message(backlog[j as int]),
        ));
        j = j + 1;
        assert(client_messages(backlog).take(j as int) =~= client_messages(backlog).take(
            j - 1,
        ).push(client_message(backlog[j - 1])));
    }
    assert(client_messages(backlog).take(j as int) =~= client_messages(backlog));
    c.clear();
    proof {
        assert(channels_of(list@) =~= drained(before, name@));
        assert(distinct_names(channels_of(list@))) by {
            assert forall|a: int, b: int| 0 <= a < b < list@.len() implies (#[trigger] channels_of(
                list@,
            )[a]).name != (#[trigger] channels_of(list@)[b]).name by {
                assert(channels_of(list@)[a].name == before[a].name);
                assert(channels_of(list@)[b].name == before[b].name);
            }
        }
    }
    std::mem::swap(&mut channels.channels, &mut list);
    channels.check();
    Response::Messages(out)
}

/// One of the dispatcher's two inputs.
#[derive(Clone, Copy, Debug, PartialEq, Eq, Structural)]
pub enum Source {
    /// Messages read from the chat server.
    Protocol,
    /// Requests brought by clients.
    Rpc,
}

/// One thing for the dispatcher to process.
#[derive(Clone, Debug, PartialEq, Eq)]
pub enum Event {
    /// A message from the chat server, with its time of receipt.
    Protocol(Timespec, Message),
    /// A request from a client.
    Rpc(Request),
}

/// An `Event` as mathematical values.
pub enum EventView {
    Protocol(Timespec, MessageView),
    Rpc(RequestView),
}

impl View for Event {
    type V = EventView;

    open spec fn view(&self) -> EventView {
        match *self {
            Event::Protocol(t, m) => EventView::Protocol(t, m@),
            Event::Rpc(r) => EventView::Rpc(r@),
        }
    }
}

/// The view of an optional response.
pub open spec fn opt_response(o: Option<Response>) -> Option<ResponseView> {
    match o {
        Some(r) => Some(r@),
        None => None,
    }
}

/// The dispatcher: the one owner of the channel store. It keeps the
/// commands that wait for the writer, whether it has stopped, and which of
/// its inputs it served last.
pub struct Connection {
    channels: ChannelStore,
    outgoing: VecDeque<String>,
    stopped: bool,
    last: Source,
}

/// What a `Connection` holds, as mathematical values.
pub struct ConnectionView {
    pub channels: Seq<ChannelView>,
    pub outgoing: Seq<Seq<char>>,
    pub stopped: bool,
    pub last: Source,
}

impl View for Connection {
    type V = ConnectionView;

    closed spec fn view(&self) -> ConnectionView {
        ConnectionView {
            channels: self.channels@,
            outgoing: texts_of(self.outgoing@),
            stopped: self.stopped,
            last: self.last,
        }
    }
}

/// The dispatcher as it starts: no channel known, the two commands that
/// introduce the user waiting for the writer.
pub open spec fn initial(nickname: Seq<char>, realname: Seq<char>) -> ConnectionView {
    ConnectionView {
        channels: Seq::empty(),
        outgoing: seq![nick_line(nickname), user_line(realname)],
        stopped: false,
        last: Source::Rpc,
    }
}

/// The state with one more command waiting for the writer.
pub open spec fn enqueued(c: ConnectionView, line: Seq<char>) -> ConnectionView {
    ConnectionView { outgoing: c.outgoing.push(line), ..c }
}

/// The state after an active dispatcher has processed one message from the
/// chat server.
///
/// `ERROR` changes nothing. `PING` with a trailing parameter enqueues the
/// `PONG` that echoes it, and without one enqueues nothing. `TOPIC` sets a
/// topic; `PRIVMSG` and `NOTICE` add to a backlog. Any other command
/// changes nothing.
pub open spec fn message_step(c: ConnectionView, time: Timespec, m: MessageView) -> ConnectionView {
    let c = ConnectionView { last: Source::Protocol, ..c };
    if m.command == "ERROR"@ {
        c
    } else if m.command == "PING"@ {
        match m.trailing {
            Some(data) => enqueued(c, pong_line(data)),
            None => c,
        }
    } else if m.command == "TOPIC"@ {
        ConnectionView { channels: topic_set(c.channels, m), ..c }
    } else if m.command == "PRIVMSG"@ || m.command == "NOTICE"@ {
        ConnectionView { channels: message_added(c.channels, (time, m)), ..c }
    } else {
        c
    }
}

/// The state after an active dispatcher has processed one request, and
/// the response it gives, if the request has one.
pub open spec fn request_step(c: ConnectionView, r: RequestView) -> (
    ConnectionView,
    Option<ResponseView>,
) {
    let c = ConnectionView { last: Source::Rpc, ..c };
    match r {
        RequestView::ListChannels => (c, Some(ResponseView::Channels(names(c.channels)))),
        RequestView::GetStatus => (c, Some(ResponseView::Status(statuses(c.channels)))),
        RequestView::GetMessages(name) => (
            ConnectionView { channels: drained(c.channels, name), ..c },
            Some(messages_response(c.channels, name)),
        ),
        RequestView::GetUsers(_) => (c, Some(ResponseView::Users(Seq::empty()))),
        RequestView::Join(channel) => (enqueued(c, join_line(channel)), None),
        RequestView::Part(channel) => (enqueued(c, part_line(channel)), None),
        RequestView::SendMessage(channel, text) => (enqueued(c, msg_line(channel, text)), None),
        RequestView::Quit => (ConnectionView { stopped: true, ..enqueued(c, quit_line()) }, None),
    }
}

/// One turn of the dispatcher. Once stopped it takes no further event:
/// nothing changes and nothing is answered.
pub open spec fn step(c: ConnectionView, e: EventView) -> (ConnectionView, Option<ResponseView>) {
    if c.stopped {
        (c, None)
    } else {
        match e {
            EventView::Protocol(time, m) => (message_step(c, time, m), None),
            EventView::Rpc(r) => request_step(c, r),
        }
    }
}

/// The other input.
pub open spec fn other(s: Source) -> Source {
    match s {
        Source::Protocol => Source::Rpc,
        Source::Rpc => Source::Protocol,
    }
}

/// Which input an active dispatcher serves next: the one that has work;
/// where both have, the one it did not serve last; none where neither has.
pub open spec fn pick(last: Source, protocol_pending: bool, rpc_pending: bool) -> Option<Source> {
    if protocol_pending && rpc_pending {
        Some(other(last))
    } else if protocol_pending {
        Some(Source::Protocol)
    } else if rpc_pending {
        Some(Source::Rpc)
    } else {
        None
    }
}

/// Which input the dispatcher serves next. Once stopped it serves none.
pub open spec fn next_input(c: ConnectionView, protocol_pending: bool, rpc_pending: bool) -> Option<
    Source,
> {
    if c.stopped {
        None
    } else {
        pick(c.last, protocol_pending, rpc_pending)
    }
}

/// Processes one event: the dispatcher's turn. Returns the response, for
/// an event that has one.
pub fn process_task(connection: &mut Connection, event: Event) -> (response: Option<Response>)
    ensures
        final(connection)@ == step(old(connection)@, event@).0,
        opt_response(response) == step(old(connection)@, event@).1,
        distinct_names(final(connection)@.channels),
{
    connection.channels.check();
    if connection.stopped {
        return None;
    }
    let ghost before = connection@;
    match event {
        Event::Protocol(time, msg) => {
            connection.last = Source::Protocol;
            if same_text(msg.command.as_str(), "ERROR") {
            } else if same_text(msg.command.as_str(), "PING") {
                match &msg.trailing {
                    Some(data) => {
                        connection.outgoing.push_back(Message::pong(data.as_str()));
                        assert(connection@.outgoing =~= before.outgoing.push(pong_line(data@)));
                    },
                    None => {},
                }
            } else if same_text(msg.command.as_str(), "TOPIC") {
                set_topic(&mut connection.channels, msg);
            } else if same_text(msg.command.as_str(), "PRIVMSG") || same_text(
                msg.command.as_str(),
                "NOTICE",
            ) {
                add_message(&mut connection.channels, (time, msg));
            }
            None
        },
        Event::Rpc(request) => {
            connection.last = Source::Rpc;
            match request {
                Request::ListChannels => Some(get_channels(&connection.channels)),
                Request::GetStatus => Some(get_status(&connection.channels)),
                Request::GetMessages(name) => {
                    Some(get_messages(&mut connection.channels, name.as_str()))
                },
                Request::GetUsers(_) => {
                    let r = Response::Users(Vec::new());
                    assert(r@ == ResponseView::Users(Seq::empty())) by {
                        assert(texts_of(Seq::<String>::empty()) =~= Seq::empty());
                    }
                    Some(r)
                },
                Request::Join(channel) => {
                    connection.outgoing.push_back(Message::join(channel.as_str()));
                    assert(connection@.outgoing =~= before.outgoing.push(join_line(channel@)));
                    None
                },
                Request::Part(channel) => {
                    connection.outgoing.push_back(Message::part(channel.as_str()));
                    assert(connection@.outgoing =~= before.outgoing.push(part_line(channel@)));
                    None
                },
                Request::SendMessage(channel, text) => {
                    connection.outgoing.push_back(Message::msg(channel.as_str(), text.as_str()));
                    assert(connection@.outgoing =~= before.outgoing.push(
                        msg_line(channel@, text@),
                    ));
                    None
                },
                Request::Quit => {
                    connection.outgoing.push_back(Message::quit());
                    assert(connection@.outgoing =~= before.outgoing.push(quit_line()));
                    connection.stopped = true;
                    None
                },
            }
        },
    }
}

/// The writer's turn: takes the command that has waited longest and hands
/// out its bytes, to be written in one piece. `None` when nothing waits.
pub fn tx_task(connection: &mut Connection) -> (bytes: Option<Vec<u8>>)
    ensures
        match bytes {
            Some(b) => {
                &&& old(connection)@.outgoing.len() > 0
                &&& b@ == vstd::utf8::encode_utf8(old(connection)@.outgoing[0])
                &&& final(connection)@ == (ConnectionView {
                    outgoing: old(connection)@.outgoing.skip(1),
                    ..old(connection)@
                })
            },
            None => old(connection)@.outgoing.len() == 0 && final(connection)@ == old(
                connection,
            )@,
        },
{
    match connection.outgoing.pop_front() {
        Some(line) => {
            assert(connection@.outgoing =~= old(connection)@.outgoing.skip(1));
            Some(line.as_str().as_bytes_vec())
        },
        None => None,
    }
}

impl Connection {
    /// A dispatcher at its start, for the user that `config` describes.
    pub fn new(config: ConnectionConfig) -> (c: Connection)
        ensures
            c@ == initial(config.nickname@, config.realname@),
            distinct_names(c@.channels),
    {
        let mut outgoing: VecDeque<String> = VecDeque::new();
        outgoing.push_back(Message::nick(config.nickname.as_str()));
        outgoing.push_back(Message::user(config.realname.as_str()));
        let c = Connection {
            channels: ChannelStore::new(),
            outgoing,
            stopped: false,
            last: Source::Rpc,
        };
        assert(c@.outgoing =~= seq![nick_line(config.nickname@), user_line(config.realname@)]);
        c
    }

    /// Whether the dispatcher has processed a quit request.
    pub fn is_stopped(&self) -> (b: bool)
        ensures
            b == self@.stopped,
    {
        self.stopped
    }

    /// How many commands wait for the writer.
    pub fn pending(&self) -> (n: usize)
        ensures
            n == self@.outgoing.len(),
    {
        self.outgoing.len()
    }

    /// Which input to serve next, given which of them have work. A stopped
    /// dispatcher serves none.
    pub fn select(&self, protocol_pending: bool, rpc_pending: bool) -> (s: Option<Source>)
        ensures
            s == next_input(self@, protocol_pending, rpc_pending),
    {
        if self.stopped {
            None
        } else if protocol_pending && rpc_pending {
            match self.last {
                Source::Protocol => Some(Source::Rpc),
                Source::Rpc => Some(Source::Protocol),
            }
        } else if protocol_pending {
            Some(Source::Protocol)
        } else if rpc_pending {
            Some(Source::Rpc)
        } else {
            None
        }
    }

    /// Processes a request without looking at its response.
    pub fn request(&mut self, request: Request)
        ensures
            final(self)@ == step(old(self)@, EventView::Rpc(request@)).0,
            distinct_names(final(self)@.channels),
    {
        let _ = process_task(self, Event::Rpc(request));
    }

    /// Processes a request and returns its response: `None` for a request
    /// that has none, and once the dispatcher has stopped.
    pub fn request_response(&mut self, request: Request) -> (response: Option<Response>)
        ensures
            final(self)@ == step(old(self)@, EventView::Rpc(request@)).0,
            opt_response(response) == step(old(self)@, EventView::Rpc(request@)).1,
            distinct_names(final(self)@.channels),
    {
        process_task(self, Event::Rpc(request))
    }
}

} // verus!
