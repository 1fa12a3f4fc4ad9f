//! What holds of the dispatcher over every state and every event.

use vstd::prelude::*;
use crate::circ_comms::{answered, answers, RequestView, ResponseView};
use crate::clock::Timespec;
use crate::irc::{
    channel_index, client_messages, distinct_names, drained, has_channel, lemma_channel_found,
    lemma_channel_from, names, next_input, other, statuses, step, with_channel, with_entry,
    with_topic, ConnectionView, EventView, Source,
};
use crate::irc_channel::{default_topic, fresh_channel, ChannelView};
use crate::irc_message::{
    command_view, lemma_ping_parses, parse_line, pong_line, MessageView, ParseError,
};

verus! {

/// The event comes from the given input.
pub open spec fn from_source(e: EventView, s: Source) -> bool {
    match e {
        EventView::Protocol(_, _) => s == Source::Protocol,
        EventView::Rpc(_) => s == Source::Rpc,
    }
}

/// The command words that the dispatcher tells apart are five different
/// words.
pub proof fn lemma_command_words()
    ensures
        "ERROR"@ != "PING"@,
        "ERROR"@ != "TOPIC"@,
        "ERROR"@ != "PRIVMSG"@,
        "ERROR"@ != "NOTICE"@,
        "PING"@ != "TOPIC"@,
        "PING"@ != "PRIVMSG"@,
        "PING"@ != "NOTICE"@,
        "TOPIC"@ != "PRIVMSG"@,
        "TOPIC"@ != "NOTICE"@,
        "PRIVMSG"@ != "NOTICE"@,
{
    reveal_strlit("ERROR");
    reveal_strlit("PING");
    reveal_strlit("TOPIC");
    reveal_strlit("PRIVMSG");
    reveal_strlit("NOTICE");
    assert("ERROR"@.len() == 5 && "ERROR"@[0] == 'E');
    assert("PING"@.len() == 4);
    assert("TOPIC"@.len() == 5 && "TOPIC"@[0] == 'T');
    assert("PRIVMSG"@.len() == 7);
    assert("NOTICE"@.len() == 6);
}

/// A channel that is created sits at the end of the store, and is found
/// there.
pub proof fn lemma_created_last(store: Seq<ChannelView>, name: Seq<char>)
    requires
        !has_channel(store, name),
    ensures
        with_channel(store, name) == store.push(fresh_channel(name)),
        channel_index(with_channel(store, name), name) == store.len(),
{
    lemma_channel_from(store, name, 0);
    lemma_channel_found(store.push(fresh_channel(name)), name, 0, store.len());
}

/// Two stores of the same length whose channels agree in name, place by
/// place, both have distinct names if one has.
pub proof fn lemma_same_names(s: Seq<ChannelView>, t: Seq<ChannelView>)
    requires
        distinct_names(s),
        s.len() == t.len(),
        forall|i: int| 0 <= i < s.len() ==> (#[trigger] t[i]).name == s[i].name,
    ensures
        distinct_names(t),
{
    assert forall|i: int, j: int| 0 <= i < j < t.len() implies (#[trigger] t[i]).name != (
    #[trigger] t[j]).name by {
        assert(s[i].name != s[j].name);
    }
}

/// Creating a channel where it was unknown keeps the names distinct, and
/// the channel is known afterwards.
pub proof fn lemma_with_channel(store: Seq<ChannelView>, name: Seq<char>)
    requires
        distinct_names(store),
    ensures
        distinct_names(with_channel(store, name)),
        has_channel(with_channel(store, name), name),
{
    let grown = with_channel(store, name);
    lemma_channel_from(store, name, 0);
    if !has_channel(store, name) {
        lemma_created_last(store, name);
        assert forall|i: int, j: int| 0 <= i < j < grown.len() implies (#[trigger] grown[i]).name
            != (#[trigger] grown[j]).name by {
            if j < store.len() {
                assert(store[i].name != store[j].name);
            } else {
                assert(grown[i] == store[i]);
            }
        }
    }
}

/// Whatever a turn does to the store, no two channels share a name
/// afterwards if none did before.
pub proof fn lemma_names_stay_distinct(c: ConnectionView, e: EventView)
    requires
        distinct_names(c.channels),
    ensures
        distinct_names(step(c, e).0.channels),
{
    let after = step(c, e).0.channels;
    if c.stopped {
    } else {
        match e {
            EventView::Protocol(time, m) => {
                if m.parameters.len() > 0 {
                    let name = m.parameters[0];
                    let grown = with_channel(c.channels, name);
                    lemma_with_channel(c.channels, name);
                    if after != c.channels {
                        assert(after.len() == grown.len());
                        assert forall|i: int| 0 <= i < grown.len() implies (#[trigger] after[i]).name
                            == grown[i].name by {}
                        lemma_same_names(grown, after);
                    }
                }
            },
            EventView::Rpc(r) => {
                match r {
                    RequestView::GetMessages(name) => {
                        assert forall|i: int| 0 <= i < c.channels.len() implies (
                        #[trigger] after[i]).name == c.channels[i].name by {}
                        lemma_same_names(c.channels, after);
                    },
                    _ => {},
                }
            },
        }
    }
}

/// Setting a topic changes one channel of the store, created first where
/// it was unknown: the store grows by one channel at most, and the
/// channels that were there keep their names and places.
pub proof fn lemma_topic_store(store: Seq<ChannelView>, name: Seq<char>, topic: Seq<char>)
    ensures
        store.len() <= with_topic(store, name, topic).len() <= store.len() + 1,
        forall|i: int|
            0 <= i < store.len() ==> (#[trigger] with_topic(store, name, topic)[i]).name
                == store[i].name,
{
    let grown = with_channel(store, name);
    let after = with_topic(store, name, topic);
    lemma_channel_from(store, name, 0);
    if !has_channel(store, name) {
        lemma_created_last(store, name);
    }
    assert forall|i: int| 0 <= i < store.len() implies (#[trigger] after[i]).name
        == store[i].name by {
        assert(grown[i] == store[i]);
    }
}

/// Adding an entry changes one channel of the store, created first where
/// it was unknown: the store grows by one channel at most, and the
/// channels that were there keep their names and places.
pub proof fn lemma_entry_store(
    store: Seq<ChannelView>,
    name: Seq<char>,
    entry: (Timespec, MessageView),
)
    ensures
        store.len() <= with_entry(store, name, entry).len() <= store.len() + 1,
        forall|i: int|
            0 <= i < store.len() ==> (#[trigger] with_entry(store, name, entry)[i]).name
                == store[i].name,
{
    let grown = with_channel(store, name);
    let after = with_entry(store, name, entry);
    lemma_channel_from(store, name, 0);
    if !has_channel(store, name) {
        lemma_created_last(store, name);
    }
    assert forall|i: int| 0 <= i < store.len() implies (#[trigger] after[i]).name
        == store[i].name by {
        assert(grown[i] == store[i]);
    }
}

/// Channels stay: a turn never removes or renames a channel, and creates
/// one at most, at the end of the store.
pub proof fn lemma_channels_persist(c: ConnectionView, e: EventView)
    ensures
        c.channels.len() <= step(c, e).0.channels.len() <= c.channels.len() + 1,
        names(step(c, e).0.channels).take(c.channels.len() as int) == names(c.channels),
{
    let after = step(c, e).0.channels;
    if after != c.channels {
        match e {
            EventView::Protocol(time, m) => {
                let name = m.parameters[0];
                if m.command == "TOPIC"@ {
                    let topic = match m.trailing {
                        Some(t) => t,
                        None => default_topic(),
                    };
                    lemma_topic_store(c.channels, name, topic);
                } else {
                    lemma_entry_store(c.channels, name, (time, m));
                }
            },
            EventView::Rpc(r) => {
                match r {
                    RequestView::GetMessages(name) => {
                        lemma_channel_from(c.channels, name, 0);
                    },
                    _ => {},
                }
            },
        }
    }
    assert(names(after).take(c.channels.len() as int) =~= names(c.channels));
}

/// Commands wait in the order in which they were asked for: a turn leaves
/// the commands that wait as they are and adds one at most, behind them.
pub proof fn lemma_commands_keep_order(c: ConnectionView, e: EventView)
    ensures
        c.outgoing.len() <= step(c, e).0.outgoing.len() <= c.outgoing.len() + 1,
        step(c, e).0.outgoing.take(c.outgoing.len() as int) == c.outgoing,
{
    let after = step(c, e).0.outgoing;
    assert(after.take(c.outgoing.len() as int) =~= c.outgoing);
}

/// A ping is answered by exactly one pong that echoes its data, and the
/// store is left alone.
pub proof fn lemma_ping_pong(c: ConnectionView, time: Timespec, m: MessageView)
    requires
        !c.stopped,
        m.command == "PING"@,
        m.trailing is Some,
    ensures
        step(c, EventView::Protocol(time, m)).0.outgoing == c.outgoing.push(
            pong_line(m.trailing->0),
        ),
        step(c, EventView::Protocol(time, m)).0.channels == c.channels,
        step(c, EventView::Protocol(time, m)).1 is None,
{
    lemma_command_words();
}

/// From the line to the answer: a ping line parses as a ping, and the
/// dispatcher answers it with the one pong that echoes its data, without
/// touching the store.
pub proof fn lemma_ping_line_is_answered(c: ConnectionView, time: Timespec, data: Seq<char>)
    requires
        !c.stopped,
    ensures
        parse_line(time, "PING :"@ + data) == Ok::<MessageView, ParseError>(
            command_view(time, "PING"@, Seq::empty(), Some(data)),
        ),
        step(
            c,
            EventView::Protocol(time, command_view(time, "PING"@, Seq::empty(), Some(data))),
        ).0 == (ConnectionView {
            outgoing: c.outgoing.push(pong_line(data)),
            last: Source::Protocol,
            ..c
        }),
{
    lemma_ping_parses(time, data);
    lemma_ping_pong(c, time, command_view(time, "PING"@, Seq::empty(), Some(data)));
}

/// Lazy creation: a message to a channel not heard of before creates it,
/// and the status that follows lists it, last, with one message waiting.
pub proof fn lemma_lazy_creation(c: ConnectionView, time: Timespec, m: MessageView)
    requires
        !c.stopped,
        m.command == "PRIVMSG"@ || m.command == "NOTICE"@,
        m.parameters.len() > 0,
        m.parameters[0] != "AUTH"@,
        !has_channel(c.channels, m.parameters[0]),
    ensures
        ({
            let c1 = step(c, EventView::Protocol(time, m)).0;
            let answer = step(c1, EventView::Rpc(RequestView::GetStatus)).1;
            &&& has_channel(c1.channels, m.parameters[0])
            &&& answer == Some(
                ResponseView::Status(statuses(c.channels).push((m.parameters[0], 1nat))),
            )
        }),
{
    lemma_command_words();
    let name = m.parameters[0];
    lemma_created_last(c.channels, name);
    lemma_channel_from(c.channels, name, 0);
    let c1 = step(c, EventView::Protocol(time, m)).0;
    assert(c1.channels == with_entry(c.channels, name, (time, m)));
    let n = c.channels.len() as int;
    assert(c1.channels.len() == n + 1);
    assert(c1.channels[n].name == name);
    assert(c1.channels[n].messages == Seq::<(Timespec, MessageView)>::empty().push((time, m)));
    assert forall|k: int| 0 <= k < n implies c1.channels[k].name != name by {
        assert(c1.channels[k] == c.channels[k]);
    }
    lemma_channel_found(c1.channels, name, 0, n as nat);
    assert(statuses(c1.channels) =~= statuses(c.channels).push((name, 1nat)));
}

/// A message addressed to `AUTH` leaves the store as it was: no channel is
/// created, and the list of channel names stays the same.
pub proof fn lemma_auth_suppressed(c: ConnectionView, time: Timespec, m: MessageView)
    requires
        m.command == "PRIVMSG"@ || m.command == "NOTICE"@,
        m.parameters.len() > 0,
        m.parameters[0] == "AUTH"@,
    ensures
        step(c, EventView::Protocol(time, m)).0.channels == c.channels,
        names(step(c, EventView::Protocol(time, m)).0.channels) == names(c.channels),
        step(c, EventView::Protocol(time, m)).0.outgoing == c.outgoing,
{
    lemma_command_words();
}

/// Drain on read: a request for the messages of a known channel returns
/// its whole backlog, and the same request right after it returns none.
pub proof fn lemma_drain_on_read(c: ConnectionView, name: Seq<char>)
    requires
        !c.stopped,
        has_channel(c.channels, name),
    ensures
        ({
            let first = step(c, EventView::Rpc(RequestView::GetMessages(name)));
            let second = step(first.0, EventView::Rpc(RequestView::GetMessages(name)));
            &&& first.1 == Some(
                ResponseView::Messages(
                    client_messages(c.channels[channel_index(c.channels, name) as int].messages),
                ),
            )
            &&& second.1 == Some(ResponseView::Messages(Seq::empty()))
            &&& second.0.channels == first.0.channels
        }),
{
    let i = channel_index(c.channels, name);
    lemma_channel_from(c.channels, name, 0);
    let first = step(c, EventView::Rpc(RequestView::GetMessages(name)));
    let d = first.0.channels;
    assert(d == drained(c.channels, name));
    assert(d[i as int].name == name);
    assert forall|k: int| 0 <= k < i implies d[k].name != name by {
        assert(d[k] == c.channels[k]);
    }
    lemma_channel_found(d, name, 0, i);
    assert(d[i as int].messages == Seq::<(Timespec, MessageView)>::empty());
    assert(client_messages(d[i as int].messages) =~= Seq::empty());
    assert(drained(d, name) =~= d);
}

/// A request for the messages of a channel never heard of is answered
/// with an error whose text ends in the channel's name, and changes
/// nothing in the store.
pub proof fn lemma_unknown_channel(c: ConnectionView, name: Seq<char>)
    requires
        !c.stopped,
        !has_channel(c.channels, name),
    ensures
        ({
            let r = step(c, EventView::Rpc(RequestView::GetMessages(name)));
            &&& r.1 matches Some(ResponseView::Error(text))
            &&& text.len() >= name.len()
            &&& text.skip(text.len() - name.len()) == name
            &&& r.0.channels == c.channels
        }),
{
    let text = "Unknown channel "@ + name;
    assert(text.skip(text.len() - name.len()) == name);
}

/// Daemon and client agree: an active dispatcher answers exactly the
/// requests that are to be answered, and with a response of a kind that
/// the client accepts for the request. A stopped dispatcher answers none.
pub proof fn lemma_answers_are_accepted(c: ConnectionView, r: RequestView)
    ensures
        match step(c, EventView::Rpc(r)).1 {
            Some(response) => !c.stopped && answered(r) && answers(r, response),
            None => c.stopped || !answered(r),
        },
{
}

/// Fairness: while both inputs have work, the dispatcher serves them in
/// turn. Whichever input it serves now, it serves the other one next, so
/// an input with work waits for one turn at most. The one exception is a
/// quit request, which stops the dispatcher for good.
pub proof fn lemma_fair_turns(c: ConnectionView, e: EventView, more: bool)
    requires
        !c.stopped,
        from_source(e, other(c.last)),
    ensures
        next_input(c, true, true) == Some(other(c.last)),
        step(c, e).0.stopped <==> e == EventView::Rpc(RequestView::Quit),
        !step(c, e).0.stopped ==> (match other(c.last) {
            Source::Protocol => next_input(step(c, e).0, more, true) == Some(Source::Rpc),
            Source::Rpc => next_input(step(c, e).0, true, more) == Some(Source::Protocol),
        }),
{
}

/// An input that alone has work is served at once.
pub proof fn lemma_lone_input_served(c: ConnectionView)
    requires
        !c.stopped,
    ensures
        next_input(c, true, false) == Some(Source::Protocol),
        next_input(c, false, true) == Some(Source::Rpc),
        next_input(c, false, false) is None,
{
}

} // verus!
