//! A channel: its topic and the backlog of messages not yet retrieved.

use vstd::prelude::*;
use vstd::string::*;
use crate::clock::Timespec;
use crate::irc_message::{Message, MessageView};

verus! {

/// Someone present on a channel.
#[derive(Clone, Debug, PartialEq, Eq)]
pub struct User {
    pub name: String,
    pub client: String,
    pub address: String,
}

/// What a `User` holds, as mathematical text.
pub struct UserView {
    pub name: Seq<char>,
    pub client: Seq<char>,
    pub address: Seq<char>,
}

impl View for User {
    type V = UserView;

    open spec fn view(&self) -> UserView {
        UserView { name: self.name@, client: self.client@, address: self.address@ }
    }
}

/// A channel as the daemon knows it.
#[derive(Clone, Debug, PartialEq, Eq)]
pub struct Channel {
    pub name: String,
    pub topic: String,
    pub users: Vec<User>,
    pub messages: Vec<(Timespec, Message)>,
}

/// What a `Channel` holds, as mathematical values.
pub struct ChannelView {
    pub name: Seq<char>,
    pub topic: Seq<char>,
    pub users: Seq<UserView>,
    pub messages: Seq<(Timespec, MessageView)>,
}

/// The views of a list of users.
pub open spec fn users_of(v: Seq<User>) -> Seq<UserView> {
    Seq::new(v.len(), |i: int| v[i]@)
}

/// The views of a backlog.
pub open spec fn entries_of(v: Seq<(Timespec, Message)>) -> Seq<(Timespec, MessageView)> {
    Seq::new(v.len(), |i: int| (v[i].0, v[i].1@))
}

impl View for Channel {
    type V = ChannelView;

    open spec fn view(&self) -> ChannelView {
        ChannelView {
            name: self.name@,
            topic: self.topic@,
            users: users_of(self.users@),
            messages: entries_of(self.messages@),
        }
    }
}

/// The topic of a channel whose topic was never given.
pub open spec fn default_topic() -> Seq<char> {
    "No topic provided"@
}

/// A channel as it is when first heard of: default topic, nobody on it,
/// nothing in its backlog.
pub open spec fn fresh_channel(name: Seq<char>) -> ChannelView {
    ChannelView {
        name,
        topic: default_topic(),
        users: Seq::empty(),
        messages: Seq::empty(),
    }
}

impl Channel {
    /// A new channel of the given name.
    pub fn new(name: &str) -> (c: Channel)
        ensures
            c@ == fresh_channel(name@),
    {
        let c = Channel {
            name: String::from_str(name),
            topic: String::from_str("No topic provided"),
            users: Vec::new(),
            messages: Vec::new(),
        };
        assert(c@.users =~= Seq::empty());
        assert(c@.messages =~= Seq::empty());
        c
    }

    /// Replaces the topic.
    pub fn set_topic(&mut self, topic: &str)
        ensures
            final(self)@ == (ChannelView { topic: topic@, ..old(self)@ }),
    {
        self.topic = String::from_str(topic);
    }

    /// Appends one entry to the backlog.
    pub fn add(&mut self, msg: (Timespec, Message))
        ensures
            final(self)@ == (ChannelView {
                messages: old(self)@.messages.push((msg.0, msg.1@)),
                ..old(self)@
            }),
    {
        self.messages.push(msg);
        assert(entries_of(self.messages@) =~= entries_of(old(self).messages@).push(
            (msg.0, msg.1@),
        ));
    }

    /// Empties the backlog.
    pub fn clear(&mut self)
        ensures
            final(self)@ == (ChannelView { messages: Seq::empty(), ..old(self)@ }),
    {
        self.messages.clear();
        assert(entries_of(self.messages@) =~= Seq::empty());
    }
}

} // verus!
