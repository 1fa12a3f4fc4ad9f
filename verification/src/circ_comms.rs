//! What daemon and clients say to each other over the local socket: the
//! requests, the responses, and the frames that carry their encodings.

use vstd::prelude::*;
use vstd::string::*;
use vstd::utf8::*;
use crate::clock::Timespec;
use crate::irc_message::texts_of;
use crate::text::utf8_text;

verus! {

/// The path of the daemon's socket: below the home directory where one is
/// known, else below `/tmp`.
pub fn address(home: Option<&str>) -> (path: String)
    ensures
        path@ == match home {
            Some(h) => h@ + "/.circd/circd-socket"@,
            None => "/tmp/circd-socket"@,
        },
{
    match home {
        Some(h) => String::from_str(h).concat("/.circd/circd-socket"),
        None => String::from_str("/tmp/circd-socket"),
    }
}

/// What a client asks of the daemon.
#[derive(Clone, Debug, PartialEq, Eq)]
pub enum Request {
    ListChannels,
    GetStatus,
    GetMessages(String),
    GetUsers(String),
    Join(String),
    Part(String),
    SendMessage(String, String),
    Quit,
}

/// A `Request` as mathematical text.
pub enum RequestView {
    ListChannels,
    GetStatus,
    GetMessages(Seq<char>),
    GetUsers(Seq<char>),
    Join(Seq<char>),
    Part(Seq<char>),
    SendMessage(Seq<char>, Seq<char>),
    Quit,
}

impl View for Request {
    type V = RequestView;

    open spec fn view(&self) -> RequestView {
        match *self {
            Request::ListChannels => RequestView::ListChannels,
            Request::GetStatus => RequestView::GetStatus,
            Request::GetMessages(c) => RequestView::GetMessages(c@),
            Request::GetUsers(c) => RequestView::GetUsers(c@),
            Request::Join(c) => RequestView::Join(c@),
            Request::Part(c) => RequestView::Part(c@),
            Request::SendMessage(c, t) => RequestView::SendMessage(c@, t@),
            Request::Quit => RequestView::Quit,
        }
    }
}

/// One buffered message as a client sees it.
#[derive(Clone, Debug, PartialEq, Eq)]
pub struct Message {
    pub time: Timespec,
    pub user: String,
    pub msg: String,
}

/// A client message as mathematical text.
pub struct ClientMessageView {
    pub time: Timespec,
    pub user: Seq<char>,
    pub msg: Seq<char>,
}

impl View for Message {
    type V = ClientMessageView;

    open spec fn view(&self) -> ClientMessageView {
        ClientMessageView { time: self.time, user: self.user@, msg: self.msg@ }
    }
}

impl Message {
    /// A client message of the given time, user and text.
    pub fn new(time: Timespec, user: &str, msg: &str) -> (m: Message)
        ensures
            m@ == (ClientMessageView { time, user: user@, msg: msg@ }),
    {
        Message { time, user: String::from_str(user), msg: String::from_str(msg) }
    }
}

/// What the daemon answers.
#[derive(Clone, Debug, PartialEq, Eq)]
pub enum Response {
    Channels(Vec<String>),
    Status(Vec<(String, usize)>),
    Messages(Vec<Message>),
    Users(Vec<String>),
    Error(String),
}

/// A `Response` as mathematical values.
pub enum ResponseView {
    Channels(Seq<Seq<char>>),
    Status(Seq<(Seq<char>, nat)>),
    Messages(Seq<ClientMessageView>),
    Users(Seq<Seq<char>>),
    Error(Seq<char>),
}

/// The views of a status list.
pub open spec fn statuses_of(v: Seq<(String, usize)>) -> Seq<(Seq<char>, nat)> {
    Seq::new(v.len(), |i: int| (v[i].0@, v[i].1 as nat))
}

/// The views of a list of client messages.
pub open spec fn client_messages_of(v: Seq<Message>) -> Seq<ClientMessageView> {
    Seq::new(v.len(), |i: int| v[i]@)
}

impl View for Response {
    type V = ResponseView;

    open spec fn view(&self) -> ResponseView {
        match *self {
            Response::Channels(v) => ResponseView::Channels(texts_of(v@)),
            Response::Status(v) => ResponseView::Status(statuses_of(v@)),
            Response::Messages(v) => ResponseView::Messages(client_messages_of(v@)),
            Response::Users(v) => ResponseView::Users(texts_of(v@)),
            Response::Error(t) => ResponseView::Error(t@),
        }
    }
}

/// The requests that the daemon answers with a response.
pub open spec fn answered(r: RequestView) -> bool {
    r is ListChannels || r is GetStatus || r is GetMessages || r is GetUsers
}

/// The kinds of response that the daemon gives to a request: the list
/// asked for, and for the messages of a channel also the error that says
/// that the channel is unknown. A request that is not answered admits none.
pub open spec fn answers(r: RequestView, response: ResponseView) -> bool {
    match r {
        RequestView::ListChannels => response is Channels,
        RequestView::GetStatus => response is Status,
        RequestView::GetMessages(_) => response is Messages || response is Error,
        RequestView::GetUsers(_) => response is Users,
        _ => false,
    }
}

/// What the acceptor does with a connection once it has read its request.
#[derive(Clone, Copy, Debug, PartialEq, Eq, Structural)]
pub enum Exchange {
    /// Forward the request, wait for the response, write it, close.
    Reply,
    /// Forward the request and close without waiting.
    Forward,
    /// Forward the request and accept no further connection.
    Shutdown,
}

impl Request {
    /// This request is answered with a response.
    pub open spec fn is_answered(&self) -> bool {
        answered(self@)
    }

    /// Whether the daemon answers this request with a response.
    pub fn expects_response(&self) -> (b: bool)
        ensures
            b == self.is_answered(),
    {
        match self {
            Request::ListChannels => true,
            Request::GetStatus => true,
            Request::GetMessages(_) => true,
            Request::GetUsers(_) => true,
            _ => false,
        }
    }

    /// How the acceptor handles a connection that brought this request.
    pub fn exchange(&self) -> (e: Exchange)
        ensures
            e == if self.is_answered() {
                Exchange::Reply
            } else if self is Quit {
                Exchange::Shutdown
            } else {
                Exchange::Forward
            },
    {
        match self {
            Request::Quit => Exchange::Shutdown,
            Request::Join(_) => Exchange::Forward,
            Request::Part(_) => Exchange::Forward,
            Request::SendMessage(_, _) => Exchange::Forward,
            _ => Exchange::Reply,
        }
    }

    /// `response` is of a kind that the daemon gives to this request.
    pub open spec fn admits(&self, response: &Response) -> bool {
        answers(self@, response@)
    }

    /// Whether `response` is of a kind that a client expects for this
    /// request.
    pub fn accepts(&self, response: &Response) -> (b: bool)
        ensures
            b == self.admits(response),
    {
        match (self, response) {
            (Request::ListChannels, Response::Channels(_)) => true,
            (Request::GetStatus, Response::Status(_)) => true,
            (Request::GetMessages(_), Response::Messages(_)) => true,
            (Request::GetUsers(_), Response::Users(_)) => true,
            (Request::GetMessages(_), Response::Error(_)) => true,
            _ => false,
        }
    }
}

/// Why bytes are not a frame.
#[derive(Clone, Copy, Debug, PartialEq, Eq, Structural)]
pub enum FrameError {
    /// The payload is longer than a 32-bit length can say.
    TooLong,
    /// Fewer bytes than the four of the length and the payload it announces.
    Truncated,
    /// More bytes than the length announces.
    Overlong,
    /// The payload is not valid UTF-8.
    NotUtf8,
}

/// The four bytes that say `n`, most significant first.
pub open spec fn be32(n: nat) -> Seq<u8> {
    seq![
        (n / 0x100_0000) as u8,
        (n / 0x1_0000 % 0x100) as u8,
        (n / 0x100 % 0x100) as u8,
        (n % 0x100) as u8,
    ]
}

/// The number that four bytes say, most significant first.
pub open spec fn be32_value(b: Seq<u8>) -> nat {
    (b[0] as nat) * 0x100_0000 + (b[1] as nat) * 0x1_0000 + (b[2] as nat) * 0x100 + (b[3] as nat)
}

/// The frame that carries `payload`: its length in four bytes, then the
/// payload itself.
pub open spec fn frame_of(payload: Seq<u8>) -> Seq<u8> {
    be32(payload.len()) + payload
}

/// The text that a frame carries, or why the bytes are no frame.
pub open spec fn frame_text(frame: Seq<u8>) -> Result<Seq<char>, FrameError> {
    if frame.len() < 4 || frame.len() - 4 < be32_value(frame.take(4)) {
        Err(FrameError::Truncated)
    } else if frame.len() - 4 > be32_value(frame.take(4)) {
        Err(FrameError::Overlong)
    } else if !valid_utf8(frame.skip(4)) {
        Err(FrameError::NotUtf8)
    } else {
        Ok(decode_utf8(frame.skip(4)))
    }
}

/// The length that a frame's first four bytes announce.
pub fn frame_length(header: [u8; 4]) -> (n: u32)
    ensures
        n == be32_value(header@),
{
    let b0: u32 = header[0] as u32;
    let b1: u32 = header[1] as u32;
    let b2: u32 = header[2] as u32;
    let b3: u32 = header[3] as u32;
    b0 * 0x100_0000 + b1 * 0x1_0000 + b2 * 0x100 + b3
}

/// The frame that carries the encoded value `text`.
pub fn encode_frame(text: &str) -> (r: Result<Vec<u8>, FrameError>)
    ensures
        match r {
            Ok(frame) => {
                &&& text.spec_bytes().len() <= u32::MAX
                &&& frame@ == frame_of(text.spec_bytes())
                &&& be32_value(frame@.take(4)) == text.spec_bytes().len()
                &&& frame@.skip(4) == text.spec_bytes()
            },
            Err(e) => e == FrameError::TooLong && text.spec_bytes().len() > u32::MAX,
        },
{
    let payload = text.as_bytes();
    if payload.len() > 0xffff_ffff {
        return Err(FrameError::TooLong);
    }
    let n: usize = payload.len();
    let mut frame: Vec<u8> = Vec::new();
    frame.push((n / 0x100_0000) as u8);
    frame.push((n / 0x1_0000 % 0x100) as u8);
    frame.push((n / 0x100 % 0x100) as u8);
    frame.push((n % 0x100) as u8);
    assert(frame@ == be32(n as nat));
    let mut i: usize = 0;
    while i < n
        invariant
            i <= n,
            n == payload.len(),
            frame@ == be32(n as nat) + payload@.take(i as int),
        decreases n - i,
    {
        frame.push(payload[i]);
        i = i + 1;
        assert(payload@.take(i as int) == payload@.take(i - 1).push(payload@[i - 1]));
    }
    proof {
        assert(payload@.take(n as int) == payload@);
        assert(frame@.take(4) == be32(n as nat));
        assert(frame@.skip(4) == payload@);
    }
    Ok(frame)
}

/// The text of a payload, once all of its bytes are read.
pub fn decode_payload(payload: &[u8]) -> (r: Result<String, FrameError>)
    ensures
        match r {
            Ok(text) => valid_utf8(payload@) && text@ == decode_utf8(payload@),
            Err(e) => e == FrameError::NotUtf8 && !valid_utf8(payload@),
        },
{
    match utf8_text(payload) {
        Some(s) => Ok(String::from_str(s)),
        None => Err(FrameError::NotUtf8),
    }
}

/// Takes a whole frame apart: the text it carries, or why it is no frame.
pub fn decode_frame(frame: &[u8]) -> (r: Result<String, FrameError>)
    ensures
        match r {
            Ok(text) => frame_text(frame@) == Ok::<Seq<char>, FrameError>(text@),
            Err(e) => frame_text(frame@) == Err::<Seq<char>, FrameError>(e),
        },
{
    if frame.len() < 4 {
        return Err(FrameError::Truncated);
    }
    let header: [u8; 4] = [frame[0], frame[1], frame[2], frame[3]];
    assert(header@ == frame@.take(4));
    let n = frame_length(header) as usize;
    let have = frame.len() - 4;
    if have < n {
        return Err(FrameError::Truncated);
    }
    if have > n {
        return Err(FrameError::Overlong);
    }
    let mut payload: Vec<u8> = Vec::new();
    let mut i: usize = 4;
    while i < frame.len()
        invariant
            4 <= i <= frame.len(),
            payload@ == frame@.subrange(4, i as int),
        decreases frame.len() - i,
    {
        payload.push(frame[i]);
        i = i + 1;
    }
    assert(payload@ == frame@.skip(4));
    decode_payload(payload.as_slice())
}

/// A frame gives back the text it was made of.
pub proof fn lemma_frame_round_trip(text: Seq<char>)
    requires
        encode_utf8(text).len() <= u32::MAX,
    ensures
        frame_text(frame_of(encode_utf8(text))) == Ok::<Seq<char>, FrameError>(text),
        be32_value(frame_of(encode_utf8(text)).take(4)) == encode_utf8(text).len(),
{
    let payload = encode_utf8(text);
    let frame = frame_of(payload);
    assert(frame.take(4) == be32(payload.len()));
    assert(frame.skip(4) == payload);
    encode_utf8_valid_utf8(text);
    encode_utf8_decode_utf8(text);
}

} // verus!
