//! The values that clients and servers exchange, and their mathematical views.

use crate::bytes::le_bytes;
use vstd::prelude::*;
use vstd::std_specs::convert::FromSpecImpl;
use vstd::string::StringExecFns;

verus! {

/// The lower-case hexadecimal digit for a number below sixteen.
pub open spec fn hex_digit(nibble: int) -> char {
    if nibble < 10 {
        (48 + nibble) as char
    } else {
        (87 + nibble) as char
    }
}

/// Two hexadecimal digits for each byte, the high half first.
pub open spec fn hex_of(bytes: Seq<u8>) -> Seq<char> {
    Seq::new(
        2 * bytes.len(),
        |i: int|
            hex_digit(
                if i % 2 == 0 {
                    bytes[i / 2] as int / 16
                } else {
                    bytes[i / 2] as int % 16
                },
            ),
    )
}

/// The text that stands for the identifier with the given little-endian
/// value: the hexadecimal digits of its sixteen bytes in groups of 8, 4,
/// 4, 4 and 12, with a hyphen between the groups.
pub open spec fn hyphenated(value: u128) -> Seq<char> {
    let digits = hex_of(le_bytes(value as nat, 16));
    digits.subrange(0, 8) + seq!['-'] + digits.subrange(8, 12) + seq!['-'] + digits.subrange(
        12,
        16,
    ) + seq!['-'] + digits.subrange(16, 20) + seq!['-'] + digits.subrange(20, 32)
}

/// Formats an identifier with `uuid::Uuid`'s `Display` impl, applied to
/// `Uuid::from_u128_le(value)`: the identifier whose bytes are the
/// little-endian bytes of `value`, printed in lower-case hexadecimal with
/// hyphens after the 8th, 12th, 16th and 20th digit.
#[verifier::external_body]
fn uuid_text(value: u128) -> (text: String)
    ensures
        text@ == hyphenated(value),
{
    uuid::Uuid::from_u128_le(value).to_string()
}

/// Draws a random identifier with `uuid::Uuid::new_v4`, handed back as
/// `Uuid::to_u128_le` gives it. Nothing is promised of a random value.
#[verifier::external_body]
pub(crate) fn random_id() -> u128 {
    uuid::Uuid::new_v4().to_u128_le()
}

/// Identity of a client: a 128-bit universally unique value, held as the
/// little-endian reading of its sixteen wire bytes.
#[derive(Clone, Copy, Debug, PartialEq, Eq, PartialOrd, Ord, Hash, Structural)]
pub struct ClientId(pub u128);

/// Identity of a server: a 128-bit universally unique value, held as the
/// little-endian reading of its sixteen wire bytes.
#[derive(Clone, Copy, Debug, PartialEq, Eq, PartialOrd, Ord, Hash, Structural)]
pub struct ServerId(pub u128);

impl From<u128> for ClientId {
    fn from(value: u128) -> (id: Self) {
        ClientId(value)
    }
}

impl FromSpecImpl<u128> for ClientId {
    open spec fn obeys_from_spec() -> bool {
        true
    }

    open spec fn from_spec(value: u128) -> Self {
        ClientId(value)
    }
}

impl From<u128> for ServerId {
    fn from(value: u128) -> (id: Self) {
        ServerId(value)
    }
}

impl FromSpecImpl<u128> for ServerId {
    open spec fn obeys_from_spec() -> bool {
        true
    }

    open spec fn from_spec(value: u128) -> Self {
        ServerId(value)
    }
}

impl From<&ClientId> for u128 {
    fn from(value: &ClientId) -> (n: Self) {
        value.0
    }
}

impl FromSpecImpl<&ClientId> for u128 {
    open spec fn obeys_from_spec() -> bool {
        true
    }

    open spec fn from_spec(value: &ClientId) -> Self {
        value.0
    }
}

impl From<&ServerId> for u128 {
    fn from(value: &ServerId) -> (n: Self) {
        value.0
    }
}

impl FromSpecImpl<&ServerId> for u128 {
    open spec fn obeys_from_spec() -> bool {
        true
    }

    open spec fn from_spec(value: &ServerId) -> Self {
        value.0
    }
}

impl Default for ClientId {
    /// A fresh random identity.
    fn default() -> ClientId {
        ClientId(random_id())
    }
}

impl Default for ServerId {
    /// A fresh random identity.
    fn default() -> ServerId {
        ServerId(random_id())
    }
}

impl ClientId {
    /// The text `ClientId(..)` around the hyphenated identifier.
    pub fn to_string(&self) -> (text: String)
        ensures
            text@ == "ClientId("@ + hyphenated(self.0) + ")"@,
    {
        let mut text = "ClientId(".to_owned();
        let inner = uuid_text(self.0);
        text.append(inner.as_str());
        text.append(")");
        text
    }
}

impl ServerId {
    /// The text `ServerId(..)` around the hyphenated identifier.
    pub fn to_string(&self) -> (text: String)
        ensures
            text@ == "ServerId("@ + hyphenated(self.0) + ")"@,
    {
        let mut text = "ServerId(".to_owned();
        let inner = uuid_text(self.0);
        text.append(inner.as_str());
        text.append(")");
        text
    }
}

impl DeepView for ClientId {
    type V = ClientId;

    open spec fn deep_view(&self) -> ClientId {
        *self
    }
}

impl DeepView for ServerId {
    type V = ServerId;

    open spec fn deep_view(&self) -> ServerId {
        *self
    }
}


/// A payload wrapped with its sender, sequence number and proof of work.
#[derive(Clone, Debug, PartialEq, Eq)]
pub struct Sequence<A> {
    pub seqid: u128,
    pub src: ClientId,
    pub workproof: u128,
    pub content: A,
}

/// The authentication handshake.
#[derive(Clone, Debug, PartialEq, Eq)]
pub enum AuthMessage {
    Hello { user: ClientId, nonce: [u8; 8] },
    Nonce { server: ServerId, nonce: [u8; 8] },
    Auth { response: [u8; 16] },
}

/// What a client asks of its home server.
#[derive(Clone, Debug, PartialEq, Eq)]
pub enum ClientQuery {
    /// Registration under a display name.
    Register(String),
    Message(ClientMessage),
    Poll,
    ListUsers,
}

/// A text for one recipient or for several.
#[derive(Clone, Debug, PartialEq, Eq)]
#[allow(inconsistent_fields)]
pub enum ClientMessage {
    Text { dest: ClientId, content: String },
    MText { dest: Vec<ClientId>, content: String },
}

/// The server-to-server form of a text: every destination is paired with
/// its home server.
#[derive(Clone, Debug, PartialEq, Eq)]
pub struct FullyQualifiedMessage {
    pub src: ClientId,
    pub srcsrv: ServerId,
    pub dsts: Vec<(ClientId, ServerId)>,
    pub content: String,
}

/// What one server sends to another.
#[derive(Clone, Debug, PartialEq, Eq)]
pub enum ServerMessage {
    /// The clients of the server `route[0]`, with the servers the announce
    /// went through on its way here: the last one is our neighbour. A
    /// client that is listed twice takes the later name.
    Announce { route: Vec<ServerId>, clients: Vec<(ClientId, String)> },
    Message(FullyQualifiedMessage),
}

/// Why a client's request was turned down.
#[derive(Clone, Copy, Debug, PartialEq, Eq)]
pub enum ClientError {
    WorkProofError,
    UnknownClient,
    SequenceError,
    BoxFull(ClientId),
    InternalError,
}

/// The outcome of a text for one destination.
#[derive(Clone, Debug, PartialEq, Eq)]
pub enum ClientReply {
    Delivered,
    Error(ClientError),
    /// The recipient is not known yet; the text is kept for later.
    Delayed,
    /// The caller forwards the message to the named next hop.
    Transfer(ServerId, ServerMessage),
}

/// Why a text that was kept for later could not be delivered after all.
#[derive(Clone, Copy, Debug, PartialEq, Eq)]
pub enum DelayedError {
    UnknownRecipient(ClientId),
}

/// What a poll returns.
#[derive(Clone, Debug, PartialEq, Eq)]
pub enum ClientPollReply {
    Message { src: ClientId, content: String },
    DelayedError(DelayedError),
    Nothing,
}

/// A message together with the neighbour it is to be handed to.
#[derive(Clone, Debug, PartialEq, Eq)]
pub struct Outgoing<A> {
    pub nexthop: ServerId,
    pub message: A,
}

/// The answer to a server message.
#[derive(Clone, Debug, PartialEq, Eq)]
pub enum ServerReply {
    Outgoing(Vec<Outgoing<FullyQualifiedMessage>>),
    EmptyRoute,
    Error(String),
}

impl ClientError {
    /// The variant's name, with the client in brackets for a full mailbox.
    pub fn to_string(&self) -> (text: String)
        ensures
            text@ == match *self {
                ClientError::WorkProofError => "WorkProofError"@,
                ClientError::UnknownClient => "UnknownClient"@,
                ClientError::SequenceError => "SequenceError"@,
                ClientError::BoxFull(id) => "BoxFull("@ + ("ClientId("@ + hyphenated(id.0) + ")"@)
                    + ")"@,
                ClientError::InternalError => "InternalError"@,
            },
    {
        match self {
            ClientError::WorkProofError => "WorkProofError".to_owned(),
            ClientError::UnknownClient => "UnknownClient".to_owned(),
            ClientError::SequenceError => "SequenceError".to_owned(),
            ClientError::BoxFull(id) => {
                let mut text = "BoxFull(".to_owned();
                let inner = id.to_string();
                text.append(inner.as_str());
                text.append(")");
                text
            },
            ClientError::InternalError => "InternalError".to_owned(),
        }
    }
}

/// A text as the broker keeps it: the sender and the content.
pub type Letter = (ClientId, Seq<char>);

/// An `AuthMessage` with its byte arrays as sequences.
pub enum AuthMessageView {
    Hello { user: ClientId, nonce: Seq<u8> },
    Nonce { server: ServerId, nonce: Seq<u8> },
    Auth { response: Seq<u8> },
}

/// A `ClientMessage` with its text and its destinations as sequences.
#[allow(inconsistent_fields)]
pub enum ClientMessageView {
    Text { dest: ClientId, content: Seq<char> },
    MText { dest: Seq<ClientId>, content: Seq<char> },
}

/// A `ClientQuery` with its texts as sequences.
pub enum ClientQueryView {
    Register(Seq<char>),
    Message(ClientMessageView),
    Poll,
    ListUsers,
}

/// A `FullyQualifiedMessage` with its text and its destinations as
/// sequences.
pub struct FullyQualifiedMessageView {
    pub src: ClientId,
    pub srcsrv: ServerId,
    pub dsts: Seq<(ClientId, ServerId)>,
    pub content: Seq<char>,
}

/// A `ServerMessage` with its lists and texts as sequences.
pub enum ServerMessageView {
    Announce { route: Seq<ServerId>, clients: Seq<Letter> },
    Message(FullyQualifiedMessageView),
}

/// A `ClientReply` with the message of a transfer as its view.
pub enum ClientReplyView {
    Delivered,
    Error(ClientError),
    Delayed,
    Transfer(ServerId, ServerMessageView),
}

/// A `ClientPollReply` with its text as a sequence.
pub enum ClientPollReplyView {
    Message { src: ClientId, content: Seq<char> },
    DelayedError(DelayedError),
    Nothing,
}

/// A `ServerReply` with its messages and its text as sequences.
pub enum ServerReplyView {
    Outgoing(Seq<Outgoing<FullyQualifiedMessageView>>),
    EmptyRoute,
    Error(Seq<char>),
}

impl DeepView for ClientError {
    type V = ClientError;

    open spec fn deep_view(&self) -> ClientError {
        *self
    }
}

impl DeepView for DelayedError {
    type V = DelayedError;

    open spec fn deep_view(&self) -> DelayedError {
        *self
    }
}

impl DeepView for AuthMessage {
    type V = AuthMessageView;

    open spec fn deep_view(&self) -> AuthMessageView {
        match *self {
            AuthMessage::Hello { user, nonce } => AuthMessageView::Hello { user, nonce: nonce@ },
            AuthMessage::Nonce { server, nonce } => AuthMessageView::Nonce {
                server,
                nonce: nonce@,
            },
            AuthMessage::Auth { response } => AuthMessageView::Auth { response: response@ },
        }
    }
}

impl<A: DeepView> DeepView for Sequence<A> {
    type V = Sequence<A::V>;

    open spec fn deep_view(&self) -> Sequence<A::V> {
        Sequence {
            seqid: self.seqid,
            src: self.src,
            workproof: self.workproof,
            content: self.content.deep_view(),
        }
    }
}

impl DeepView for ClientMessage {
    type V = ClientMessageView;

    open spec fn deep_view(&self) -> ClientMessageView {
        match *self {
            ClientMessage::Text { dest, content } => ClientMessageView::Text {
                dest,
                content: content@,
            },
            ClientMessage::MText { dest, content } => ClientMessageView::MText {
                dest: dest@,
                content: content@,
            },
        }
    }
}

impl DeepView for ClientQuery {
    type V = ClientQueryView;

    open spec fn deep_view(&self) -> ClientQueryView {
        match *self {
            ClientQuery::Register(name) => ClientQueryView::Register(name@),
            ClientQuery::Message(message) => ClientQueryView::Message(message.deep_view()),
            ClientQuery::Poll => ClientQueryView::Poll,
            ClientQuery::ListUsers => ClientQueryView::ListUsers,
        }
    }
}

impl DeepView for FullyQualifiedMessage {
    type V = FullyQualifiedMessageView;

    open spec fn deep_view(&self) -> FullyQualifiedMessageView {
        FullyQualifiedMessageView {
            src: self.src,
            srcsrv: self.srcsrv,
            dsts: self.dsts@,
            content: self.content@,
        }
    }
}

impl DeepView for ServerMessage {
    type V = ServerMessageView;

    open spec fn deep_view(&self) -> ServerMessageView {
        match *self {
            ServerMessage::Announce { route, clients } => ServerMessageView::Announce {
                route: route@,
                clients: clients.deep_view(),
            },
            ServerMessage::Message(message) => ServerMessageView::Message(message.deep_view()),
        }
    }
}

impl DeepView for ClientReply {
    type V = ClientReplyView;

    open spec fn deep_view(&self) -> ClientReplyView {
        match *self {
            ClientReply::Delivered => ClientReplyView::Delivered,
            ClientReply::Error(e) => ClientReplyView::Error(e),
            ClientReply::Delayed => ClientReplyView::Delayed,
            ClientReply::Transfer(hop, message) => ClientReplyView::Transfer(
                hop,
                message.deep_view(),
            ),
        }
    }
}

impl DeepView for ClientPollReply {
    type V = ClientPollReplyView;

    open spec fn deep_view(&self) -> ClientPollReplyView {
        match *self {
            ClientPollReply::Message { src, content } => ClientPollReplyView::Message {
                src,
                content: content@,
            },
            ClientPollReply::DelayedError(e) => ClientPollReplyView::DelayedError(e),
            ClientPollReply::Nothing => ClientPollReplyView::Nothing,
        }
    }
}

impl<A: DeepView> DeepView for Outgoing<A> {
    type V = Outgoing<A::V>;

    open spec fn deep_view(&self) -> Outgoing<A::V> {
        Outgoing { nexthop: self.nexthop, message: self.message.deep_view() }
    }
}

impl DeepView for ServerReply {
    type V = ServerReplyView;

    open spec fn deep_view(&self) -> ServerReplyView {
        match *self {
            ServerReply::Outgoing(list) => ServerReplyView::Outgoing(list.deep_view()),
            ServerReply::EmptyRoute => ServerReplyView::EmptyRoute,
            ServerReply::Error(text) => ServerReplyView::Error(text@),
        }
    }
}

} // verus!
