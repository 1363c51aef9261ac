//! The broker as a state machine over mathematical values, the laws that
//! hold of it, and the interface that a message server offers.

use crate::messages::{
    ClientError, ClientId, ClientMessage, ClientMessageView, ClientPollReply, ClientPollReplyView,
    ClientReply, ClientReplyView, FullyQualifiedMessageView, Letter, Outgoing, Sequence, ServerId,
    ServerMessage, ServerMessageView, ServerReply, ServerReplyView,
};
use crate::workproof::valid_workproof;
use vstd::prelude::*;

verus! {

/// Largest number of undelivered texts that a mailbox holds.
pub const MAILBOX_SIZE: usize = 256;

/// Leading zero bits that an envelope's proof of work must reach.
pub const WORKPROOF_STRENGTH: u32 = 8;

/// A client registered with this server.
pub struct LocalState {
    pub name: Seq<char>,
    /// The sequence number of the last envelope accepted from the client.
    pub last_seq: u128,
    /// Undelivered texts, oldest first.
    pub mailbox: Seq<Letter>,
}

/// A client of another server, as an announce described it.
pub struct RemoteState {
    pub name: Seq<char>,
    pub home: ServerId,
}

/// All that a broker knows.
pub struct BrokerState {
    pub server_id: ServerId,
    pub local: Map<ClientId, LocalState>,
    pub remote: Map<ClientId, RemoteState>,
    /// The best known route to each remote server, farthest hop first.
    pub routes: Map<ServerId, Seq<ServerId>>,
    /// Texts for recipients that nobody has announced yet, oldest first.
    pub pending: Map<ClientId, Seq<Letter>>,
}

/// One thing that can happen to a broker.
#[allow(inconsistent_fields)]
pub enum Operation {
    Register { id: ClientId, name: Seq<char> },
    /// An envelope arrives; `proof_ok` says whether its proof of work holds.
    Envelope { proof_ok: bool, src: ClientId, seqid: u128 },
    Send { src: ClientId, message: ClientMessageView },
    Poll { client: ClientId },
    Server { message: ServerMessageView },
}

/// The message that carries one text to one client of another server.
pub open spec fn single_hop(
    src: ClientId,
    srcsrv: ServerId,
    dest: ClientId,
    home: ServerId,
    content: Seq<char>,
) -> FullyQualifiedMessageView {
    FullyQualifiedMessageView { src, srcsrv, dsts: seq![(dest, home)], content }
}

/// The home servers other than `me` among `dsts`, each once, in the order
/// in which they first occur.
pub open spec fn foreign_homes(dsts: Seq<(ClientId, ServerId)>, me: ServerId) -> Seq<ServerId>
    decreases dsts.len(),
{
    if dsts.len() == 0 {
        Seq::empty()
    } else {
        let before = foreign_homes(dsts.drop_last(), me);
        let home = dsts.last().1;
        if home == me || before.contains(home) {
            before
        } else {
            before.push(home)
        }
    }
}

/// The destinations among `dsts` whose home server is `home`, in order.
pub open spec fn bound_for(dsts: Seq<(ClientId, ServerId)>, home: ServerId) -> Seq<
    (ClientId, ServerId),
>
    decreases dsts.len(),
{
    if dsts.len() == 0 {
        Seq::empty()
    } else {
        let before = bound_for(dsts.drop_last(), home);
        if dsts.last().1 == home {
            before.push(dsts.last())
        } else {
            before
        }
    }
}

impl BrokerState {
    /// A broker that knows nobody.
    pub open spec fn new(id: ServerId) -> BrokerState {
        BrokerState {
            server_id: id,
            local: Map::empty(),
            remote: Map::empty(),
            routes: Map::empty(),
            pending: Map::empty(),
        }
    }

    /// What holds of a broker after every operation: no mailbox is over its
    /// bound, every stored route starts at the server it leads to, and the
    /// home of every remote client has a route.
    pub open spec fn inv(self) -> bool {
        &&& forall|c: ClientId| #[trigger]
            self.local.contains_key(c) ==> self.local[c].mailbox.len() <= MAILBOX_SIZE
        &&& forall|s: ServerId| #[trigger]
            self.routes.contains_key(s) ==> self.routes[s].len() > 0 && self.routes[s][0] == s
        &&& forall|c: ClientId| #[trigger]
            self.remote.contains_key(c) ==> self.routes.contains_key(self.remote[c].home)
    }

    /// The state after `id` registered under `name`: an empty mailbox and no
    /// envelope accepted yet.
    pub open spec fn register(self, id: ClientId, name: Seq<char>) -> BrokerState {
        BrokerState {
            local: self.local.insert(
                id,
                LocalState { name, last_seq: 0, mailbox: Seq::empty() },
            ),
            ..self
        }
    }

    /// Why an envelope is turned down, if it is: the proof of work is looked
    /// at first, then the sender, then the sequence number.
    pub open spec fn envelope_error(self, proof_ok: bool, src: ClientId, seqid: u128) -> Option<
        ClientError,
    > {
        if !proof_ok {
            Some(ClientError::WorkProofError)
        } else if !self.local.contains_key(src) {
            Some(ClientError::UnknownClient)
        } else if seqid <= self.local[src].last_seq {
            Some(ClientError::SequenceError)
        } else {
            None
        }
    }

    /// The state after an envelope: an accepted one moves the sender's last
    /// sequence number, a refused one changes nothing.
    pub open spec fn envelope(self, proof_ok: bool, src: ClientId, seqid: u128) -> BrokerState {
        if self.envelope_error(proof_ok, src, seqid) is None {
            BrokerState {
                local: self.local.insert(
                    src,
                    LocalState { last_seq: seqid, ..self.local[src] },
                ),
                ..self
            }
        } else {
            self
        }
    }

    /// Whether a text for `dest` leaves for another server.
    pub open spec fn forwards(self, dest: ClientId) -> bool {
        &&& !self.local.contains_key(dest)
        &&& self.remote.contains_key(dest)
        &&& self.routes.contains_key(self.remote[dest].home)
    }

    /// The reply to one text for one destination.
    pub open spec fn deliver_reply(self, src: ClientId, dest: ClientId, content: Seq<char>)
        -> ClientReplyView {
        if self.local.contains_key(dest) {
            if self.local[dest].mailbox.len() >= MAILBOX_SIZE {
                ClientReplyView::Error(ClientError::BoxFull(dest))
            } else {
                ClientReplyView::Delivered
            }
        } else if self.forwards(dest) {
            let home = self.remote[dest].home;
            ClientReplyView::Transfer(
                self.routes[home].last(),
                ServerMessageView::Message(
                    single_hop(src, self.server_id, dest, home, content),
                ),
            )
        } else {
            ClientReplyView::Delayed
        }
    }

    /// The state after one text for one destination: it joins the mailbox
    /// of a local client that has room, or the pending texts of a
    /// destination that nobody knows; otherwise nothing changes.
    pub open spec fn deliver(self, src: ClientId, dest: ClientId, content: Seq<char>)
        -> BrokerState {
        if self.local.contains_key(dest) {
            if self.local[dest].mailbox.len() >= MAILBOX_SIZE {
                self
            } else {
                BrokerState {
                    local: self.local.insert(
                        dest,
                        LocalState {
                            mailbox: self.local[dest].mailbox.push((src, content)),
                            ..self.local[dest]
                        },
                    ),
                    ..self
                }
            }
        } else if self.forwards(dest) {
            self
        } else {
            BrokerState {
                pending: self.pending.insert(dest, self.waiting(dest).push((src, content))),
                ..self
            }
        }
    }

    /// The texts that wait for `dest` to be announced.
    pub open spec fn waiting(self, dest: ClientId) -> Seq<Letter> {
        if self.pending.contains_key(dest) {
            self.pending[dest]
        } else {
            Seq::empty()
        }
    }

    /// The state after one text went to each of `dests` in turn.
    pub open spec fn deliver_all(self, src: ClientId, dests: Seq<ClientId>, content: Seq<char>)
        -> BrokerState
        decreases dests.len(),
    {
        if dests.len() == 0 {
            self
        } else {
            self.deliver_all(src, dests.drop_last(), content).deliver(src, dests.last(), content)
        }
    }

    /// The replies to one text for each of `dests`, in their order.
    pub open spec fn deliver_all_replies(
        self,
        src: ClientId,
        dests: Seq<ClientId>,
        content: Seq<char>,
    ) -> Seq<ClientReplyView>
        decreases dests.len(),
    {
        if dests.len() == 0 {
            Seq::empty()
        } else {
            self.deliver_all_replies(src, dests.drop_last(), content).push(
                self.deliver_all(src, dests.drop_last(), content).deliver_reply(
                    src,
                    dests.last(),
                    content,
                ),
            )
        }
    }

    /// The state after a client's message.
    pub open spec fn send(self, src: ClientId, message: ClientMessageView) -> BrokerState {
        match message {
            ClientMessageView::Text { dest, content } => self.deliver(src, dest, content),
            ClientMessageView::MText { dest, content } => self.deliver_all(src, dest, content),
        }
    }

    /// The replies to a client's message, one for each destination.
    pub open spec fn send_replies(self, src: ClientId, message: ClientMessageView) -> Seq<
        ClientReplyView,
    > {
        match message {
            ClientMessageView::Text { dest, content } => seq![
                self.deliver_reply(src, dest, content),
            ],
            ClientMessageView::MText { dest, content } => self.deliver_all_replies(
                src,
                dest,
                content,
            ),
        }
    }

    /// What a poll returns: the oldest text of a local client's mailbox.
    pub open spec fn poll_reply(self, client: ClientId) -> ClientPollReplyView {
        if self.local.contains_key(client) && self.local[client].mailbox.len() > 0 {
            let head = self.local[client].mailbox[0];
            ClientPollReplyView::Message { src: head.0, content: head.1 }
        } else {
            ClientPollReplyView::Nothing
        }
    }

    /// The state after a poll: the text that was returned is gone.
    pub open spec fn poll(self, client: ClientId) -> BrokerState {
        if self.local.contains_key(client) && self.local[client].mailbox.len() > 0 {
            BrokerState {
                local: self.local.insert(
                    client,
                    LocalState {
                        mailbox: self.local[client].mailbox.drop_first(),
                        ..self.local[client]
                    },
                ),
                ..self
            }
        } else {
            self
        }
    }

    /// Whether `client` is known, here or through an announce.
    pub open spec fn knows(self, client: ClientId) -> bool {
        self.local.contains_key(client) || self.remote.contains_key(client)
    }

    /// The name of a known client; a local registration goes first.
    pub open spec fn name_of(self, client: ClientId) -> Seq<char> {
        if self.local.contains_key(client) {
            self.local[client].name
        } else {
            self.remote[client].name
        }
    }

    /// Whether `users` lists every known client once, with its name.
    pub open spec fn lists_users(self, users: Seq<Letter>) -> bool {
        &&& forall|i: int| 0 <= i < users.len() ==> self.knows(#[trigger] users[i].0)
        &&& forall|i: int|
            0 <= i < users.len() ==> (#[trigger] users[i]).1 == self.name_of(users[i].0)
        &&& forall|i: int, j: int|
            0 <= i < j < users.len() ==> (#[trigger] users[i]).0 != (#[trigger] users[j]).0
        &&& forall|c: ClientId|
            self.knows(c) ==> exists|i: int| 0 <= i < users.len() && #[trigger] users[i].0 == c
    }

    /// The stored route to `destination`, if there is one.
    pub open spec fn route_to(self, destination: ServerId) -> Option<Seq<ServerId>> {
        if self.routes.contains_key(destination) {
            Some(self.routes[destination])
        } else {
            None
        }
    }

    /// The state after a route was announced: it is stored under the
    /// server it starts at unless a route that is no longer is there.
    pub open spec fn learn_route(self, route: Seq<ServerId>) -> BrokerState {
        let origin = route[0];
        if self.routes.contains_key(origin) && self.routes[origin].len() <= route.len() {
            self
        } else {
            BrokerState { routes: self.routes.insert(origin, route), ..self }
        }
    }

    /// The messages that carry the texts waiting for `client`, oldest first.
    pub open spec fn released(self, client: ClientId, origin: ServerId, hop: ServerId) -> Seq<
        Outgoing<FullyQualifiedMessageView>,
    > {
        let waiting = self.waiting(client);
        Seq::new(
            waiting.len(),
            |i: int|
                Outgoing {
                    nexthop: hop,
                    message: single_hop(
                        waiting[i].0,
                        self.server_id,
                        client,
                        origin,
                        waiting[i].1,
                    ),
                },
        )
    }

    /// The state after `client` was announced as a client of `origin`.
    pub open spec fn learn_client(self, client: ClientId, name: Seq<char>, origin: ServerId)
        -> BrokerState {
        BrokerState {
            remote: self.remote.insert(client, RemoteState { name, home: origin }),
            pending: self.pending.remove(client),
            ..self
        }
    }

    /// The state after each of `clients` was announced in turn.
    pub open spec fn learn_clients(self, clients: Seq<Letter>, origin: ServerId) -> BrokerState
        decreases clients.len(),
    {
        if clients.len() == 0 {
            self
        } else {
            self.learn_clients(clients.drop_last(), origin).learn_client(
                clients.last().0,
                clients.last().1,
                origin,
            )
        }
    }

    /// The messages that the announce of `clients` sets free, in the order
    /// of the clients and, for each, oldest first.
    pub open spec fn released_all(self, clients: Seq<Letter>, origin: ServerId, hop: ServerId)
        -> Seq<Outgoing<FullyQualifiedMessageView>>
        decreases clients.len(),
    {
        if clients.len() == 0 {
            Seq::empty()
        } else {
            self.released_all(clients.drop_last(), origin, hop) + self.learn_clients(
                clients.drop_last(),
                origin,
            ).released(clients.last().0, origin, hop)
        }
    }

    /// The state after a text from another server reached `dest` here: it
    /// joins the mailbox if `dest` is local and has room, and is lost
    /// otherwise.
    pub open spec fn accept(self, src: ClientId, dest: ClientId, content: Seq<char>)
        -> BrokerState {
        if self.local.contains_key(dest) && self.local[dest].mailbox.len() < MAILBOX_SIZE {
            self.deliver(src, dest, content)
        } else {
            self
        }
    }

    /// The state after a text from another server reached those of `dsts`
    /// whose home is this server.
    pub open spec fn accept_all(
        self,
        src: ClientId,
        dsts: Seq<(ClientId, ServerId)>,
        content: Seq<char>,
    ) -> BrokerState
        decreases dsts.len(),
    {
        if dsts.len() == 0 {
            self
        } else {
            let before = self.accept_all(src, dsts.drop_last(), content);
            if dsts.last().1 == self.server_id {
                before.accept(src, dsts.last().0, content)
            } else {
                before
            }
        }
    }

    /// One message for each of `homes` that has a route, to that route's
    /// last hop, with the destinations of `message` that live there.
    pub open spec fn relayed(self, message: FullyQualifiedMessageView, homes: Seq<ServerId>)
        -> Seq<Outgoing<FullyQualifiedMessageView>>
        decreases homes.len(),
    {
        if homes.len() == 0 {
            Seq::empty()
        } else {
            let before = self.relayed(message, homes.drop_last());
            let home = homes.last();
            if self.routes.contains_key(home) {
                before.push(
                    Outgoing {
                        nexthop: self.routes[home].last(),
                        message: FullyQualifiedMessageView {
                            dsts: bound_for(message.dsts, home),
                            ..message
                        },
                    },
                )
            } else {
                before
            }
        }
    }

    /// The state after a message from another server.
    pub open spec fn server(self, message: ServerMessageView) -> BrokerState {
        match message {
            ServerMessageView::Announce { route, clients } => {
                if route.len() == 0 {
                    self
                } else {
                    self.learn_route(route).learn_clients(clients, route[0])
                }
            },
            ServerMessageView::Message(m) => self.accept_all(m.src, m.dsts, m.content),
        }
    }

    /// The reply to a message from another server.
    pub open spec fn server_reply(self, message: ServerMessageView) -> ServerReplyView {
        match message {
            ServerMessageView::Announce { route, clients } => {
                if route.len() == 0 {
                    ServerReplyView::EmptyRoute
                } else {
                    ServerReplyView::Outgoing(
                        self.learn_route(route).released_all(clients, route[0], route.last()),
                    )
                }
            },
            ServerMessageView::Message(m) => ServerReplyView::Outgoing(
                self.relayed(m, foreign_homes(m.dsts, self.server_id)),
            ),
        }
    }

    /// The state after an operation.
    pub open spec fn step(self, op: Operation) -> BrokerState {
        match op {
            Operation::Register { id, name } => self.register(id, name),
            Operation::Envelope { proof_ok, src, seqid } => self.envelope(proof_ok, src, seqid),
            Operation::Send { src, message } => self.send(src, message),
            Operation::Poll { client } => self.poll(client),
            Operation::Server { message } => self.server(message),
        }
    }

    /// Whether a reply, if it is a transfer, names the last hop of the
    /// stored route to the home server of its one destination.
    pub open spec fn transfer_follows_route(self, reply: ClientReplyView) -> bool {
        reply matches ClientReplyView::Transfer(hop, message) ==> {
            &&& message matches ServerMessageView::Message(m)
            &&& m.dsts.len() == 1
            &&& self.routes.contains_key(m.dsts[0].1)
            &&& hop == self.routes[m.dsts[0].1].last()
            &&& self.routes[m.dsts[0].1].contains(hop)
        }
    }
}


/// What a message server offers. Every operation is stated against the
/// broker that the server stands for.
pub trait MessageServer: Sized {
    /// The broker that this server stands for.
    spec fn state(&self) -> BrokerState;

    /// Whether the server's bookkeeping is in order.
    spec fn wf(&self) -> bool;

    /// A server in good order stands for a broker that meets `inv`.
    proof fn lemma_wf_inv(&self)
        requires
            self.wf(),
        ensures
            self.state().inv(),
    ;

    /// A server that knows nobody.
    fn new(id: ServerId) -> (server: Self)
        ensures
            server.wf(),
            server.state() == BrokerState::new(id),
    ;

    /// Registers a client under a fresh random identity and returns it.
    fn register_local_client(&mut self, name: String) -> (id: ClientId)
        requires
            old(self).wf(),
        ensures
            final(self).wf(),
            final(self).state() == old(self).state().register(id, name@),
    ;

    /// Every known client with its name, local and remote, in no
    /// particular order.
    fn list_users(&self) -> (users: Vec<(ClientId, String)>)
        requires
            self.wf(),
        ensures
            self.state().lists_users(users.deep_view()),
    ;

    /// Checks an envelope: the proof of work first, then the sender, then
    /// the sequence number. An accepted envelope hands its content back.
    fn handle_sequenced_message<A>(&mut self, msg: Sequence<A>) -> (result: Result<A, ClientError>)
        requires
            old(self).wf(),
        ensures
            final(self).wf(),
            final(self).state() == old(self).state().envelope(
                valid_workproof(msg.src.0, msg.workproof, WORKPROOF_STRENGTH),
                msg.src,
                msg.seqid,
            ),
            result == match old(self).state().envelope_error(
                valid_workproof(msg.src.0, msg.workproof, WORKPROOF_STRENGTH),
                msg.src,
                msg.seqid,
            ) {
                Some(e) => Err::<A, ClientError>(e),
                None => Ok(msg.content),
            },
    ;

    /// Hands out the oldest text of a client's mailbox.
    fn client_poll(&mut self, client: ClientId) -> (reply: ClientPollReply)
        requires
            old(self).wf(),
        ensures
            final(self).wf(),
            final(self).state() == old(self).state().poll(client),
            reply.deep_view() == old(self).state().poll_reply(client),
    ;

    /// Takes a client's message and answers once for each destination, in
    /// the order of the destinations.
    fn handle_client_message(&mut self, src: ClientId, msg: ClientMessage) -> (replies: Vec<
        ClientReply,
    >)
        requires
            old(self).wf(),
        ensures
            final(self).wf(),
            final(self).state() == old(self).state().send(src, msg.deep_view()),
            replies.deep_view() == old(self).state().send_replies(src, msg.deep_view()),
    ;

    /// Takes a message from another server: an announce, or a text to be
    /// delivered here or passed on.
    fn handle_server_message(&mut self, msg: ServerMessage) -> (reply: ServerReply)
        requires
            old(self).wf(),
        ensures
            final(self).wf(),
            final(self).state() == old(self).state().server(msg.deep_view()),
            reply.deep_view() == old(self).state().server_reply(msg.deep_view()),
    ;

    /// The stored route to a server.
    fn route_to(&self, destination: ServerId) -> (route: Option<Vec<ServerId>>)
        requires
            self.wf(),
        ensures
            route.deep_view() == self.state().route_to(destination),
    ;
}

} // verus!
