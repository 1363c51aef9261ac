//! The broker in memory: hash maps keyed by the identifiers' values.

use crate::broker::{
    bound_for, foreign_homes, BrokerState, LocalState, MessageServer, RemoteState, MAILBOX_SIZE,
    WORKPROOF_STRENGTH,
};
use crate::messages::{
    random_id, ClientError, ClientId, ClientMessage, ClientPollReply, ClientReply,
    FullyQualifiedMessage, Letter, Outgoing, Sequence, ServerId, ServerMessage, ServerReply,
};
use crate::workproof::verify_workproof;
use std::collections::{HashMap, VecDeque};
use vstd::prelude::*;
use vstd::std_specs::iter::IteratorSpec;

verus! {

/// The texts of a queue as the model sees them.
pub open spec fn letters(texts: Seq<(ClientId, String)>) -> Seq<Letter> {
    Seq::new(texts.len(), |i: int| (texts[i].0, texts[i].1@))
}

/// A registered client as the server keeps it.
struct LocalClient {
    name: String,
    last_seq: u128,
    mailbox: VecDeque<(ClientId, String)>,
}

/// An announced client as the server keeps it.
struct RemoteClient {
    name: String,
    home: ServerId,
}

impl LocalClient {
    spec fn state(self) -> LocalState {
        LocalState { name: self.name@, last_seq: self.last_seq, mailbox: letters(self.mailbox@) }
    }
}

impl RemoteClient {
    spec fn state(self) -> RemoteState {
        RemoteState { name: self.name@, home: self.home }
    }
}

/// Whether `server` is among `list`.
fn contains_server(list: &Vec<ServerId>, server: ServerId) -> (found: bool)
    ensures
        found == list@.contains(server),
{
    let mut i: usize = 0;
    while i < list.len()
        invariant
            i <= list.len(),
            forall|j: int| 0 <= j < i ==> list@[j] != server,
        decreases list.len() - i,
    {
        if list[i] == server {
            return true;
        }
        i = i + 1;
    }
    false
}

/// The destinations whose home is `home`, in order.
fn select(dsts: &Vec<(ClientId, ServerId)>, home: ServerId) -> (group: Vec<(ClientId, ServerId)>)
    ensures
        group@ == bound_for(dsts@, home),
{
    let mut group: Vec<(ClientId, ServerId)> = Vec::new();
    let mut i: usize = 0;
    assert(dsts@.take(0) =~= Seq::empty());
    while i < dsts.len()
        invariant
            i <= dsts.len(),
            group@ == bound_for(dsts@.take(i as int), home),
        decreases dsts.len() - i,
    {
        assert(dsts@.take(i + 1).drop_last() =~= dsts@.take(i as int));
        if dsts[i].1 == home {
            group.push(dsts[i]);
        }
        i = i + 1;
    }
    assert(dsts@.take(dsts.len() as int) =~= dsts@);
    group
}

/// A copy of a route.
fn copy_route(route: &Vec<ServerId>) -> (copy: Vec<ServerId>)
    ensures
        copy@ == route@,
{
    let mut copy: Vec<ServerId> = Vec::new();
    let mut i: usize = 0;
    while i < route.len()
        invariant
            i <= route.len(),
            copy@ == route@.take(i as int),
        decreases route.len() - i,
    {
        copy.push(route[i]);
        assert(route@.take(i + 1) =~= route@.take(i as int).push(route@[i as int]));
        i = i + 1;
    }
    assert(route@.take(route.len() as int) =~= route@);
    copy
}

/// A message server that keeps everything in memory.
pub struct Server {
    id: ServerId,
    local: HashMap<u128, LocalClient>,
    remote: HashMap<u128, RemoteClient>,
    routes: HashMap<u128, Vec<ServerId>>,
    pending: HashMap<u128, Vec<(ClientId, String)>>,
}

impl Server {
    spec fn local_state(&self) -> Map<ClientId, LocalState> {
        Map::new(
            |c: ClientId| self.local@.contains_key(c.0),
            |c: ClientId| self.local@[c.0].state(),
        )
    }

    spec fn remote_state(&self) -> Map<ClientId, RemoteState> {
        Map::new(
            |c: ClientId| self.remote@.contains_key(c.0),
            |c: ClientId| self.remote@[c.0].state(),
        )
    }

    spec fn routes_state(&self) -> Map<ServerId, Seq<ServerId>> {
        Map::new(|s: ServerId| self.routes@.contains_key(s.0), |s: ServerId| self.routes@[s.0]@)
    }

    spec fn pending_state(&self) -> Map<ClientId, Seq<Letter>> {
        Map::new(
            |c: ClientId| self.pending@.contains_key(c.0),
            |c: ClientId| letters(self.pending@[c.0]@),
        )
    }

    /// Checks an envelope whose proof of work was already judged.
    pub fn check_envelope<A>(&mut self, proof_ok: bool, msg: Sequence<A>) -> (result: Result<A, ClientError>)
        requires
            old(self).wf(),
        ensures
            final(self).wf(),
            final(self).state() == old(self).state().envelope(proof_ok, msg.src, msg.seqid),
            result == match old(self).state().envelope_error(proof_ok, msg.src, msg.seqid) {
                Some(e) => Err::<A, ClientError>(e),
                None => Ok(msg.content),
            },
    {
        if !proof_ok {
            return Err(ClientError::WorkProofError);
        }
        let key = msg.src.0;
        let last_seq = match self.local.get(&key) {
            None => {
                return Err(ClientError::UnknownClient);
            },
            Some(client) => client.last_seq,
        };
        if msg.seqid <= last_seq {
            return Err(ClientError::SequenceError);
        }
        let mut client = self.local.remove(&key).unwrap();
        client.last_seq = msg.seqid;
        self.local.insert(key, client);
        proof {
            let next = old(self).state().envelope(proof_ok, msg.src, msg.seqid);
            assert(self.state().local =~= next.local);
            assert(self.state().routes =~= next.routes);
            assert(self.state().remote =~= next.remote);
            assert(self.state().pending =~= next.pending);
        }
        Ok(msg.content)
    }

    /// Registers a client under the given identity. A client that held the
    /// identity before is replaced.
    pub fn register_as(&mut self, id: ClientId, name: String)
        requires
            old(self).wf(),
        ensures
            final(self).wf(),
            final(self).state() == old(self).state().register(id, name@),
    {
        let ghost name_view = name@;
        let client = LocalClient { name, last_seq: 0, mailbox: VecDeque::new() };
        self.local.insert(id.0, client);
        proof {
            let next = old(self).state().register(id, name_view);
            assert(letters(Seq::<(ClientId, String)>::empty()) =~= Seq::<Letter>::empty());
            assert(self.state().local =~= next.local);
            assert(self.state().routes =~= next.routes);
            assert(self.state().remote =~= next.remote);
            assert(self.state().pending =~= next.pending);
        }
    }
    /// Puts a text in the mailbox of a local client that has room.
    fn post(&mut self, src: ClientId, dest: ClientId, content: String)
        requires
            old(self).wf(),
            old(self).state().local.contains_key(dest),
            old(self).state().local[dest].mailbox.len() < MAILBOX_SIZE,
        ensures
            final(self).wf(),
            final(self).state() == old(self).state().deliver(src, dest, content@),
    {
        let ghost text = content@;
        let ghost before = self.local@[dest.0].mailbox@;
        let mut client = self.local.remove(&dest.0).unwrap();
        client.mailbox.push_back((src, content));
        self.local.insert(dest.0, client);
        proof {
            let next = old(self).state().deliver(src, dest, text);
            assert(letters(before.push((src, content))) =~= letters(before).push((src, text)));
            assert(self.state().local =~= next.local);
            assert(self.state().routes =~= next.routes);
            assert(self.state().remote =~= next.remote);
            assert(self.state().pending =~= next.pending);
        }
    }

    /// Keeps a text for a destination that nobody has announced.
    fn keep(&mut self, src: ClientId, dest: ClientId, content: String)
        requires
            old(self).wf(),
            !old(self).state().local.contains_key(dest),
            !old(self).state().forwards(dest),
        ensures
            final(self).wf(),
            final(self).state() == old(self).state().deliver(src, dest, content@),
    {
        let ghost text = content@;
        let ghost waiting = old(self).state().waiting(dest);
        let mut queue = match self.pending.remove(&dest.0) {
            Some(queue) => queue,
            None => Vec::new(),
        };
        let ghost before = queue@;
        assert(letters(before) =~= waiting);
        queue.push((src, content));
        self.pending.insert(dest.0, queue);
        proof {
            let next = old(self).state().deliver(src, dest, text);
            assert(letters(before.push((src, content))) =~= letters(before).push((src, text)));
            assert(self.state().local =~= next.local);
            assert(self.state().routes =~= next.routes);
            assert(self.state().remote =~= next.remote);
            assert(self.state().pending =~= next.pending);
        }
    }

    /// The last hop of the route to the home of a remote client, with the
    /// home, where `dest` is such a client.
    fn next_hop(&self, dest: ClientId) -> (found: Option<(ServerId, ServerId)>)
        requires
            self.wf(),
        ensures
            match found {
                Some((hop, home)) => self.state().remote.contains_key(dest)
                    && self.state().routes.contains_key(home) && home
                    == self.state().remote[dest].home && hop == self.state().routes[home].last(),
                None => !(self.state().remote.contains_key(dest) && self.state().routes.contains_key(
                    self.state().remote[dest].home,
                )),
            },
    {
        let home = match self.remote.get(&dest.0) {
            Some(client) => client.home,
            None => {
                return None;
            },
        };
        assert(self.state().remote.contains_key(dest));
        match self.routes.get(&home.0) {
            Some(route) => {
                assert(self.state().routes.contains_key(home));
                assert(self.state().routes[home] == route@);
                Some((route[route.len() - 1], home))
            },
            None => None,
        }
    }

    /// Handles one text for one destination.
    fn deliver(&mut self, src: ClientId, dest: ClientId, content: String) -> (reply: ClientReply)
        requires
            old(self).wf(),
        ensures
            final(self).wf(),
            final(self).state() == old(self).state().deliver(src, dest, content@),
            reply.deep_view() == old(self).state().deliver_reply(src, dest, content@),
    {
        let room = match self.local.get(&dest.0) {
            Some(client) => Some(client.mailbox.len() < MAILBOX_SIZE),
            None => None,
        };
        assert(room is Some <==> self.state().local.contains_key(dest));
        match room {
            Some(true) => {
                self.post(src, dest, content);
                ClientReply::Delivered
            },
            Some(false) => ClientReply::Error(ClientError::BoxFull(dest)),
            None => match self.next_hop(dest) {
                Some((hop, home)) => {
                    let mut dsts = Vec::new();
                    dsts.push((dest, home));
                    assert(dsts@ =~= seq![(dest, home)]);
                    ClientReply::Transfer(
                        hop,
                        ServerMessage::Message(
                            FullyQualifiedMessage { src, srcsrv: self.id, dsts, content },
                        ),
                    )
                },
                None => {
                    self.keep(src, dest, content);
                    ClientReply::Delayed
                },
            },
        }
    }

    /// Takes a text from another server for a destination here.
    fn accept(&mut self, src: ClientId, dest: ClientId, content: String)
        requires
            old(self).wf(),
        ensures
            final(self).wf(),
            final(self).state() == old(self).state().accept(src, dest, content@),
    {
        let room = match self.local.get(&dest.0) {
            Some(client) => client.mailbox.len() < MAILBOX_SIZE,
            None => false,
        };
        assert(room <==> self.state().local.contains_key(dest)
            && self.state().local[dest].mailbox.len() < MAILBOX_SIZE);
        if room {
            self.post(src, dest, content);
        }
    }

    /// Stores an announced route unless one that is no longer is known.
    fn learn_route(&mut self, route: Vec<ServerId>)
        requires
            old(self).wf(),
            route@.len() > 0,
        ensures
            final(self).wf(),
            final(self).state() == old(self).state().learn_route(route@),
    {
        let origin = route[0];
        let known = match self.routes.get(&origin.0) {
            Some(stored) => stored.len() <= route.len(),
            None => false,
        };
        if !known {
            let ghost hops = route@;
            self.routes.insert(origin.0, route);
            proof {
                let next = old(self).state().learn_route(hops);
                assert(self.state().local =~= next.local);
                assert(self.state().routes =~= next.routes);
                assert(self.state().remote =~= next.remote);
                assert(self.state().pending =~= next.pending);
            }
        }
    }

    /// Records an announced client and appends to `out` the messages that
    /// carry the texts which waited for it.
    fn learn_client(
        &mut self,
        client: ClientId,
        name: String,
        origin: ServerId,
        hop: ServerId,
        out: &mut Vec<Outgoing<FullyQualifiedMessage>>,
    )
        requires
            old(self).wf(),
            old(self).state().routes.contains_key(origin),
        ensures
            final(self).wf(),
            final(self).state() == old(self).state().learn_client(client, name@, origin),
            final(out).deep_view() == old(out).deep_view() + old(self).state().released(
                client,
                origin,
                hop,
            ),
    {
        let ghost label = name@;
        let ghost freed = old(self).state().released(client, origin, hop);
        self.remote.insert(client.0, RemoteClient { name, home: origin });
        let waiting = self.pending.remove(&client.0);
        proof {
            let next = old(self).state().learn_client(client, label, origin);
            assert(self.state().local =~= next.local);
            assert(self.state().routes =~= next.routes);
            assert(self.state().remote =~= next.remote);
            assert(self.state().pending =~= next.pending);
        }
        match waiting {
            Some(queue) => {
                let mut i: usize = 0;
                assert(freed.take(0) =~= Seq::empty());
                assert(out.deep_view() =~= old(out).deep_view() + freed.take(0));
                while i < queue.len()
                    invariant
                        i <= queue.len(),
                        freed.len() == queue.len(),
                        forall|j: int|
                            0 <= j < queue.len() ==> #[trigger] freed[j] == (Outgoing {
                                nexthop: hop,
                                message: crate::broker::single_hop(
                                    queue@[j].0,
                                    self.id,
                                    client,
                                    origin,
                                    queue@[j].1@,
                                ),
                            }),
                        out.deep_view() == old(out).deep_view() + freed.take(i as int),
                    decreases queue.len() - i,
                {
                    let ghost before = out.deep_view();
                    let src = queue[i].0;
                    let content = queue[i].1.clone();
                    let mut dsts = Vec::new();
                    dsts.push((client, origin));
                    assert(dsts@ =~= seq![(client, origin)]);
                    let carrier = Outgoing {
                        nexthop: hop,
                        message: FullyQualifiedMessage { src, srcsrv: self.id, dsts, content },
                    };
                    out.push(carrier);
                    proof {
                        assert(carrier.deep_view() == freed[i as int]);
                        assert(out.deep_view() =~= before.push(carrier.deep_view()));
                        assert(freed.take(i + 1) =~= freed.take(i as int).push(freed[i as int]));
                        assert(old(out).deep_view() + freed.take(i + 1) =~= (old(out).deep_view()
                            + freed.take(i as int)).push(freed[i as int]));
                    }
                    i = i + 1;
                }
                assert(freed.take(queue.len() as int) =~= freed);
            },
            None => {
                assert(freed =~= Seq::empty());
                assert(out.deep_view() =~= old(out).deep_view() + freed);
            },
        }
    }

    /// Handles an announce with a route that is not empty.
    fn announce(&mut self, route: Vec<ServerId>, clients: Vec<(ClientId, String)>) -> (out: Vec<
        Outgoing<FullyQualifiedMessage>,
    >)
        requires
            old(self).wf(),
            route@.len() > 0,
        ensures
            final(self).wf(),
            final(self).state() == old(self).state().learn_route(route@).learn_clients(
                clients.deep_view(),
                route@[0],
            ),
            out.deep_view() == old(self).state().learn_route(route@).released_all(
                clients.deep_view(),
                route@[0],
                route@.last(),
            ),
    {
        let origin = route[0];
        let hop = route[route.len() - 1];
        self.learn_route(route);
        let ghost start = self.state();
        let ghost names = clients.deep_view();
        let mut out: Vec<Outgoing<FullyQualifiedMessage>> = Vec::new();
        let mut i: usize = 0;
        assert(names.take(0) =~= Seq::empty());
        assert(out.deep_view() =~= Seq::empty());
        while i < clients.len()
            invariant
                i <= clients.len(),
                names == clients.deep_view(),
                self.wf(),
                start.routes.contains_key(origin),
                self.state() == start.learn_clients(names.take(i as int), origin),
                self.state().routes == start.routes,
                out.deep_view() == start.released_all(names.take(i as int), origin, hop),
            decreases clients.len() - i,
        {
            let client = clients[i].0;
            let name = clients[i].1.clone();
            proof {
                assert(names.take(i + 1).drop_last() =~= names.take(i as int));
                assert(names.take(i + 1).last() == (client, name@));
            }
            self.learn_client(client, name, origin, hop, &mut out);
            i = i + 1;
        }
        assert(names.take(clients.len() as int) =~= names);
        out
    }

    /// Handles a text from another server: delivers it to the
    /// destinations that live here and passes it on for the others.
    fn relay(&mut self, message: FullyQualifiedMessage) -> (out: Vec<
        Outgoing<FullyQualifiedMessage>,
    >)
        requires
            old(self).wf(),
        ensures
            final(self).wf(),
            final(self).state() == old(self).state().accept_all(
                message.src,
                message.dsts@,
                message.content@,
            ),
            out.deep_view() == old(self).state().relayed(
                message.deep_view(),
                foreign_homes(message.dsts@, old(self).state().server_id),
            ),
    {
        let ghost start = self.state();
        let ghost dsts = message.dsts@;
        let mut homes: Vec<ServerId> = Vec::new();
        let mut i: usize = 0;
        assert(dsts.take(0) =~= Seq::empty());
        while i < message.dsts.len()
            invariant
                i <= message.dsts.len(),
                dsts == message.dsts@,
                self.wf(),
                self.state() == start.accept_all(message.src, dsts.take(i as int), message.content@),
                self.state().routes == start.routes,
                self.state().server_id == start.server_id,
                homes@ == foreign_homes(dsts.take(i as int), start.server_id),
            decreases message.dsts.len() - i,
        {
            let dest = message.dsts[i].0;
            let home = message.dsts[i].1;
            assert(dsts.take(i + 1).drop_last() =~= dsts.take(i as int));
            if home == self.id {
                self.accept(message.src, dest, message.content.clone());
            } else if !contains_server(&homes, home) {
                homes.push(home);
            }
            i = i + 1;
        }
        assert(dsts.take(message.dsts.len() as int) =~= dsts);
        let mut out: Vec<Outgoing<FullyQualifiedMessage>> = Vec::new();
        let mut j: usize = 0;
        assert(homes@.take(0) =~= Seq::empty());
        assert(out.deep_view() =~= Seq::empty());
        while j < homes.len()
            invariant
                j <= homes.len(),
                self.wf(),
                self.state().routes == start.routes,
                out.deep_view() == start.relayed(message.deep_view(), homes@.take(j as int)),
            decreases homes.len() - j,
        {
            let home = homes[j];
            let ghost before = out.deep_view();
            assert(homes@.take(j + 1).drop_last() =~= homes@.take(j as int));
            assert(self.state().routes.contains_key(home) <==> self.routes@.contains_key(home.0));
            match self.routes.get(&home.0) {
                Some(route) => {
                    assert(self.state().routes[home] == route@);
                    let hop = route[route.len() - 1];
                    let group = select(&message.dsts, home);
                    let carrier = Outgoing {
                        nexthop: hop,
                        message: FullyQualifiedMessage {
                            src: message.src,
                            srcsrv: message.srcsrv,
                            dsts: group,
                            content: message.content.clone(),
                        },
                    };
                    out.push(carrier);
                    assert(out.deep_view() =~= before.push(carrier.deep_view()));
                },
                None => {},
            }
            j = j + 1;
        }
        assert(homes@.take(homes.len() as int) =~= homes@);
        out
    }
}

/// Every method below is held to the contract that the trait gives it.
impl MessageServer for Server {
    closed spec fn state(&self) -> BrokerState {
        BrokerState {
            server_id: self.id,
            local: self.local_state(),
            remote: self.remote_state(),
            routes: self.routes_state(),
            pending: self.pending_state(),
        }
    }

    closed spec fn wf(&self) -> bool {
        self.state().inv()
    }

    proof fn lemma_wf_inv(&self) {
    }

    fn new(id: ServerId) -> (server: Self) {
        let server = Server {
            id,
            local: HashMap::new(),
            remote: HashMap::new(),
            routes: HashMap::new(),
            pending: HashMap::new(),
        };
        proof {
            let empty = BrokerState::new(id);
            assert(server.state().local =~= empty.local);
            assert(server.state().routes =~= empty.routes);
            assert(server.state().remote =~= empty.remote);
            assert(server.state().pending =~= empty.pending);
        }
        server
    }

    fn register_local_client(&mut self, name: String) -> (id: ClientId) {
        let id = ClientId(random_id());
        self.register_as(id, name);
        id
    }

    fn handle_sequenced_message<A>(&mut self, msg: Sequence<A>) -> (result: Result<
        A,
        ClientError,
    >) {
        let proof_ok = verify_workproof(msg.src.0, msg.workproof, WORKPROOF_STRENGTH);
        self.check_envelope(proof_ok, msg)
    }

    fn client_poll(&mut self, client: ClientId) -> (reply: ClientPollReply) {
        let waiting = match self.local.get(&client.0) {
            Some(found) => found.mailbox.len() > 0,
            None => false,
        };
        if !waiting {
            return ClientPollReply::Nothing;
        }
        let ghost before = self.local@[client.0].mailbox@;
        let mut found = self.local.remove(&client.0).unwrap();
        let head = found.mailbox.pop_front().unwrap();
        self.local.insert(client.0, found);
        proof {
            let next = old(self).state().poll(client);
            assert(letters(before.subrange(1, before.len() as int)) =~= letters(
                before,
            ).drop_first());
            assert(self.state().local =~= next.local);
            assert(self.state().routes =~= next.routes);
            assert(self.state().remote =~= next.remote);
            assert(self.state().pending =~= next.pending);
        }
        ClientPollReply::Message { src: head.0, content: head.1 }
    }

    fn handle_client_message(&mut self, src: ClientId, msg: ClientMessage) -> (replies: Vec<
        ClientReply,
    >) {
        let ghost start = self.state();
        let mut replies: Vec<ClientReply> = Vec::new();
        match msg {
            ClientMessage::Text { dest, content } => {
                let reply = self.deliver(src, dest, content);
                replies.push(reply);
                assert(replies.deep_view() =~= seq![reply.deep_view()]);
            },
            ClientMessage::MText { dest, content } => {
                let mut i: usize = 0;
                assert(dest@.take(0) =~= Seq::empty());
                assert(replies.deep_view() =~= Seq::empty());
                while i < dest.len()
                    invariant
                        i <= dest.len(),
                        self.wf(),
                        self.state() == start.deliver_all(src, dest@.take(i as int), content@),
                        replies.deep_view() == start.deliver_all_replies(
                            src,
                            dest@.take(i as int),
                            content@,
                        ),
                    decreases dest.len() - i,
                {
                    let ghost before = replies.deep_view();
                    let reply = self.deliver(src, dest[i], content.clone());
                    replies.push(reply);
                    proof {
                        assert(dest@.take(i + 1).drop_last() =~= dest@.take(i as int));
                        assert(replies.deep_view() =~= before.push(reply.deep_view()));
                    }
                    i = i + 1;
                }
                assert(dest@.take(dest.len() as int) =~= dest@);
            },
        }
        replies
    }

    fn handle_server_message(&mut self, msg: ServerMessage) -> (reply: ServerReply) {
        match msg {
            ServerMessage::Announce { route, clients } => {
                if route.len() == 0 {
                    ServerReply::EmptyRoute
                } else {
                    ServerReply::Outgoing(self.announce(route, clients))
                }
            },
            ServerMessage::Message(message) => ServerReply::Outgoing(self.relay(message)),
        }
    }

    fn route_to(&self, destination: ServerId) -> (route: Option<Vec<ServerId>>) {
        match self.routes.get(&destination.0) {
            Some(stored) => {
                let copy = copy_route(stored);
                assert(copy.deep_view() =~= stored@);
                Some(copy)
            },
            None => None,
        }
    }

    fn list_users(&self) -> (users: Vec<(ClientId, String)>) {
        let mut users: Vec<(ClientId, String)> = Vec::new();
        let ghost here = self.local.iter().remaining();
        for entry in it: self.local.iter()
            invariant
                it.seq() == here,
                here.no_duplicates(),
                users@.len() == it.index(),
                forall|i: int|
                    0 <= i < users@.len() ==> (#[trigger] users@[i]).0.0 == *here[i].0
                        && users@[i].1@ == here[i].1.name@,
        {
            let (key, client) = entry;
            users.push((ClientId(*key), client.name.clone()));
        }
        let ghost locals = users@.len();
        let ghost there = self.remote.iter().remaining();
        let ghost picked: Seq<int> = Seq::empty();
        for entry in it: self.remote.iter()
            invariant
                it.seq() == there,
                there.no_duplicates(),
                here.no_duplicates(),
                locals == here.len() <= users@.len(),
                users@.len() == locals + picked.len(),
                forall|i: int|
                    0 <= i < locals ==> (#[trigger] users@[i]).0.0 == *here[i].0 && users@[i].1@
                        == here[i].1.name@,
                forall|i: int|
                    0 <= i < picked.len() ==> 0 <= #[trigger] picked[i] < it.index()
                        && !self.local@.contains_key(*there[picked[i]].0) && users@[locals + i].0.0
                        == *there[picked[i]].0 && users@[locals + i].1@ == there[picked[i]].1.name@,
                forall|i: int, j: int| 0 <= i < j < picked.len() ==> picked[i] < picked[j],
                forall|k: int|
                    0 <= k < it.index() && !self.local@.contains_key(*there[k].0)
                        ==> #[trigger] picked.contains(k),
        {
            let (key, client) = entry;
            if !self.local.contains_key(key) {
                users.push((ClientId(*key), client.name.clone()));
                proof {
                    let k = it.index() as int;
                    let grown = picked.push(k);
                    assert forall|m: int|
                        0 <= m < it.index() + 1 && !self.local@.contains_key(
                            *there[m].0,
                        ) implies grown.contains(m) by {
                        if m < k {
                            assert(picked.contains(m));
                            let at = choose|at: int| 0 <= at < picked.len() && picked[at] == m;
                            assert(grown[at] == m);
                        } else {
                            assert(grown[picked.len() as int] == m);
                        }
                    }
                    picked = grown;
                }
            }
        }
        proof {
            let state = self.state();
            let listed = users.deep_view();
            assert forall|i: int| 0 <= i < listed.len() implies state.knows(
                #[trigger] listed[i].0,
            ) && listed[i].1 == state.name_of(listed[i].0) by {
                if i < locals {
                    assert(self.local@.contains_key(*here[i].0));
                    assert(users@[i].0 == ClientId(*here[i].0));
                } else {
                    let k = picked[i - locals];
                    assert(self.remote@.contains_key(*there[k].0));
                    assert(users@[i].0 == ClientId(*there[k].0));
                }
            }
            assert forall|i: int, j: int| 0 <= i < j < listed.len() implies listed[i].0
                != listed[j].0 by {
                if j < locals {
                    assert(here[i] != here[j]);
                    assert(self.local@[*here[i].0] == *here[i].1);
                    assert(self.local@[*here[j].0] == *here[j].1);
                    assert(*here[i].0 != *here[j].0);
                    assert(users@[i].0.0 != users@[j].0.0);
                } else if i < locals {
                    assert(self.local@.contains_key(*here[i].0));
                    let b = picked[j - locals];
                    assert(!self.local@.contains_key(*there[b].0));
                    assert(users@[i].0.0 != users@[j].0.0);
                } else {
                    let a = picked[i - locals];
                    let b = picked[j - locals];
                    assert(a < b);
                    assert(there[a] != there[b]);
                    assert(self.remote@[*there[a].0] == *there[a].1);
                    assert(self.remote@[*there[b].0] == *there[b].1);
                    assert(*there[a].0 != *there[b].0);
                    assert(users@[i].0.0 != users@[j].0.0);
                }
            }
            assert forall|c: ClientId| state.knows(c) implies exists|i: int|
                0 <= i < listed.len() && #[trigger] listed[i].0 == c by {
                if self.local@.contains_key(c.0) {
                    assert(here.contains((&c.0, &self.local@[c.0])));
                    let i = choose|i: int| 0 <= i < here.len() && here[i] == (&c.0, &self.local@[c.0]);
                    assert(listed[i].0 == c);
                } else {
                    assert(there.contains((&c.0, &self.remote@[c.0])));
                    let k = choose|k: int|
                        0 <= k < there.len() && there[k] == (&c.0, &self.remote@[c.0]);
                    assert(picked.contains(k));
                    let at = choose|at: int| 0 <= at < picked.len() && picked[at] == k;
                    assert(listed[locals + at].0 == c);
                }
            }
        }
        users
    }
}

} // verus!
