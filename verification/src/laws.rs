//! What holds of a broker whatever happens to it.

use crate::broker::{BrokerState, Operation, MAILBOX_SIZE};
use crate::messages::{
    ClientId, ClientMessageView, ClientPollReplyView, ClientReplyView, Letter, ServerId,
    ServerMessageView,
};
use vstd::prelude::*;

verus! {

/// A broker that knows nobody meets the invariant.
pub proof fn lemma_new_inv(id: ServerId)
    ensures
        BrokerState::new(id).inv(),
{
}

/// One text for one destination moves no route and no registration, and
/// keeps the invariant.
pub proof fn lemma_deliver(st: BrokerState, src: ClientId, dest: ClientId, content: Seq<char>)
    requires
        st.inv(),
    ensures
        st.deliver(src, dest, content).inv(),
        st.deliver(src, dest, content).routes == st.routes,
        st.deliver(src, dest, content).remote == st.remote,
        st.deliver(src, dest, content).server_id == st.server_id,
        st.deliver(src, dest, content).local.dom() =~= st.local.dom(),
        forall|c: ClientId| #[trigger]
            st.local.contains_key(c) ==> st.deliver(src, dest, content).local[c].last_seq
                == st.local[c].last_seq,
{
}

/// One text for several destinations moves no route and no registration,
/// and keeps the invariant.
pub proof fn lemma_deliver_all(
    st: BrokerState,
    src: ClientId,
    dests: Seq<ClientId>,
    content: Seq<char>,
)
    requires
        st.inv(),
    ensures
        st.deliver_all(src, dests, content).inv(),
        st.deliver_all(src, dests, content).routes == st.routes,
        st.deliver_all(src, dests, content).remote == st.remote,
        st.deliver_all(src, dests, content).server_id == st.server_id,
        st.deliver_all(src, dests, content).local.dom() =~= st.local.dom(),
        forall|c: ClientId| #[trigger]
            st.local.contains_key(c) ==> st.deliver_all(src, dests, content).local[c].last_seq
                == st.local[c].last_seq,
        st.deliver_all_replies(src, dests, content).len() == dests.len(),
    decreases dests.len(),
{
    if dests.len() > 0 {
        lemma_deliver_all(st, src, dests.drop_last(), content);
        lemma_deliver(st.deliver_all(src, dests.drop_last(), content), src, dests.last(), content);
    }
}

/// A text from another server moves no route and no registration, and
/// keeps the invariant.
pub proof fn lemma_accept_all(
    st: BrokerState,
    src: ClientId,
    dsts: Seq<(ClientId, ServerId)>,
    content: Seq<char>,
)
    requires
        st.inv(),
    ensures
        st.accept_all(src, dsts, content).inv(),
        st.accept_all(src, dsts, content).routes == st.routes,
        st.accept_all(src, dsts, content).remote == st.remote,
        st.accept_all(src, dsts, content).server_id == st.server_id,
        st.accept_all(src, dsts, content).local.dom() =~= st.local.dom(),
        forall|c: ClientId| #[trigger]
            st.local.contains_key(c) ==> st.accept_all(src, dsts, content).local[c].last_seq
                == st.local[c].last_seq,
    decreases dsts.len(),
{
    if dsts.len() > 0 {
        lemma_accept_all(st, src, dsts.drop_last(), content);
        lemma_deliver(
            st.accept_all(src, dsts.drop_last(), content),
            src,
            dsts.last().0,
            content,
        );
    }
}

/// Announced clients touch no local client and no route, and keep the
/// invariant where their home server has a route.
pub proof fn lemma_learn_clients(st: BrokerState, clients: Seq<Letter>, origin: ServerId)
    requires
        st.inv(),
        st.routes.contains_key(origin),
    ensures
        st.learn_clients(clients, origin).inv(),
        st.learn_clients(clients, origin).routes == st.routes,
        st.learn_clients(clients, origin).local == st.local,
        st.learn_clients(clients, origin).server_id == st.server_id,
    decreases clients.len(),
{
    if clients.len() > 0 {
        lemma_learn_clients(st, clients.drop_last(), origin);
    }
}

/// Every operation keeps the invariant: in particular no mailbox ever
/// holds more than `MAILBOX_SIZE` texts.
pub proof fn lemma_step_inv(st: BrokerState, op: Operation)
    requires
        st.inv(),
    ensures
        st.step(op).inv(),
{
    match op {
        Operation::Register { id, name } => {},
        Operation::Envelope { proof_ok, src, seqid } => {},
        Operation::Send { src, message } => {
            match message {
                ClientMessageView::Text { dest, content } => {
                    lemma_deliver(st, src, dest, content);
                },
                ClientMessageView::MText { dest, content } => {
                    lemma_deliver_all(st, src, dest, content);
                },
            }
        },
        Operation::Poll { client } => {},
        Operation::Server { message } => {
            match message {
                ServerMessageView::Announce { route, clients } => {
                    if route.len() > 0 {
                        lemma_learn_clients(st.learn_route(route), clients, route[0]);
                    }
                },
                ServerMessageView::Message(m) => {
                    lemma_accept_all(st, m.src, m.dsts, m.content);
                },
            }
        },
    }
}

/// After any operation on a broker that met the invariant, the mailbox
/// of every local client is within its bound.
pub proof fn lemma_mailbox_bounded(st: BrokerState, op: Operation, client: ClientId)
    requires
        st.inv(),
        st.step(op).local.contains_key(client),
    ensures
        st.step(op).local[client].mailbox.len() <= MAILBOX_SIZE,
{
    lemma_step_inv(st, op);
}

/// Sequence numbers only rise. Whatever happens, short of `client`
/// registering anew, `client` stays registered and its last accepted
/// sequence number does not fall; it moves only when an envelope from
/// `client` is accepted, and then to that envelope's number, which is
/// strictly greater than the one accepted before.
pub proof fn lemma_sequence_numbers_rise(st: BrokerState, op: Operation, client: ClientId)
    requires
        st.inv(),
        st.local.contains_key(client),
        !(op matches Operation::Register { id, .. } && id == client),
    ensures
        st.step(op).local.contains_key(client),
        st.step(op).local[client].last_seq >= st.local[client].last_seq,
        (op matches Operation::Envelope { proof_ok, src, seqid } && src == client
            && st.envelope_error(proof_ok, src, seqid) is None) ==> {
            &&& op->seqid > st.local[client].last_seq
            &&& st.step(op).local[client].last_seq == op->seqid
        },
        !(op matches Operation::Envelope { proof_ok, src, seqid } && src == client
            && st.envelope_error(proof_ok, src, seqid) is None) ==> st.step(
            op,
        ).local[client].last_seq == st.local[client].last_seq,
{
    match op {
        Operation::Register { id, name } => {},
        Operation::Envelope { proof_ok, src, seqid } => {},
        Operation::Send { src, message } => {
            match message {
                ClientMessageView::Text { dest, content } => {
                    lemma_deliver(st, src, dest, content);
                },
                ClientMessageView::MText { dest, content } => {
                    lemma_deliver_all(st, src, dest, content);
                },
            }
        },
        Operation::Poll { client } => {},
        Operation::Server { message } => {
            match message {
                ServerMessageView::Announce { route, clients } => {
                    if route.len() > 0 {
                        lemma_learn_clients(st.learn_route(route), clients, route[0]);
                    }
                },
                ServerMessageView::Message(m) => {
                    lemma_accept_all(st, m.src, m.dsts, m.content);
                },
            }
        },
    }
}

/// An envelope is accepted exactly when its proof of work holds, its
/// sender is registered and its number is above the last one accepted.
pub proof fn lemma_accepted_envelope(st: BrokerState, proof_ok: bool, src: ClientId, seqid: u128)
    ensures
        st.envelope_error(proof_ok, src, seqid) is None <==> proof_ok && st.local.contains_key(src)
            && seqid > st.local[src].last_seq,
        !proof_ok ==> st.envelope_error(proof_ok, src, seqid) == Some(
            crate::messages::ClientError::WorkProofError,
        ),
{
}

/// An envelope that repeats the number of one just accepted is refused.
pub proof fn lemma_replayed_envelope_refused(st: BrokerState, src: ClientId, seqid: u128)
    requires
        st.envelope_error(true, src, seqid) is None,
    ensures
        st.envelope(true, src, seqid).envelope_error(true, src, seqid) == Some(
            crate::messages::ClientError::SequenceError,
        ),
{
}

/// Every transfer among the replies to a client's message names the last
/// hop of a stored route: the route to the home server of the destination
/// that the reply answers.
pub proof fn lemma_transfers_follow_routes(
    st: BrokerState,
    src: ClientId,
    message: ClientMessageView,
    i: int,
)
    requires
        st.inv(),
        0 <= i < st.send_replies(src, message).len(),
    ensures
        st.transfer_follows_route(st.send_replies(src, message)[i]),
        st.send(src, message).routes == st.routes,
{
    match message {
        ClientMessageView::Text { dest, content } => {
            lemma_deliver(st, src, dest, content);
        },
        ClientMessageView::MText { dest, content } => {
            lemma_deliver_all(st, src, dest, content);
            lemma_multicast_transfers(st, src, dest, content, i);
        },
    }
}

/// The same for the replies to one text for several destinations.
pub proof fn lemma_multicast_transfers(
    st: BrokerState,
    src: ClientId,
    dests: Seq<ClientId>,
    content: Seq<char>,
    i: int,
)
    requires
        st.inv(),
        0 <= i < dests.len(),
    ensures
        st.deliver_all_replies(src, dests, content).len() == dests.len(),
        st.transfer_follows_route(st.deliver_all_replies(src, dests, content)[i]),
        st.deliver_all_replies(src, dests, content)[i] == st.deliver_all(
            src,
            dests.take(i),
            content,
        ).deliver_reply(src, dests[i], content),
    decreases dests.len(),
{
    let before = dests.drop_last();
    lemma_deliver_all(st, src, before, content);
    lemma_deliver_all(st, src, dests, content);
    if i < dests.len() - 1 {
        lemma_multicast_transfers(st, src, before, content, i);
        assert(before.take(i) =~= dests.take(i));
    } else {
        assert(dests.take(i) =~= before);
    }
}

/// A broker that has heard no announce transfers nothing: a text for a
/// destination that is not local is kept, and the reply is `Delayed`.
pub proof fn lemma_no_announce_no_transfer(
    st: BrokerState,
    src: ClientId,
    dest: ClientId,
    content: Seq<char>,
)
    requires
        forall|c: ClientId| !st.remote.contains_key(c),
    ensures
        !(st.deliver_reply(src, dest, content) is Transfer),
        !st.local.contains_key(dest) ==> st.deliver_reply(src, dest, content)
            == ClientReplyView::Delayed && st.deliver(src, dest, content).waiting(dest)
            == st.waiting(dest).push((src, content)),
        forall|c: ClientId| !st.deliver(src, dest, content).remote.contains_key(c),
{
}

/// The state after `count` polls of one client.
pub open spec fn polled(st: BrokerState, client: ClientId, count: nat) -> BrokerState
    decreases count,
{
    if count == 0 {
        st
    } else {
        polled(st.poll(client), client, (count - 1) as nat)
    }
}

/// Polling hands out the mailbox oldest first: after `count` polls the
/// next reply is the text that stood at place `count`.
pub proof fn lemma_polls_in_order(st: BrokerState, client: ClientId, count: nat)
    requires
        st.local.contains_key(client),
        count < st.local[client].mailbox.len(),
    ensures
        polled(st, client, count).poll_reply(client) == (ClientPollReplyView::Message {
            src: st.local[client].mailbox[count as int].0,
            content: st.local[client].mailbox[count as int].1,
        }),
    decreases count,
{
    if count > 0 {
        let next = st.poll(client);
        assert(next.local[client].mailbox == st.local[client].mailbox.drop_first());
        lemma_polls_in_order(next, client, (count - 1) as nat);
    }
}

/// A delivered text is polled after the texts that were in the mailbox
/// before it, and before any other.
pub proof fn lemma_delivered_text_is_polled_in_turn(
    st: BrokerState,
    src: ClientId,
    dest: ClientId,
    content: Seq<char>,
)
    requires
        st.local.contains_key(dest),
        st.local[dest].mailbox.len() < MAILBOX_SIZE,
    ensures
        st.deliver_reply(src, dest, content) == ClientReplyView::Delivered,
        polled(
            st.deliver(src, dest, content),
            dest,
            st.local[dest].mailbox.len(),
        ).poll_reply(dest) == (ClientPollReplyView::Message { src, content }),
{
    lemma_polls_in_order(st.deliver(src, dest, content), dest, st.local[dest].mailbox.len());
}

} // verus!
