//! Writing values as bytes. Each function appends to `w` the bytes that
//! stand for the value, and notes that the value is one that can be read
//! back.

use crate::bytes::put_le;
use crate::messages::{
    AuthMessage, ClientError, ClientId, ClientMessage, ClientPollReply, ClientQuery, ClientReply,
    DelayedError, FullyQualifiedMessage, Sequence, ServerId, ServerMessage,
};
use crate::netproto::format::{each_fits, lemma_wire_each_push, wire_each, wire_id, Wire};
use vstd::prelude::*;

verus! {

/// The views of `items`, in their order.
pub open spec fn views<T: DeepView>(items: Seq<T>) -> Seq<T::V> {
    Seq::new(items.len(), |i: int| items[i].deep_view())
}

/// Writes a variable-width integer under the smallest tag that holds it.
pub fn u128(w: &mut Vec<u8>, m: &u128)
    ensures
        final(w)@ == old(w)@ + m.wire(),
        m.fits(),
{
    let value = *m;
    if value < 251 {
        w.push(value as u8);
        assert(w@ =~= old(w)@ + value.wire());
    } else {
        let ghost start = w@;
        if value <= 0xFFFF {
            w.push(251);
            put_le(w, value, 2);
        } else if value <= 0xFFFF_FFFF {
            w.push(252);
            put_le(w, value, 4);
        } else if value <= 0xFFFF_FFFF_FFFF_FFFF {
            w.push(253);
            put_le(w, value, 8);
        } else {
            w.push(254);
            put_le(w, value, 16);
        }
        assert(w@ =~= start + value.wire());
    }
}

fn put_id(w: &mut Vec<u8>, value: u128)
    ensures
        final(w)@ == old(w)@ + wire_id(value),
{
    w.push(16);
    put_le(w, value, 16);
    assert(w@ =~= old(w)@ + wire_id(value));
}

/// Writes a client's identifier.
pub fn clientid(w: &mut Vec<u8>, m: &ClientId)
    ensures
        final(w)@ == old(w)@ + m.wire(),
        m.fits(),
{
    put_id(w, m.0);
}

/// Writes a server's identifier.
pub fn serverid(w: &mut Vec<u8>, m: &ServerId)
    ensures
        final(w)@ == old(w)@ + m.wire(),
        m.fits(),
{
    put_id(w, m.0);
}

/// Appends bytes as they are.
fn put_raw(w: &mut Vec<u8>, bytes: &[u8])
    ensures
        final(w)@ == old(w)@ + bytes@,
{
    let mut i: usize = 0;
    let len = bytes.len();
    assert(bytes@.take(0) =~= Seq::empty());
    assert(w@ =~= old(w)@ + bytes@.take(0));
    while i < len
        invariant
            i <= len == bytes@.len(),
            w@ == old(w)@ + bytes@.take(i as int),
        decreases len - i,
    {
        w.push(bytes[i]);
        assert(old(w)@ + bytes@.take(i + 1) =~= (old(w)@ + bytes@.take(i as int)).push(
            bytes@[i as int],
        ));
        i = i + 1;
    }
    assert(bytes@.take(len as int) =~= bytes@);
}

/// Writes a text: the number of its UTF-8 bytes, then the bytes.
pub fn string(w: &mut Vec<u8>, m: &str)
    ensures
        final(w)@ == old(w)@ + m@.wire(),
        m@.fits(),
{
    let bytes = m.as_bytes();
    let len = bytes.len() as u128;
    u128(w, &len);
    put_raw(w, bytes);
    assert(w@ =~= old(w)@ + m@.wire());
}

/// Writes each of `items` with `one`.
fn write_each<T: DeepView, F>(w: &mut Vec<u8>, items: &[T], one: F) where
    F: Fn(&mut Vec<u8>, &T),
    T::V: Wire,

    requires
        forall|w0: &mut Vec<u8>, x: &T| call_requires(one, (w0, x)),
        forall|w0: &mut Vec<u8>, x: &T| #[trigger]
            call_ensures(one, (w0, x), ()) ==> final(w0)@ == w0@ + x.deep_view().wire()
                && x.deep_view().fits(),
    ensures
        final(w)@ == old(w)@ + wire_each(views(items@)),
        each_fits(views(items@)),
{
    let mut i: usize = 0;
    let len = items.len();
    let ghost all = views(items@);
    assert(all.take(0) =~= Seq::empty());
    assert(w@ =~= old(w)@ + wire_each(all.take(0)));
    while i < len
        invariant
            i <= len == items@.len(),
            all == views(items@),
            forall|w0: &mut Vec<u8>, x: &T| call_requires(one, (w0, x)),
            forall|w0: &mut Vec<u8>, x: &T| #[trigger]
                call_ensures(one, (w0, x), ()) ==> final(w0)@ == w0@ + x.deep_view().wire()
                    && x.deep_view().fits(),
            w@ == old(w)@ + wire_each(all.take(i as int)),
            each_fits(all.take(i as int)),
        decreases len - i,
    {
        let ghost before = w@;
        one(w, &items[i]);
        proof {
            let item = items@[i as int].deep_view();
            assert(w@ == before + item.wire());
            assert(all.take(i + 1) =~= all.take(i as int).push(item));
            lemma_wire_each_push(all.take(i as int), item);
            assert(w@ =~= old(w)@ + wire_each(all.take(i + 1)));
            assert forall|j: int| 0 <= j < i + 1 implies (#[trigger] all.take(i + 1)[j]).fits() by {
                if j < i {
                    assert(all.take(i as int)[j].fits());
                }
            }
        }
        i = i + 1;
    }
    assert(all.take(len as int) =~= all);
}

/// Writes a collection: the number of its items, then each with `one`.
fn write_list<T: DeepView, F>(w: &mut Vec<u8>, items: &[T], one: F) where
    F: Fn(&mut Vec<u8>, &T),
    T::V: Wire,

    requires
        forall|w0: &mut Vec<u8>, x: &T| call_requires(one, (w0, x)),
        forall|w0: &mut Vec<u8>, x: &T| #[trigger]
            call_ensures(one, (w0, x), ()) ==> final(w0)@ == w0@ + x.deep_view().wire()
                && x.deep_view().fits(),
    ensures
        final(w)@ == old(w)@ + views(items@).wire(),
        views(items@).fits(),
{
    let count = items.len() as u128;
    u128(w, &count);
    write_each(w, items, one);
    assert(w@ =~= old(w)@ + views(items@).wire());
}

fn put_home(w: &mut Vec<u8>, m: &(ClientId, ServerId))
    ensures
        final(w)@ == old(w)@ + m.deep_view().wire(),
        m.deep_view().fits(),
{
    clientid(w, &m.0);
    serverid(w, &m.1);
    assert(w@ =~= old(w)@ + m.deep_view().wire());
}

fn put_letter(w: &mut Vec<u8>, m: &(ClientId, String))
    ensures
        final(w)@ == old(w)@ + m.deep_view().wire(),
        m.deep_view().fits(),
{
    clientid(w, &m.0);
    string(w, m.1.as_str());
    assert(w@ =~= old(w)@ + m.deep_view().wire());
}

/// Writes a message of the authentication handshake.
pub fn auth(w: &mut Vec<u8>, m: &AuthMessage)
    ensures
        final(w)@ == old(w)@ + m.deep_view().wire(),
        m.deep_view().fits(),
{
    match m {
        AuthMessage::Hello { user, nonce } => {
            w.push(0);
            clientid(w, user);
            put_raw(w, nonce.as_slice());
        },
        AuthMessage::Nonce { server, nonce } => {
            w.push(1);
            serverid(w, server);
            put_raw(w, nonce.as_slice());
        },
        AuthMessage::Auth { response } => {
            w.push(2);
            put_raw(w, response.as_slice());
        },
    }
    assert(w@ =~= old(w)@ + m.deep_view().wire());
}

/// Writes a client's message.
pub fn client(w: &mut Vec<u8>, m: &ClientMessage)
    ensures
        final(w)@ == old(w)@ + m.deep_view().wire(),
        m.deep_view().fits(),
{
    match m {
        ClientMessage::Text { dest, content } => {
            w.push(0);
            clientid(w, dest);
            string(w, content.as_str());
        },
        ClientMessage::MText { dest, content } => {
            w.push(1);
            write_list(w, dest.as_slice(), clientid);
            string(w, content.as_str());
            assert(views(dest@) =~= dest@);
        },
    }
    assert(w@ =~= old(w)@ + m.deep_view().wire());
}

/// Writes a client's query.
pub fn client_query(w: &mut Vec<u8>, m: &ClientQuery)
    ensures
        final(w)@ == old(w)@ + m.deep_view().wire(),
        m.deep_view().fits(),
{
    match m {
        ClientQuery::Register(name) => {
            w.push(0);
            string(w, name.as_str());
        },
        ClientQuery::Message(message) => {
            w.push(1);
            client(w, message);
        },
        ClientQuery::Poll => {
            w.push(2);
        },
        ClientQuery::ListUsers => {
            w.push(3);
        },
    }
    assert(w@ =~= old(w)@ + m.deep_view().wire());
}

fn put_qualified(w: &mut Vec<u8>, m: &FullyQualifiedMessage)
    ensures
        final(w)@ == old(w)@ + m.deep_view().wire(),
        m.deep_view().fits(),
{
    clientid(w, &m.src);
    serverid(w, &m.srcsrv);
    write_list(w, m.dsts.as_slice(), put_home);
    string(w, m.content.as_str());
    assert(views(m.dsts@) =~= m.dsts@);
    assert(w@ =~= old(w)@ + m.deep_view().wire());
}

/// Writes a message for another server.
pub fn server(w: &mut Vec<u8>, m: &ServerMessage)
    ensures
        final(w)@ == old(w)@ + m.deep_view().wire(),
        m.deep_view().fits(),
{
    match m {
        ServerMessage::Announce { route, clients } => {
            w.push(0);
            write_list(w, route.as_slice(), serverid);
            write_list(w, clients.as_slice(), put_letter);
            assert(views(route@) =~= route@);
            assert(views(clients@) =~= clients.deep_view());
        },
        ServerMessage::Message(message) => {
            w.push(1);
            put_qualified(w, message);
        },
    }
    assert(w@ =~= old(w)@ + m.deep_view().wire());
}

fn put_client_error(w: &mut Vec<u8>, m: &ClientError)
    ensures
        final(w)@ == old(w)@ + m.wire(),
{
    match m {
        ClientError::WorkProofError => {
            w.push(0);
        },
        ClientError::UnknownClient => {
            w.push(1);
        },
        ClientError::SequenceError => {
            w.push(2);
        },
        ClientError::BoxFull(client) => {
            w.push(3);
            clientid(w, client);
        },
        ClientError::InternalError => {
            w.push(4);
        },
    }
    assert(w@ =~= old(w)@ + m.wire());
}

fn put_client_reply(w: &mut Vec<u8>, m: &ClientReply)
    ensures
        final(w)@ == old(w)@ + m.deep_view().wire(),
        m.deep_view().fits(),
{
    match m {
        ClientReply::Delivered => {
            w.push(0);
        },
        ClientReply::Error(e) => {
            w.push(1);
            put_client_error(w, e);
        },
        ClientReply::Delayed => {
            w.push(2);
        },
        ClientReply::Transfer(hop, message) => {
            w.push(3);
            serverid(w, hop);
            server(w, message);
        },
    }
    assert(w@ =~= old(w)@ + m.deep_view().wire());
}

/// Writes the replies to a client's message: their number, then each.
pub fn client_replies(w: &mut Vec<u8>, m: &[ClientReply])
    ensures
        final(w)@ == old(w)@ + views(m@).wire(),
        views(m@).fits(),
{
    write_list(w, m, put_client_reply);
}

/// Writes the reply to a poll.
pub fn client_poll_reply(w: &mut Vec<u8>, m: &ClientPollReply)
    ensures
        final(w)@ == old(w)@ + m.deep_view().wire(),
        m.deep_view().fits(),
{
    match m {
        ClientPollReply::Message { src, content } => {
            w.push(0);
            clientid(w, src);
            string(w, content.as_str());
        },
        ClientPollReply::DelayedError(DelayedError::UnknownRecipient(client)) => {
            w.push(1);
            w.push(0);
            clientid(w, client);
        },
        ClientPollReply::Nothing => {
            w.push(2);
        },
    }
    assert(w@ =~= old(w)@ + m.deep_view().wire());
}

/// Writes a list of users: their number, then each client with its name.
pub fn userlist(w: &mut Vec<u8>, m: &Vec<(ClientId, String)>)
    ensures
        final(w)@ == old(w)@ + m.deep_view().wire(),
        m.deep_view().fits(),
{
    write_list(w, m.as_slice(), put_letter);
    assert(views(m@) =~= m.deep_view());
}

/// The bytes that an envelope starts with: the sequence number, the
/// sender and the proof of work.
pub open spec fn envelope_head<X>(m: Sequence<X>) -> Seq<u8> {
    (m.seqid, (m.src, m.workproof)).wire()
}

/// Writes an envelope: the sequence number, the sender and the proof of
/// work, then the content with `f`.
pub fn sequence<X, ENC>(w: &mut Vec<u8>, m: &Sequence<X>, f: ENC) where
    ENC: FnOnce(&mut Vec<u8>, &X),

    requires
        forall|w0: &mut Vec<u8>| call_requires(f, (w0, &m.content)),
    ensures
        (exists|mid: &mut Vec<u8>|
            {
                &&& mid@ == old(w)@ + envelope_head(*m)
                &&& call_ensures(f, (mid, &m.content), ())
                &&& final(w)@ == final(mid)@
            }),
{
    u128(w, &m.seqid);
    clientid(w, &m.src);
    u128(w, &m.workproof);
    assert(w@ =~= old(w)@ + envelope_head(*m));
    f(w, &m.content);
}

/// An envelope's bytes are its head, then its content's.
pub proof fn lemma_envelope_wire<A: Wire>(m: Sequence<A>)
    ensures
        m.wire() == envelope_head(m) + m.content.wire(),
{
    assert(m.wire() =~= envelope_head(m) + m.content.wire());
}

} // verus!
