//! What a server does with one frame: read it, put it to the broker, and
//! write the reply.

use crate::broker::{BrokerState, MessageServer, WORKPROOF_STRENGTH};
use crate::messages::{
    ClientError, ClientId, ClientQuery, ClientQueryView, Letter, Sequence, ServerMessage,
    ServerMessageView, ServerReply,
};
use crate::netproto::decode::{self, lemma_tail_skip, Reader};
use crate::netproto::encode;
use crate::netproto::format::{DecodeError, Wire};
use crate::workproof::valid_workproof;
use vstd::prelude::*;

verus! {

/// Why a client's frame got no reply.
#[derive(Clone, Copy, Debug, PartialEq, Eq)]
pub enum FrameError {
    /// The frame is not an envelope with a query in it.
    Malformed(DecodeError),
    /// The envelope was turned down.
    Refused(ClientError),
}

/// Whether `after` is `checked` with `id` registered under `name`, and
/// `reply` is `id` as bytes.
pub open spec fn registers(
    checked: BrokerState,
    after: BrokerState,
    id: ClientId,
    name: Seq<char>,
    reply: Result<Seq<u8>, ClientError>,
) -> bool {
    after == checked.register(id, name) && reply == Ok::<Seq<u8>, ClientError>(id.wire())
}

/// Whether `reply` is `users` as bytes, and `users` lists every client
/// that `checked` knows.
pub open spec fn lists(
    checked: BrokerState,
    users: Seq<Letter>,
    reply: Result<Seq<u8>, ClientError>,
) -> bool {
    checked.lists_users(users) && reply == Ok::<Seq<u8>, ClientError>(users.wire())
}

/// Whether `reply` and the state `after` are what a query owes on the
/// state `before`. The envelope is checked first. A registration goes
/// through unless the proof of work or the sequence number is wrong, and
/// is answered with the new identifier; every other query needs an
/// accepted envelope and is answered with the broker's reply as bytes.
pub open spec fn answers(
    before: BrokerState,
    after: BrokerState,
    proof_ok: bool,
    m: Sequence<ClientQueryView>,
    reply: Result<Seq<u8>, ClientError>,
) -> bool {
    let refusal = before.envelope_error(proof_ok, m.src, m.seqid);
    let checked = before.envelope(proof_ok, m.src, m.seqid);
    match m.content {
        ClientQueryView::Register(name) => {
            if refusal is None || refusal == Some(ClientError::UnknownClient) {
                exists|id: ClientId| #[trigger] registers(checked, after, id, name, reply)
            } else {
                after == before && reply == Err::<Seq<u8>, ClientError>(refusal->0)
            }
        },
        ClientQueryView::Message(message) => match refusal {
            Some(e) => after == before && reply == Err::<Seq<u8>, ClientError>(e),
            None => after == checked.send(m.src, message) && reply == Ok::<Seq<u8>, ClientError>(
                checked.send_replies(m.src, message).wire(),
            ),
        },
        ClientQueryView::Poll => match refusal {
            Some(e) => after == before && reply == Err::<Seq<u8>, ClientError>(e),
            None => after == checked.poll(m.src) && reply == Ok::<Seq<u8>, ClientError>(
                checked.poll_reply(m.src).wire(),
            ),
        },
        ClientQueryView::ListUsers => match refusal {
            Some(e) => after == before && reply == Err::<Seq<u8>, ClientError>(e),
            None => after == checked && exists|users: Seq<Letter>|
                #[trigger] lists(checked, users, reply),
        },
    }
}

/// The bytes of a reply, or the refusal.
pub open spec fn reply_view(reply: Result<Vec<u8>, ClientError>) -> Result<Seq<u8>, ClientError> {
    match reply {
        Ok(bytes) => Ok(bytes@),
        Err(e) => Err(e),
    }
}

/// Puts a client's query to the server and writes the reply.
pub fn handle_client_query<S: MessageServer>(srv: &mut S, m: Sequence<ClientQuery>) -> (reply:
    Result<Vec<u8>, ClientError>)
    requires
        old(srv).wf(),
    ensures
        final(srv).wf(),
        answers(
            old(srv).state(),
            final(srv).state(),
            valid_workproof(m.src.0, m.workproof, WORKPROOF_STRENGTH),
            m.deep_view(),
            reply_view(reply),
        ),
{
    let src = m.src;
    let ghost before = srv.state();
    let ghost proof_ok = valid_workproof(m.src.0, m.workproof, WORKPROOF_STRENGTH);
    let ghost asked = m.deep_view();
    let ghost checked = before.envelope(proof_ok, asked.src, asked.seqid);
    let registering = match &m.content {
        ClientQuery::Register(name) => Some(name.clone()),
        _ => None,
    };
    let checked_content = srv.handle_sequenced_message(m);
    let mut out: Vec<u8> = Vec::new();
    match registering {
        Some(name) => {
            match checked_content {
                Ok(_) => {},
                Err(ClientError::UnknownClient) => {},
                Err(e) => {
                    return Err(e);
                },
            }
            let id = srv.register_local_client(name);
            encode::clientid(&mut out, &id);
            proof {
                assert(out@ =~= id.wire());
                assert(asked.content is Register);
                assert(asked.content->Register_0 == name@);
                assert(registers(checked, srv.state(), id, asked.content->Register_0, Ok(out@)));
            }
            Ok(out)
        },
        None => {
            let content = match checked_content {
                Ok(content) => content,
                Err(e) => {
                    return Err(e);
                },
            };
            match content {
                ClientQuery::Poll => {
                    let repl = srv.client_poll(src);
                    encode::client_poll_reply(&mut out, &repl);
                    assert(out@ =~= repl.deep_view().wire());
                    Ok(out)
                },
                ClientQuery::ListUsers => {
                    let repl = srv.list_users();
                    encode::userlist(&mut out, &repl);
                    assert(out@ =~= repl.deep_view().wire());
                    assert(lists(checked, repl.deep_view(), Ok(out@)));
                    Ok(out)
                },
                ClientQuery::Message(msg) => {
                    let repl = srv.handle_client_message(src, msg);
                    encode::client_replies(&mut out, repl.as_slice());
                    assert(encode::views(repl@) =~= repl.deep_view());
                    assert(out@ =~= repl.deep_view().wire());
                    Ok(out)
                },
                // a registration was answered above
                ClientQuery::Register(_) => Err(ClientError::InternalError),
            }
        },
    }
}

/// Handles one frame from a client: an envelope with a query in it. What
/// follows the envelope in the frame is not looked at.
pub fn client_frame<S: MessageServer>(srv: &mut S, frame: Vec<u8>) -> (reply: Result<
    Vec<u8>,
    FrameError,
>)
    requires
        old(srv).wf(),
    ensures
        final(srv).wf(),
        match Sequence::<ClientQueryView>::parse(frame@) {
            Err(e) => {
                &&& reply == Err::<Vec<u8>, FrameError>(FrameError::Malformed(e))
                &&& final(srv).state() == old(srv).state()
            },
            Ok((m, _)) => match reply {
                Ok(bytes) => answers(
                    old(srv).state(),
                    final(srv).state(),
                    valid_workproof(m.src.0, m.workproof, WORKPROOF_STRENGTH),
                    m,
                    Ok(bytes@),
                ),
                Err(FrameError::Refused(e)) => answers(
                    old(srv).state(),
                    final(srv).state(),
                    valid_workproof(m.src.0, m.workproof, WORKPROOF_STRENGTH),
                    m,
                    Err(e),
                ),
                Err(FrameError::Malformed(_)) => false,
            },
        },
{
    let mut rd = Reader::new(frame);
    proof {
        lemma_envelope_parse::<ClientQueryView>(frame@);
        lemma_tail_skip(frame@, 0, 0);
        <(u128, (ClientId, u128))>::lemma_parse_within(frame@);
        if let Ok((_, taken)) = <(u128, (ClientId, u128))>::parse(frame@) {
            lemma_tail_skip(frame@, 0, taken as int);
        }
    }
    match decode::sequence(&mut rd, decode::client_query) {
        Err(e) => Err(FrameError::Malformed(e)),
        Ok(m) => match handle_client_query(srv, m) {
            Ok(bytes) => Ok(bytes),
            Err(e) => Err(FrameError::Refused(e)),
        },
    }
}

/// Handles one frame from another server. What follows the message in
/// the frame is not looked at.
pub fn server_frame<S: MessageServer>(srv: &mut S, frame: Vec<u8>) -> (reply: Result<
    ServerReply,
    DecodeError,
>)
    requires
        old(srv).wf(),
    ensures
        final(srv).wf(),
        match ServerMessageView::parse(frame@) {
            Err(e) => {
                &&& reply == Err::<ServerReply, DecodeError>(e)
                &&& final(srv).state() == old(srv).state()
            },
            Ok((m, _)) => {
                &&& reply matches Ok(answer)
                &&& answer.deep_view() == old(srv).state().server_reply(m)
                &&& final(srv).state() == old(srv).state().server(m)
            },
        },
{
    let mut rd = Reader::new(frame);
    match decode::server(&mut rd) {
        Err(e) => Err(e),
        Ok(message) => Ok(srv.handle_server_message(message)),
    }
}

/// An envelope is read as its head, then its content.
pub proof fn lemma_envelope_parse<A: Wire>(bytes: Seq<u8>)
    ensures
        Sequence::<A>::parse(bytes) == match <(u128, (ClientId, u128))>::parse(bytes) {
            Err(e) => Err::<(Sequence<A>, nat), DecodeError>(e),
            Ok((head, taken)) => match A::parse(bytes.skip(taken as int)) {
                Err(e) => Err(e),
                Ok((content, more)) => Ok(
                    (
                        Sequence { seqid: head.0, src: head.1.0, workproof: head.1.1, content },
                        taken + more,
                    ),
                ),
            },
        },
{
    u128::lemma_parse_within(bytes);
    if let Ok((seqid, first)) = u128::parse(bytes) {
        let after_seqid = bytes.skip(first as int);
        ClientId::lemma_parse_within(after_seqid);
        if let Ok((src, second)) = ClientId::parse(after_seqid) {
            let after_src = after_seqid.skip(second as int);
            u128::lemma_parse_within(after_src);
            if let Ok((workproof, third)) = u128::parse(after_src) {
                assert(after_src.skip(third as int) =~= bytes.skip((first + second + third) as int));
            }
        }
    }
}

} // verus!
