use chatproto::broker::{MessageServer, WORKPROOF_STRENGTH};
use chatproto::client::Client;
use chatproto::frames::{client_frame, handle_client_query, server_frame, FrameError};
use chatproto::messages::{
    ClientError, ClientId, ClientMessage, ClientPollReply, ClientQuery, ClientReply,
    FullyQualifiedMessage, Outgoing, Sequence, ServerId, ServerMessage, ServerReply,
};
use chatproto::netproto::decode::{self, Reader};
use chatproto::netproto::encode;
use chatproto::netproto::format::DecodeError;
use chatproto::server::Server;
use chatproto::workproof::{gen_workproof, verify_workproof};

fn frame_of(envelope: &Sequence<ClientQuery>) -> Vec<u8> {
    let mut wr = Vec::new();
    encode::sequence(&mut wr, envelope, |w: &mut Vec<u8>, q: &ClientQuery| {
        encode::client_query(w, q)
    });
    wr
}

fn invalid_workproof(id: ClientId) -> u128 {
    (0u128..)
        .find(|start| !verify_workproof((&id).into(), *start, WORKPROOF_STRENGTH))
        .unwrap()
}

fn register(server: &mut Server, name: &str) -> Client {
    let tempid = ClientId::default();
    let workproof = gen_workproof((&tempid).into(), WORKPROOF_STRENGTH, u128::MAX).unwrap();
    let frame = frame_of(&Sequence {
        seqid: 0,
        src: tempid,
        workproof,
        content: ClientQuery::Register(name.to_string()),
    });
    let reply = client_frame(server, frame).unwrap();
    let id = decode::clientid(&mut Reader::new(reply)).unwrap();
    Client::new(id)
}

#[test]
fn frames_register_send_poll_and_list() {
    let mut server = Server::new(ServerId::default());
    let mut ann = register(&mut server, "ann");
    let mut bob = register(&mut server, "bob");
    let ann_id = ann.try_sequence(()).unwrap().src;
    let bob_id = bob.try_sequence(()).unwrap().src;
    assert_ne!(ann_id, bob_id);

    let send = ann
        .try_sequence(ClientQuery::Message(ClientMessage::MText {
            dest: vec![bob_id, ClientId::from(5u128)],
            content: "hello".to_string(),
        }))
        .unwrap();
    let reply = client_frame(&mut server, frame_of(&send)).unwrap();
    assert_eq!(
        decode::client_replies(&mut Reader::new(reply)),
        Ok(vec![ClientReply::Delivered, ClientReply::Delayed])
    );

    let poll = bob.try_sequence(ClientQuery::Poll).unwrap();
    let reply = client_frame(&mut server, frame_of(&poll)).unwrap();
    assert_eq!(
        decode::client_poll_reply(&mut Reader::new(reply)),
        Ok(ClientPollReply::Message {
            src: ann_id,
            content: "hello".to_string()
        })
    );
    let poll = bob.try_sequence(ClientQuery::Poll).unwrap();
    let reply = client_frame(&mut server, frame_of(&poll)).unwrap();
    assert_eq!(reply, &[2]);

    let list = ann.try_sequence(ClientQuery::ListUsers).unwrap();
    let reply = client_frame(&mut server, frame_of(&list)).unwrap();
    let mut users = decode::userlist(&mut Reader::new(reply)).unwrap();
    users.sort();
    let mut expected = vec![(ann_id, "ann".to_string()), (bob_id, "bob".to_string())];
    expected.sort();
    assert_eq!(users, expected);
}

#[test]
fn frames_that_are_refused_or_malformed() {
    let mut server = Server::new(ServerId::default());
    let mut ann = register(&mut server, "ann");
    let first = ann.try_sequence(ClientQuery::Poll).unwrap();
    assert_eq!(client_frame(&mut server, frame_of(&first)), Ok(vec![2]));
    assert_eq!(
        client_frame(&mut server, frame_of(&first)),
        Err(FrameError::Refused(ClientError::SequenceError))
    );
    let mut forged = ann.try_sequence(ClientQuery::ListUsers).unwrap();
    forged.workproof = invalid_workproof(forged.src);
    assert_eq!(
        client_frame(&mut server, frame_of(&forged)),
        Err(FrameError::Refused(ClientError::WorkProofError))
    );
    let mut stranger = Client::new(ClientId::default());
    let unknown = stranger.try_sequence(ClientQuery::Poll).unwrap();
    assert_eq!(
        client_frame(&mut server, frame_of(&unknown)),
        Err(FrameError::Refused(ClientError::UnknownClient))
    );
    assert_eq!(
        client_frame(&mut server, vec![]),
        Err(FrameError::Malformed(DecodeError::ShortRead))
    );
    let mut bad_tag = frame_of(&first);
    let last = bad_tag.len() - 1;
    bad_tag[last] = 9;
    assert_eq!(
        client_frame(&mut server, bad_tag),
        Err(FrameError::Malformed(DecodeError::InvalidTag))
    );
}

#[test]
fn registration_needs_a_workproof_but_no_known_sender() {
    let mut server = Server::new(ServerId::default());
    let tempid = ClientId::default();
    let workproof = gen_workproof((&tempid).into(), WORKPROOF_STRENGTH, u128::MAX).unwrap();
    let envelope = |workproof: u128| Sequence {
        seqid: 0,
        src: tempid,
        workproof,
        content: ClientQuery::Register("n".to_string()),
    };
    let refused = handle_client_query(&mut server, envelope(invalid_workproof(tempid)));
    assert_eq!(refused, Err(ClientError::WorkProofError));
    assert_eq!(server.list_users(), vec![]);
    let reply = handle_client_query(&mut server, envelope(workproof)).unwrap();
    let id = decode::clientid(&mut Reader::new(reply)).unwrap();
    assert_ne!(id, tempid);
    assert_eq!(server.list_users(), vec![(id, "n".to_string())]);

    let mut known = Client::new(id);
    let again = known
        .try_sequence(ClientQuery::Register("m".to_string()))
        .unwrap();
    let reply = handle_client_query(&mut server, again.clone()).unwrap();
    let second = decode::clientid(&mut Reader::new(reply)).unwrap();
    assert_ne!(second, id);
    assert_eq!(server.list_users().len(), 2);
    assert_eq!(
        handle_client_query(&mut server, again),
        Err(ClientError::SequenceError)
    );
    assert_eq!(server.list_users().len(), 2);
}

#[test]
fn server_frames_are_read_and_handled() {
    let me = ServerId::default();
    let mut server = Server::new(me);
    let mut ann = register(&mut server, "ann");
    let far = ClientId::from(7u128);
    let send = ann
        .try_sequence(ClientQuery::Message(ClientMessage::Text {
            dest: far,
            content: "hi".to_string(),
        }))
        .unwrap();
    let ann_id = send.src;
    assert_eq!(client_frame(&mut server, frame_of(&send)), Ok(vec![1, 2]));

    let origin = ServerId::from(1u128);
    let hop = ServerId::from(2u128);
    let mut frame = Vec::new();
    encode::server(
        &mut frame,
        &ServerMessage::Announce {
            route: vec![origin, hop],
            clients: vec![(far, "far".to_string())],
        },
    );
    assert_eq!(
        server_frame(&mut server, frame),
        Ok(ServerReply::Outgoing(vec![Outgoing {
            nexthop: hop,
            message: FullyQualifiedMessage {
                src: ann_id,
                srcsrv: me,
                dsts: vec![(far, origin)],
                content: "hi".to_string(),
            },
        }]))
    );
    assert_eq!(
        server_frame(&mut server, vec![0, 0, 0]),
        Ok(ServerReply::EmptyRoute)
    );
    assert_eq!(
        server_frame(&mut server, vec![0, 1]),
        Err(DecodeError::ShortRead)
    );
    assert_eq!(
        server_frame(&mut server, vec![7]),
        Err(DecodeError::InvalidTag)
    );
}
