use chatproto::messages::{
    AuthMessage, ClientError, ClientId, ClientMessage, ClientPollReply, ClientQuery, ClientReply,
    DelayedError, FullyQualifiedMessage, Sequence, ServerId, ServerMessage,
};
use chatproto::netproto::decode::{self, Reader};
use chatproto::netproto::encode;
use chatproto::netproto::format::DecodeError;
use uuid::Uuid;

fn value_of(text: &str) -> u128 {
    Uuid::parse_str(text).unwrap().to_u128_le()
}

fn cid(text: &str) -> ClientId {
    ClientId::from(value_of(text))
}

fn sid(text: &str) -> ServerId {
    ServerId::from(value_of(text))
}

fn servermessages() -> Vec<ServerMessage> {
    vec![
        ServerMessage::Announce {
            route: vec![ServerId::default()],
            clients: vec![(ClientId::default(), "Roger".to_string())],
        },
        ServerMessage::Announce {
            route: vec![ServerId::default(), ServerId::default()],
            clients: vec![
                (ClientId::default(), "user 1".to_string()),
                (ClientId::default(), "user 2".to_string()),
            ],
        },
        ServerMessage::Announce {
            route: (0..4000).map(|_| ServerId::default()).collect::<Vec<_>>(),
            clients: (0..6000)
                .map(|_| (ClientId::default(), "same name".to_string()))
                .collect::<Vec<_>>(),
        },
        ServerMessage::Message(FullyQualifiedMessage {
            src: ClientId::default(),
            srcsrv: ServerId::default(),
            dsts: vec![(ClientId::default(), ServerId::default())],
            content: "Hello".into(),
        }),
        ServerMessage::Message(FullyQualifiedMessage {
            src: ClientId::default(),
            srcsrv: ServerId::default(),
            dsts: vec![
                (ClientId::default(), ServerId::default()),
                (ClientId::default(), ServerId::default()),
            ],
            content: "World!".into(),
        }),
    ]
}

fn server_hardcoded() -> Vec<(ServerMessage, Vec<u8>)> {
    vec![
        (
            ServerMessage::Announce {
                route: vec![sid("732037af-d384-4d93-ab4e-ebaf64de871b")],
                clients: vec![(cid("27293ea0-23c5-49e3-97ba-9d9337c1f414"), "hardcoded".into())],
            },
            vec![
                0, 1, 16, 115, 32, 55, 175, 211, 132, 77, 147, 171, 78, 235, 175, 100, 222, 135,
                27, 1, 16, 39, 41, 62, 160, 35, 197, 73, 227, 151, 186, 157, 147, 55, 193, 244, 20,
                9, 104, 97, 114, 100, 99, 111, 100, 101, 100,
            ],
        ),
        (
            ServerMessage::Message(FullyQualifiedMessage {
                src: cid("50064dda-865d-4070-a843-aaca292cb85e"),
                srcsrv: sid("95bf0cec-bcf2-4a81-b61a-53ddb36f145d"),
                dsts: vec![
                    (
                        cid("a77f772f-700a-4074-9b84-e264050dab59"),
                        sid("2f06fd7a-8e7b-4686-9f7d-66a8e4e89152"),
                    ),
                    (
                        cid("5b826b4d-f330-4b5f-83ae-c6fe05b7f760"),
                        sid("6d1a83bf-c901-416c-8ab3-12409e090a0f"),
                    ),
                ],
                content: "Yes!".into(),
            }),
            vec![
                1, 16, 80, 6, 77, 218, 134, 93, 64, 112, 168, 67, 170, 202, 41, 44, 184, 94, 16,
                149, 191, 12, 236, 188, 242, 74, 129, 182, 26, 83, 221, 179, 111, 20, 93, 2, 16,
                167, 127, 119, 47, 112, 10, 64, 116, 155, 132, 226, 100, 5, 13, 171, 89, 16, 47, 6,
                253, 122, 142, 123, 70, 134, 159, 125, 102, 168, 228, 232, 145, 82, 16, 91, 130,
                107, 77, 243, 48, 75, 95, 131, 174, 198, 254, 5, 183, 247, 96, 16, 109, 26, 131,
                191, 201, 1, 65, 108, 138, 179, 18, 64, 158, 9, 10, 15, 4, 89, 101, 115, 33,
            ],
        ),
    ]
}

fn auth_hardcoded() -> Vec<(AuthMessage, Vec<u8>)> {
    vec![
        (
            AuthMessage::Auth {
                response: [
                    199, 15, 141, 177, 121, 9, 136, 28, 127, 31, 230, 116, 79, 121, 111, 122,
                ],
            },
            vec![2, 199, 15, 141, 177, 121, 9, 136, 28, 127, 31, 230, 116, 79, 121, 111, 122],
        ),
        (
            AuthMessage::Hello {
                user: cid("45095b4e-549d-4fd9-b4d0-9aa4111c6324"),
                nonce: [160, 172, 206, 207, 7, 198, 123, 142],
            },
            vec![
                0, 16, 69, 9, 91, 78, 84, 157, 79, 217, 180, 208, 154, 164, 17, 28, 99, 36, 160,
                172, 206, 207, 7, 198, 123, 142,
            ],
        ),
        (
            AuthMessage::Nonce {
                server: sid("2a1e715b-5a5e-406b-9046-7be132a8df27"),
                nonce: [185, 213, 83, 150, 85, 248, 241, 110],
            },
            vec![
                1, 16, 42, 30, 113, 91, 90, 94, 64, 107, 144, 70, 123, 225, 50, 168, 223, 39, 185,
                213, 83, 150, 85, 248, 241, 110,
            ],
        ),
    ]
}

fn client_hardcoded() -> Vec<(ClientMessage, Vec<u8>)> {
    vec![
        (
            ClientMessage::Text {
                dest: cid("732037af-d384-4d93-ab4e-ebaf64de871b"),
                content: "P2s6ERp2".into(),
            },
            vec![
                0, 16, 115, 32, 55, 175, 211, 132, 77, 147, 171, 78, 235, 175, 100, 222, 135, 27,
                8, 80, 50, 115, 54, 69, 82, 112, 50,
            ],
        ),
        (
            ClientMessage::MText {
                dest: vec![
                    cid("c770520b-cb20-4f48-8a52-91d4c6fc0822"),
                    cid("27293ea0-23c5-49e3-97ba-9d9337c1f414"),
                    cid("13ca9cc9-82df-46e4-8a10-1e32379280f0"),
                    cid("30be499a-4d4e-456a-9310-404679c203c2"),
                ],
                content: "g1tL1R58x5C05jc".into(),
            },
            vec![
                1, 4, 16, 199, 112, 82, 11, 203, 32, 79, 72, 138, 82, 145, 212, 198, 252, 8, 34,
                16, 39, 41, 62, 160, 35, 197, 73, 227, 151, 186, 157, 147, 55, 193, 244, 20, 16,
                19, 202, 156, 201, 130, 223, 70, 228, 138, 16, 30, 50, 55, 146, 128, 240, 16, 48,
                190, 73, 154, 77, 78, 69, 106, 147, 16, 64, 70, 121, 194, 3, 194, 15, 103, 49, 116,
                76, 49, 82, 53, 56, 120, 53, 67, 48, 53, 106, 99,
            ],
        ),
    ]
}

#[test]
fn u128() {
    let samples: [(u128, &[u8]); 10] = [
        (1, &[1]),
        (0xff, &[251, 255, 0]),
        (0x1234, &[251, 52, 18]),
        (0x123456, &[252, 86, 52, 18, 0]),
        (0x12345678, &[252, 120, 86, 52, 18]),
        (0x123456789a, &[253, 154, 120, 86, 52, 18, 0, 0, 0]),
        (0x123456789abc, &[253, 188, 154, 120, 86, 52, 18, 0, 0]),
        (0x123456789abcde, &[253, 222, 188, 154, 120, 86, 52, 18, 0]),
        (0x123456789abcdef0, &[253, 240, 222, 188, 154, 120, 86, 52, 18]),
        (0xffffffffffffffff, &[253, 255, 255, 255, 255, 255, 255, 255, 255]),
    ];
    for (raw, encoded) in samples {
        let mut wr = Vec::new();
        encode::u128(&mut wr, &raw);
        assert_eq!(wr, encoded);
        let mut cursor = Reader::new(wr);
        let decoded = decode::u128(&mut cursor).unwrap();
        assert_eq!(decoded, raw);
    }
}

#[test]
fn serverid_encode() {
    let source = sid("a3b674a2-b950-4e44-b32b-a29345e38e36");
    let mut wr = Vec::new();
    encode::serverid(&mut wr, &source);
    assert_eq!(
        wr,
        &[16, 163, 182, 116, 162, 185, 80, 78, 68, 179, 43, 162, 147, 69, 227, 142, 54]
    )
}

#[test]
fn serverid_decode() {
    let expected = sid("a3b674a2-b950-4e44-b32b-a29345e38e36");
    let mut rd = Reader::new(vec![
        16, 163, 182, 116, 162, 185, 80, 78, 68, 179, 43, 162, 147, 69, 227, 142, 54,
    ]);
    let decoded = decode::serverid(&mut rd).unwrap();
    assert_eq!(decoded, expected);
}

#[test]
fn server_round_trip() {
    for msg in servermessages() {
        let mut wr = Vec::new();
        encode::server(&mut wr, &msg);
        let mut cursor = Reader::new(wr);
        let decoded = decode::server(&mut cursor).unwrap();
        assert_eq!(decoded, msg);
    }
}

#[test]
fn server_encode() {
    for (msg, expected) in server_hardcoded() {
        let mut wr = Vec::new();
        encode::server(&mut wr, &msg);
        assert_eq!(wr, expected)
    }
}

#[test]
fn server_decode() {
    for (expected, buf) in server_hardcoded() {
        let mut rd = Reader::new(buf);
        let decoded = decode::server(&mut rd).unwrap();
        assert_eq!(decoded, expected);
    }
}

#[test]
fn auth_encode() {
    for (msg, expected) in auth_hardcoded() {
        let mut wr = Vec::new();
        encode::auth(&mut wr, &msg);
        assert_eq!(wr, expected)
    }
}

#[test]
fn auth_decode() {
    for (expected, buf) in auth_hardcoded() {
        let mut rd = Reader::new(buf);
        let decoded = decode::auth(&mut rd).unwrap();
        assert_eq!(decoded, expected);
    }
}

#[test]
fn client_encode() {
    for (msg, expected) in client_hardcoded() {
        let mut wr = Vec::new();
        encode::client(&mut wr, &msg);
        assert_eq!(wr, expected)
    }
}

#[test]
fn client_decode() {
    for (expected, buf) in client_hardcoded() {
        let mut rd = Reader::new(buf);
        let decoded = decode::client(&mut rd).unwrap();
        assert_eq!(decoded, expected);
    }
}

#[test]
fn unicode() {
    let msg = ClientMessage::Text {
        dest: ClientId::from(126u128),
        content: "😘😙😚".to_string(),
    };
    let mut wr = Vec::new();
    encode::client(&mut wr, &msg);
    let mut cursor = Reader::new(wr);
    let decoded = decode::client(&mut cursor).unwrap();
    assert_eq!(decoded, msg);
}

#[test]
fn string_encode() {
    let src = "Hello World ;)".to_string();
    let mut wr = Vec::new();
    encode::string(&mut wr, &src);
    assert_eq!(
        wr,
        [14, 72, 101, 108, 108, 111, 32, 87, 111, 114, 108, 100, 32, 59, 41]
    );
}

#[test]
fn client_query_register() {
    let query = ClientQuery::Register("Bob".into());
    let mut wr = Vec::new();
    encode::client_query(&mut wr, &query);
    assert_eq!(wr, &[0, 3, 66, 111, 98]);
    let mut cursor = Reader::new(wr);
    let decoded = decode::client_query(&mut cursor).unwrap();
    assert_eq!(&decoded, &query);
}

#[test]
fn client_query_poll() {
    let query = ClientQuery::Poll;
    let mut wr = Vec::new();
    encode::client_query(&mut wr, &query);
    assert_eq!(wr, &[2]);
    let mut cursor = Reader::new(wr);
    let decoded = decode::client_query(&mut cursor).unwrap();
    assert_eq!(&decoded, &query);
}

#[test]
fn client_query_list_users() {
    let query = ClientQuery::ListUsers;
    let mut wr = Vec::new();
    encode::client_query(&mut wr, &query);
    assert_eq!(wr, &[3]);
    let mut cursor = Reader::new(wr);
    let decoded = decode::client_query(&mut cursor).unwrap();
    assert_eq!(&decoded, &query);
}

#[test]
fn string_decode() {
    let mut cursor = Reader::new(vec![
        14, 72, 101, 108, 108, 111, 32, 87, 111, 114, 108, 100, 32, 59, 41,
    ]);
    let decoded = decode::string(&mut cursor).unwrap();
    assert_eq!(decoded, "Hello World ;)");
}

#[test]
fn sequence() {
    let src = Sequence {
        seqid: 12,
        src: cid("77ff529e-75bd-4832-bf0c-6db339022924"),
        workproof: 161666813615,
        content: "Hello".to_string(),
    };
    let encoded = &[
        12, 16, 119, 255, 82, 158, 117, 189, 72, 50, 191, 12, 109, 179, 57, 2, 41, 36, 253, 175,
        206, 23, 164, 37, 0, 0, 0, 5, 72, 101, 108, 108, 111,
    ];
    let mut wr = Vec::new();
    encode::sequence(&mut wr, &src, |w2: &mut Vec<u8>, st: &String| {
        encode::string(w2, st.as_str())
    });
    assert_eq!(wr, encoded);
    let mut cursor = Reader::new(wr);
    let decoded = decode::sequence(&mut cursor, decode::string).unwrap();
    assert_eq!(&decoded, &src);
}

#[test]
fn decode_rejects_short_reads() {
    let mut rd = Reader::new(vec![]);
    assert_eq!(decode::u128(&mut rd), Err(DecodeError::ShortRead));
    let mut rd = Reader::new(vec![251, 52]);
    assert_eq!(decode::u128(&mut rd), Err(DecodeError::ShortRead));
    assert_eq!(rd.position(), 0);
    let mut rd = Reader::new(vec![16, 1, 2, 3]);
    assert_eq!(decode::clientid(&mut rd), Err(DecodeError::ShortRead));
    let mut rd = Reader::new(vec![5, 72, 101]);
    assert_eq!(decode::string(&mut rd), Err(DecodeError::ShortRead));
    assert_eq!(rd.position(), 0);
}

#[test]
fn decode_rejects_unknown_tags() {
    let mut rd = Reader::new(vec![255, 0, 0, 0, 0, 0, 0, 0, 0, 0, 0, 0, 0, 0, 0, 0, 0]);
    assert_eq!(decode::u128(&mut rd), Err(DecodeError::InvalidTag));
    let mut rd = Reader::new(vec![4]);
    assert_eq!(decode::client_query(&mut rd), Err(DecodeError::InvalidTag));
    let mut rd = Reader::new(vec![2, 0]);
    assert_eq!(decode::client(&mut rd), Err(DecodeError::InvalidTag));
    let mut rd = Reader::new(vec![3]);
    assert_eq!(decode::client_poll_reply(&mut rd), Err(DecodeError::InvalidTag));
    let mut rd = Reader::new(vec![1, 1, 16]);
    assert_eq!(decode::client_poll_reply(&mut rd), Err(DecodeError::InvalidTag));
}

#[test]
fn decode_rejects_bad_text_and_lengths() {
    let mut rd = Reader::new(vec![2, 0xc3, 0x28]);
    assert_eq!(decode::string(&mut rd), Err(DecodeError::InvalidUtf8));
    let mut rd = Reader::new(vec![
        15, 0, 1, 2, 3, 4, 5, 6, 7, 8, 9, 10, 11, 12, 13, 14, 15,
    ]);
    assert_eq!(decode::serverid(&mut rd), Err(DecodeError::LengthOverflow));
    let mut text = vec![254];
    text.extend_from_slice(&[255; 16]);
    let mut rd = Reader::new(text);
    assert_eq!(decode::string(&mut rd), Err(DecodeError::LengthOverflow));
}

#[test]
fn u128_widest_tag() {
    let raw: u128 = 0x1_0000_0000_0000_0000;
    let mut wr = Vec::new();
    encode::u128(&mut wr, &raw);
    assert_eq!(wr, &[254, 0, 0, 0, 0, 0, 0, 0, 0, 1, 0, 0, 0, 0, 0, 0, 0]);
    let mut rd = Reader::new(wr);
    assert_eq!(decode::u128(&mut rd), Ok(raw));
    let mut wr = Vec::new();
    encode::u128(&mut wr, &u128::MAX);
    assert_eq!(wr.len(), 17);
    let mut rd = Reader::new(wr);
    assert_eq!(decode::u128(&mut rd), Ok(u128::MAX));
}

#[test]
fn u128_tag_is_smallest_that_fits() {
    let cases: [(u128, usize); 9] = [
        (0, 1),
        (250, 1),
        (251, 3),
        (0xFFFF, 3),
        (0x1_0000, 5),
        (0xFFFF_FFFF, 5),
        (0x1_0000_0000, 9),
        (0xFFFF_FFFF_FFFF_FFFF, 9),
        (0x1_0000_0000_0000_0000, 17),
    ];
    for (value, len) in cases {
        let mut wr = Vec::new();
        encode::u128(&mut wr, &value);
        assert_eq!(wr.len(), len);
    }
}

#[test]
fn decode_accepts_wider_tags_than_needed() {
    let mut rd = Reader::new(vec![252, 7, 0, 0, 0, 9]);
    assert_eq!(decode::u128(&mut rd), Ok(7));
    assert_eq!(rd.position(), 5);
}

#[test]
fn reader_moves_past_what_it_read() {
    let mut wr = Vec::new();
    encode::string(&mut wr, "ab");
    encode::u128(&mut wr, &300);
    let mut rd = Reader::new(wr);
    assert_eq!(decode::string(&mut rd), Ok("ab".to_string()));
    assert_eq!(rd.position(), 3);
    assert_eq!(decode::u128(&mut rd), Ok(300));
    assert_eq!(rd.position(), 6);
    assert_eq!(decode::u128(&mut rd), Err(DecodeError::ShortRead));
    assert_eq!(rd.into_inner().len(), 6);
}

#[test]
fn clientid_round_trip() {
    let id = cid("45095b4e-549d-4fd9-b4d0-9aa4111c6324");
    let mut wr = Vec::new();
    encode::clientid(&mut wr, &id);
    assert_eq!(
        wr,
        &[16, 69, 9, 91, 78, 84, 157, 79, 217, 180, 208, 154, 164, 17, 28, 99, 36]
    );
    let mut rd = Reader::new(wr);
    assert_eq!(decode::clientid(&mut rd), Ok(id));
    assert_eq!(rd.position(), 17);
}

#[test]
fn client_replies_round_trip() {
    let full = ClientId::from(1u128);
    let hop = ServerId::from(2u128);
    let replies = vec![
        ClientReply::Delivered,
        ClientReply::Error(ClientError::WorkProofError),
        ClientReply::Error(ClientError::UnknownClient),
        ClientReply::Error(ClientError::SequenceError),
        ClientReply::Error(ClientError::BoxFull(full)),
        ClientReply::Error(ClientError::InternalError),
        ClientReply::Delayed,
        ClientReply::Transfer(
            hop,
            ServerMessage::Announce {
                route: vec![],
                clients: vec![],
            },
        ),
    ];
    let mut wr = Vec::new();
    encode::client_replies(&mut wr, &replies);
    let mut expected = vec![8, 0, 1, 0, 1, 1, 1, 2, 1, 3, 16, 1];
    expected.extend_from_slice(&[0; 15]);
    expected.extend_from_slice(&[1, 4, 2, 3, 16, 2]);
    expected.extend_from_slice(&[0; 15]);
    expected.extend_from_slice(&[0, 0, 0]);
    assert_eq!(wr, expected);
    let mut rd = Reader::new(wr);
    assert_eq!(decode::client_replies(&mut rd), Ok(replies));
    let mut rd = Reader::new(vec![1, 1, 5]);
    assert_eq!(decode::client_replies(&mut rd), Err(DecodeError::InvalidTag));
    let mut rd = Reader::new(vec![2, 0]);
    assert_eq!(decode::client_replies(&mut rd), Err(DecodeError::ShortRead));
    let mut rd = Reader::new(vec![0]);
    assert_eq!(decode::client_replies(&mut rd), Ok(vec![]));
}

#[test]
fn client_poll_reply_round_trip() {
    let who = ClientId::from(3u128);
    let mut id_bytes = vec![16, 3];
    id_bytes.extend_from_slice(&[0; 15]);
    let cases = vec![
        (
            ClientPollReply::Message {
                src: who,
                content: "hi".to_string(),
            },
            [vec![0], id_bytes.clone(), vec![2, 104, 105]].concat(),
        ),
        (
            ClientPollReply::DelayedError(DelayedError::UnknownRecipient(who)),
            [vec![1, 0], id_bytes.clone()].concat(),
        ),
        (ClientPollReply::Nothing, vec![2]),
    ];
    for (reply, bytes) in cases {
        let mut wr = Vec::new();
        encode::client_poll_reply(&mut wr, &reply);
        assert_eq!(wr, bytes);
        let mut rd = Reader::new(wr);
        assert_eq!(decode::client_poll_reply(&mut rd), Ok(reply));
    }
}

#[test]
fn userlist_round_trip() {
    let users = vec![
        (ClientId::from(1u128), "ann".to_string()),
        (ClientId::from(2u128), "".to_string()),
        (ClientId::from(1u128), "ann again".to_string()),
    ];
    let mut wr = Vec::new();
    encode::userlist(&mut wr, &users);
    assert_eq!(wr.len(), 1 + 3 * 17 + 4 + 1 + 10);
    assert_eq!(wr[0], 3);
    let mut rd = Reader::new(wr);
    assert_eq!(decode::userlist(&mut rd), Ok(users));
    let mut wr = Vec::new();
    encode::userlist(&mut wr, &vec![]);
    assert_eq!(wr, &[0]);
}

#[test]
fn envelope_of_query_round_trip() {
    let envelope = Sequence {
        seqid: 300,
        src: ClientId::from(9u128),
        workproof: 0x1_0000,
        content: ClientQuery::Message(ClientMessage::MText {
            dest: vec![ClientId::from(1u128), ClientId::from(2u128)],
            content: "all".to_string(),
        }),
    };
    let mut wr = Vec::new();
    encode::sequence(&mut wr, &envelope, |w: &mut Vec<u8>, q: &ClientQuery| {
        encode::client_query(w, q)
    });
    assert_eq!(&wr[..3], &[251, 44, 1]);
    assert_eq!(&wr[20..25], &[252, 0, 0, 1, 0]);
    let mut rd = Reader::new(wr.clone());
    assert_eq!(
        decode::sequence(&mut rd, decode::client_query),
        Ok(envelope)
    );
    assert_eq!(rd.position(), wr.len());
}

#[test]
fn envelope_with_bad_content_leaves_the_reader() {
    let mut wr = vec![7];
    encode::clientid(&mut wr, &ClientId::from(9u128));
    wr.push(3);
    wr.push(9);
    let mut rd = Reader::new(wr);
    assert_eq!(
        decode::sequence(&mut rd, decode::client_query),
        Err(DecodeError::InvalidTag)
    );
    assert_eq!(rd.position(), 0);
    let mut rd = Reader::new(vec![7, 16, 1]);
    assert_eq!(
        decode::sequence(&mut rd, decode::client_query),
        Err(DecodeError::ShortRead)
    );
    assert_eq!(rd.position(), 0);
}

#[test]
fn auth_round_trip_and_short_bodies() {
    for (msg, _) in auth_hardcoded() {
        let mut wr = Vec::new();
        encode::auth(&mut wr, &msg);
        let whole = wr.clone();
        let mut rd = Reader::new(wr);
        assert_eq!(decode::auth(&mut rd), Ok(msg));
        let mut rd = Reader::new(whole[..whole.len() - 1].to_vec());
        assert_eq!(decode::auth(&mut rd), Err(DecodeError::ShortRead));
    }
    let mut rd = Reader::new(vec![3]);
    assert_eq!(decode::auth(&mut rd), Err(DecodeError::InvalidTag));
}

#[test]
fn announce_keeps_the_order_of_clients() {
    let first = ServerMessage::Announce {
        route: vec![sid("732037af-d384-4d93-ab4e-ebaf64de871b")],
        clients: vec![
            (ClientId::from(2u128), "b".to_string()),
            (ClientId::from(1u128), "a".to_string()),
        ],
    };
    let mut wr = Vec::new();
    encode::server(&mut wr, &first);
    let mut rd = Reader::new(wr);
    assert_eq!(decode::server(&mut rd), Ok(first));
}
