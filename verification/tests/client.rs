use chatproto::broker::WORKPROOF_STRENGTH;
use chatproto::client::{registration, Client};
use chatproto::messages::{ClientError, ClientId, ClientQuery, ClientReply, Sequence, ServerId};
use chatproto::workproof::{gen_workproof, verify_workproof};

#[test]
fn sequencer_counts_from_one() {
    let id = ClientId::from(161566988u128);
    let mut client = Client::new(id);
    let first = client.try_sequence("a").unwrap();
    assert_eq!(first.seqid, 1);
    assert_eq!(first.src, id);
    assert_eq!(first.workproof, 186);
    assert_eq!(first.content, "a");
    let second = client.try_sequence("b").unwrap();
    assert_eq!(second.seqid, 2);
    assert_eq!(second.workproof, 186);
    let third = client.sequence(7);
    assert_eq!(third.seqid, 3);
    assert_eq!(third.src, id);
    assert_eq!(third.workproof, 186);
    assert_eq!(third.content, 7);
}

#[test]
fn sequencer_workproof_verifies() {
    for _ in 0..5 {
        let id = ClientId::default();
        let mut client = Client::new(id);
        let envelope = client.try_sequence(()).unwrap();
        let nonce: u128 = (&id).into();
        assert!(verify_workproof(nonce, envelope.workproof, WORKPROOF_STRENGTH));
        assert_eq!(
            gen_workproof(nonce, WORKPROOF_STRENGTH, u128::MAX),
            Some(envelope.workproof)
        );
    }
}

#[test]
fn identifiers_round_trip_through_u128() {
    let value = 0xa1a2a3a4b1b2c1c2d1d2d3d4d5d6d7d8u128;
    let client = ClientId::from(value);
    let server = ServerId::from(value);
    assert_eq!(u128::from(&client), value);
    assert_eq!(u128::from(&server), value);
    assert_eq!(
        client.to_string(),
        "ClientId(d8d7d6d5-d4d3-d2d1-c2c1-b2b1a4a3a2a1)"
    );
    assert_eq!(
        server.to_string(),
        "ServerId(d8d7d6d5-d4d3-d2d1-c2c1-b2b1a4a3a2a1)"
    );
    assert_ne!(ClientId::default(), ClientId::default());
}

#[test]
fn errors_have_names() {
    assert_eq!(ClientError::WorkProofError.to_string(), "WorkProofError");
    assert_eq!(ClientError::UnknownClient.to_string(), "UnknownClient");
    assert_eq!(ClientError::SequenceError.to_string(), "SequenceError");
    assert_eq!(ClientError::InternalError.to_string(), "InternalError");
    assert_eq!(
        ClientError::BoxFull(ClientId::from(1u128)).to_string(),
        "BoxFull(ClientId(01000000-0000-0000-0000-000000000000))"
    );
    assert_ne!(
        ClientReply::Error(ClientError::UnknownClient),
        ClientReply::Delayed
    );
}

#[test]
fn registration_envelope() {
    let tempid = ClientId::from(161566988u128);
    assert_eq!(
        registration(tempid, "bob".to_string()),
        Some(Sequence {
            seqid: 0,
            src: tempid,
            workproof: 186,
            content: ClientQuery::Register("bob".to_string()),
        })
    );
}

#[test]
fn identifier_text_has_every_digit() {
    let bytes = [
        0x01, 0x23, 0x45, 0x67, 0x89, 0xab, 0xcd, 0xef, 0xfe, 0xdc, 0xba, 0x98, 0x76, 0x54, 0x32,
        0x10,
    ];
    let id = ServerId::from(u128::from_le_bytes(bytes));
    assert_eq!(
        id.to_string(),
        "ServerId(01234567-89ab-cdef-fedc-ba9876543210)"
    );
}
