//! The client's side of sequencing: a counter that numbers envelopes.

use crate::broker::WORKPROOF_STRENGTH;
use crate::messages::{ClientId, ClientQuery, ClientQueryView, Sequence};
use crate::workproof::{first_workproof, gen_workproof};
use vstd::prelude::*;

verus! {

/// Numbers the envelopes of one identity. A sequencer belongs to a single
/// identity: its counter only rises.
#[derive(Debug, Default)]
pub struct Client {
    id: ClientId,
    curid: u128,
}

impl Client {
    /// The identity whose envelopes are numbered.
    pub closed spec fn id(&self) -> ClientId {
        self.id
    }

    /// The number of the last envelope made.
    pub closed spec fn counter(&self) -> u128 {
        self.curid
    }

    /// The proof of work that every envelope of `id` carries: the smallest
    /// token of the required strength, if there is one.
    pub open spec fn workproof_of(id: ClientId) -> Option<u128> {
        first_workproof(id.0, WORKPROOF_STRENGTH, u128::MAX)
    }

    /// A sequencer for `id` that has numbered nothing yet.
    pub fn new(id: ClientId) -> (client: Self)
        ensures
            client.id() == id,
            client.counter() == 0,
    {
        Client { id, curid: 0 }
    }

    /// Wraps `content` in the next envelope: the counter goes up by one
    /// and gives the sequence number, and the proof of work is searched
    /// for. The counter must have room and a proof of work must exist.
    pub fn sequence<A>(&mut self, content: A) -> (envelope: Sequence<A>)
        requires
            old(self).counter() < u128::MAX,
            Self::workproof_of(old(self).id()) is Some,
        ensures
            final(self).id() == old(self).id(),
            final(self).counter() == old(self).counter() + 1,
            envelope == (Sequence {
                seqid: final(self).counter(),
                src: old(self).id(),
                workproof: Self::workproof_of(old(self).id())->0,
                content,
            }),
    {
        self.curid = self.curid + 1;
        let found = gen_workproof(self.id.0, WORKPROOF_STRENGTH, u128::MAX);
        Sequence { seqid: self.curid, src: self.id, workproof: found.unwrap(), content }
    }

    /// Wraps `content` in the next envelope where that can be done, and
    /// leaves the sequencer as it was where the counter is used up or no
    /// proof of work exists.
    pub fn try_sequence<A>(&mut self, content: A) -> (envelope: Option<Sequence<A>>)
        ensures
            final(self).id() == old(self).id(),
            envelope is Some <==> old(self).counter() < u128::MAX && Self::workproof_of(
                old(self).id(),
            ) is Some,
            match envelope {
                Some(made) => final(self).counter() == old(self).counter() + 1 && made == (Sequence {
                    seqid: final(self).counter(),
                    src: old(self).id(),
                    workproof: Self::workproof_of(old(self).id())->0,
                    content,
                }),
                None => final(self).counter() == old(self).counter(),
            },
    {
        if self.curid == u128::MAX {
            return None;
        }
        match gen_workproof(self.id.0, WORKPROOF_STRENGTH, u128::MAX) {
            Some(_) => Some(self.sequence(content)),
            None => None,
        }
    }
}

/// The envelope by which a newcomer asks for an identity: it is sent
/// under a throw-away identity with the sequence number 0 and that
/// identity's proof of work, and carries the name to register under.
/// There is none where the throw-away identity has no proof of work.
pub fn registration(tempid: ClientId, name: String) -> (envelope: Option<Sequence<ClientQuery>>)
    ensures
        envelope is Some <==> Client::workproof_of(tempid) is Some,
        envelope matches Some(made) ==> made.deep_view() == (Sequence {
            seqid: 0,
            src: tempid,
            workproof: Client::workproof_of(tempid)->0,
            content: ClientQueryView::Register(name@),
        }),
{
    match gen_workproof(tempid.0, WORKPROOF_STRENGTH, u128::MAX) {
        Some(workproof) => Some(
            Sequence { seqid: 0, src: tempid, workproof, content: ClientQuery::Register(name) },
        ),
        None => None,
    }
}

} // verus!
