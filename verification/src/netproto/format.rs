//! The wire format as mathematics: for every kind of value the bytes that
//! stand for it and the reading of bytes as such a value, with the proof
//! that reading gives back what was written.

use crate::bytes::{
    le_bytes, le_value, lemma_le_bytes_len, lemma_le_value_bound, lemma_le_value_of_bytes,
    lemma_pow256_widths, pow256,
};
use crate::messages::{
    AuthMessageView, ClientError, ClientId, ClientMessageView, ClientPollReplyView,
    ClientQueryView, ClientReplyView, DelayedError, FullyQualifiedMessageView, Letter, Sequence,
    ServerId, ServerMessageView,
};
use vstd::prelude::*;
use vstd::utf8::{decode_utf8, encode_utf8, valid_utf8};

verus! {

/// Why bytes could not be read as a value.
#[derive(Clone, Copy, Debug, PartialEq, Eq, Structural)]
pub enum DecodeError {
    /// The bytes end before the value does.
    ShortRead,
    /// A tag byte that stands for nothing.
    InvalidTag,
    /// A text that is not UTF-8.
    InvalidUtf8,
    /// A length that cannot be: an identifier's length other than sixteen,
    /// or a text longer than memory can address.
    LengthOverflow,
}

/// What reading gives: the value and the number of bytes it took.
pub type Parsed<T> = Result<(T, nat), DecodeError>;

/// A kind of value that the wire format carries.
pub trait Wire: Sized {
    /// Whether the value can be written at all: its lengths are such as a
    /// machine can hold.
    spec fn fits(self) -> bool;

    /// The bytes that stand for the value.
    spec fn wire(self) -> Seq<u8>;

    /// The value that the front of `bytes` stands for.
    spec fn parse(bytes: Seq<u8>) -> Parsed<Self>;

    /// Reading what was written gives the value back, whatever follows it,
    /// and takes exactly the bytes that were written.
    proof fn lemma_round_trip(self, rest: Seq<u8>)
        requires
            self.fits(),
        ensures
            Self::parse(self.wire() + rest) == Ok::<(Self, nat), DecodeError>(
                (self, self.wire().len()),
            ),
    ;

    /// Reading never takes more bytes than there are.
    proof fn lemma_parse_within(bytes: Seq<u8>)
        ensures
            Self::parse(bytes) matches Ok((_, taken)) ==> taken <= bytes.len(),
    ;
}

/// The number of bytes that follow the tag of a wide integer.
pub open spec fn tag_width(tag: u8) -> nat {
    if tag == 251 {
        2
    } else if tag == 252 {
        4
    } else if tag == 253 {
        8
    } else {
        16
    }
}

/// The tag under which an integer is written; values below 251 are
/// their own tag.
pub open spec fn tag_of(value: u128) -> u8 {
    if value < 251 {
        value as u8
    } else if value <= 0xFFFF {
        251
    } else if value <= 0xFFFF_FFFF {
        252
    } else if value <= 0xFFFF_FFFF_FFFF_FFFF {
        253
    } else {
        254
    }
}

impl Wire for u128 {
    open spec fn fits(self) -> bool {
        true
    }

    open spec fn wire(self) -> Seq<u8> {
        if self < 251 {
            seq![self as u8]
        } else {
            seq![tag_of(self)] + le_bytes(self as nat, tag_width(tag_of(self)))
        }
    }

    open spec fn parse(bytes: Seq<u8>) -> Parsed<u128> {
        if bytes.len() == 0 {
            Err(DecodeError::ShortRead)
        } else if bytes[0] < 251 {
            Ok((bytes[0] as u128, 1))
        } else if bytes[0] == 255 {
            Err(DecodeError::InvalidTag)
        } else if bytes.len() < 1 + tag_width(bytes[0]) {
            Err(DecodeError::ShortRead)
        } else {
            Ok(
                (
                    le_value(bytes.subrange(1, 1 + tag_width(bytes[0]) as int)) as u128,
                    1 + tag_width(bytes[0]),
                ),
            )
        }
    }

    proof fn lemma_round_trip(self, rest: Seq<u8>) {
        let all = self.wire() + rest;
        if self < 251 {
        } else {
            let width = tag_width(tag_of(self));
            lemma_pow256_widths();
            lemma_le_bytes_len(self as nat, width);
            lemma_le_value_of_bytes(self as nat, width);
            assert(all.subrange(1, 1 + width as int) =~= le_bytes(self as nat, width));
        }
    }

    proof fn lemma_parse_within(bytes: Seq<u8>) {
    }
}

/// An integer is written under the smallest tag that holds it: no tag
/// whose width has room for the value is below the one chosen, and the
/// bytes written are no more than that tag would take.
pub proof fn lemma_u128_smallest_tag(value: u128, tag: u8)
    requires
        251 <= tag <= 254,
        value < pow256(tag_width(tag)),
    ensures
        value.wire()[0] == tag_of(value),
        value.wire().len() <= 1 + tag_width(tag),
        value >= 251 ==> tag_of(value) <= tag && value.wire().len() == 1 + tag_width(
            tag_of(value),
        ),
        value < 251 ==> value.wire().len() == 1,
{
    lemma_pow256_widths();
    if value >= 251 {
        lemma_le_bytes_len(value as nat, tag_width(tag_of(value)));
    }
}

/// No bytes that read as an integer are fewer than the bytes that the
/// integer is written with.
pub proof fn lemma_u128_minimal(bytes: Seq<u8>)
    ensures
        u128::parse(bytes) matches Ok((value, taken)) ==> value.wire().len() <= taken,
{
    if let Ok((value, taken)) = u128::parse(bytes) {
        if bytes[0] >= 251 {
            let width = tag_width(bytes[0]);
            lemma_le_value_bound(bytes.subrange(1, 1 + width as int));
            lemma_pow256_widths();
            lemma_u128_smallest_tag(value, bytes[0]);
        }
    }
}

/// The bytes of an identifier: its length, sixteen, and its sixteen bytes.
pub open spec fn wire_id(value: u128) -> Seq<u8> {
    seq![16u8] + le_bytes(value as nat, 16)
}

/// The identifier at the front of `bytes`.
pub open spec fn parse_id(bytes: Seq<u8>) -> Parsed<u128> {
    if bytes.len() == 0 {
        Err(DecodeError::ShortRead)
    } else if bytes[0] != 16 {
        Err(DecodeError::LengthOverflow)
    } else if bytes.len() < 17 {
        Err(DecodeError::ShortRead)
    } else {
        Ok((le_value(bytes.subrange(1, 17)) as u128, 17))
    }
}

/// Reading an identifier that was written gives it back, in 17 bytes.
pub proof fn lemma_id_round_trip(value: u128, rest: Seq<u8>)
    ensures
        parse_id(wire_id(value) + rest) == Ok::<(u128, nat), DecodeError>((value, 17)),
        wire_id(value).len() == 17,
{
    lemma_pow256_widths();
    lemma_le_bytes_len(value as nat, 16);
    lemma_le_value_of_bytes(value as nat, 16);
    assert((wire_id(value) + rest).subrange(1, 17) =~= le_bytes(value as nat, 16));
}

impl Wire for ClientId {
    open spec fn fits(self) -> bool {
        true
    }

    open spec fn wire(self) -> Seq<u8> {
        wire_id(self.0)
    }

    open spec fn parse(bytes: Seq<u8>) -> Parsed<ClientId> {
        match parse_id(bytes) {
            Ok((value, taken)) => Ok((ClientId(value), taken)),
            Err(e) => Err(e),
        }
    }

    proof fn lemma_round_trip(self, rest: Seq<u8>) {
        lemma_id_round_trip(self.0, rest);
    }

    proof fn lemma_parse_within(bytes: Seq<u8>) {
    }
}

impl Wire for ServerId {
    open spec fn fits(self) -> bool {
        true
    }

    open spec fn wire(self) -> Seq<u8> {
        wire_id(self.0)
    }

    open spec fn parse(bytes: Seq<u8>) -> Parsed<ServerId> {
        match parse_id(bytes) {
            Ok((value, taken)) => Ok((ServerId(value), taken)),
            Err(e) => Err(e),
        }
    }

    proof fn lemma_round_trip(self, rest: Seq<u8>) {
        lemma_id_round_trip(self.0, rest);
    }

    proof fn lemma_parse_within(bytes: Seq<u8>) {
    }
}

/// A text: the number of its UTF-8 bytes, then the bytes.
impl Wire for Seq<char> {
    open spec fn fits(self) -> bool {
        encode_utf8(self).len() <= usize::MAX
    }

    open spec fn wire(self) -> Seq<u8> {
        (encode_utf8(self).len() as u128).wire() + encode_utf8(self)
    }

    open spec fn parse(bytes: Seq<u8>) -> Parsed<Seq<char>> {
        match u128::parse(bytes) {
            Err(e) => Err(e),
            Ok((len, taken)) => {
                if len > usize::MAX {
                    Err(DecodeError::LengthOverflow)
                } else if bytes.len() - taken < len {
                    Err(DecodeError::ShortRead)
                } else if !valid_utf8(bytes.subrange(taken as int, taken + len)) {
                    Err(DecodeError::InvalidUtf8)
                } else {
                    Ok((decode_utf8(bytes.subrange(taken as int, taken + len)), taken + len as nat))
                }
            },
        }
    }

    proof fn lemma_round_trip(self, rest: Seq<u8>) {
        let body = encode_utf8(self);
        let len = body.len() as u128;
        len.lemma_round_trip(body + rest);
        let all = self.wire() + rest;
        assert(all =~= len.wire() + (body + rest));
        let taken = len.wire().len();
        assert(all.subrange(taken as int, taken + len) =~= body);
        vstd::utf8::encode_utf8_valid_utf8(self);
        vstd::utf8::encode_utf8_decode_utf8(self);
    }

    proof fn lemma_parse_within(bytes: Seq<u8>) {
        u128::lemma_parse_within(bytes);
    }
}

/// A pair: the first, then the second.
impl<A: Wire, B: Wire> Wire for (A, B) {
    open spec fn fits(self) -> bool {
        self.0.fits() && self.1.fits()
    }

    open spec fn wire(self) -> Seq<u8> {
        self.0.wire() + self.1.wire()
    }

    open spec fn parse(bytes: Seq<u8>) -> Parsed<(A, B)> {
        match A::parse(bytes) {
            Err(e) => Err(e),
            Ok((first, taken)) => match B::parse(bytes.skip(taken as int)) {
                Err(e) => Err(e),
                Ok((second, more)) => Ok(((first, second), taken + more)),
            },
        }
    }

    proof fn lemma_round_trip(self, rest: Seq<u8>) {
        let all = self.wire() + rest;
        self.0.lemma_round_trip(self.1.wire() + rest);
        assert(all =~= self.0.wire() + (self.1.wire() + rest));
        self.1.lemma_round_trip(rest);
        assert(all.skip(self.0.wire().len() as int) =~= self.1.wire() + rest);
    }

    proof fn lemma_parse_within(bytes: Seq<u8>) {
        A::lemma_parse_within(bytes);
        if let Ok((_, taken)) = A::parse(bytes) {
            B::lemma_parse_within(bytes.skip(taken as int));
        }
    }
}

/// The bytes of `items`, one after the other.
pub open spec fn wire_each<T: Wire>(items: Seq<T>) -> Seq<u8>
    decreases items.len(),
{
    if items.len() == 0 {
        Seq::empty()
    } else {
        items[0].wire() + wire_each(items.drop_first())
    }
}

/// The `count` values at the front of `bytes`.
pub open spec fn parse_each<T: Wire>(bytes: Seq<u8>, count: nat) -> Parsed<Seq<T>>
    decreases count,
{
    if count == 0 {
        Ok((Seq::empty(), 0))
    } else {
        match T::parse(bytes) {
            Err(e) => Err(e),
            Ok((first, taken)) => match parse_each::<T>(
                bytes.skip(taken as int),
                (count - 1) as nat,
            ) {
                Err(e) => Err(e),
                Ok((others, more)) => Ok((seq![first] + others, taken + more)),
            },
        }
    }
}

/// Writing one more item adds its bytes at the end.
pub proof fn lemma_wire_each_push<T: Wire>(items: Seq<T>, last: T)
    ensures
        wire_each(items.push(last)) == wire_each(items) + last.wire(),
    decreases items.len(),
{
    let longer = items.push(last);
    assert(wire_each(longer) == longer[0].wire() + wire_each(longer.drop_first()));
    if items.len() == 0 {
        assert(longer.drop_first() =~= Seq::<T>::empty());
        assert(wire_each(Seq::<T>::empty()) =~= Seq::<u8>::empty());
        assert(wire_each(items) =~= Seq::<u8>::empty());
        assert(wire_each(longer) =~= wire_each(items) + last.wire());
    } else {
        assert(longer.drop_first() =~= items.drop_first().push(last));
        lemma_wire_each_push(items.drop_first(), last);
        assert(wire_each(items) == items[0].wire() + wire_each(items.drop_first()));
        assert(wire_each(longer) =~= wire_each(items) + last.wire());
    }
}

/// Whether each of `items` can be written.
pub open spec fn each_fits<T: Wire>(items: Seq<T>) -> bool {
    forall|i: int| 0 <= i < items.len() ==> (#[trigger] items[i]).fits()
}

/// Reading as many values as were written gives them back, whatever
/// follows them.
pub proof fn lemma_each_round_trip<T: Wire>(items: Seq<T>, rest: Seq<u8>)
    requires
        each_fits(items),
    ensures
        parse_each::<T>(wire_each(items) + rest, items.len()) == Ok::<(Seq<T>, nat), DecodeError>(
            (items, wire_each(items).len()),
        ),
    decreases items.len(),
{
    if items.len() == 0 {
        assert(items =~= Seq::empty());
    } else {
        let first = items[0];
        let others = items.drop_first();
        let all = wire_each(items) + rest;
        assert(first.fits());
        first.lemma_round_trip(wire_each(others) + rest);
        assert(all =~= first.wire() + (wire_each(others) + rest));
        assert(all.skip(first.wire().len() as int) =~= wire_each(others) + rest);
        lemma_each_round_trip(others, rest);
        assert(seq![first] + others =~= items);
    }
}

/// Reading `count` values gives `count` values and takes no more bytes
/// than there are.
pub proof fn lemma_parse_each_within<T: Wire>(bytes: Seq<u8>, count: nat)
    ensures
        parse_each::<T>(bytes, count) matches Ok((items, taken)) ==> taken <= bytes.len()
            && items.len() == count,
    decreases count,
{
    if count > 0 {
        T::lemma_parse_within(bytes);
        if let Ok((_, taken)) = T::parse(bytes) {
            lemma_parse_each_within::<T>(bytes.skip(taken as int), (count - 1) as nat);
        }
    }
}

/// A collection: the number of its items, then the items.
impl<T: Wire> Wire for Seq<T> {
    open spec fn fits(self) -> bool {
        self.len() <= usize::MAX && each_fits(self)
    }

    open spec fn wire(self) -> Seq<u8> {
        (self.len() as u128).wire() + wire_each(self)
    }

    open spec fn parse(bytes: Seq<u8>) -> Parsed<Seq<T>> {
        match u128::parse(bytes) {
            Err(e) => Err(e),
            Ok((count, taken)) => match parse_each::<T>(bytes.skip(taken as int), count as nat) {
                Err(e) => Err(e),
                Ok((items, more)) => Ok((items, taken + more)),
            },
        }
    }

    proof fn lemma_round_trip(self, rest: Seq<u8>) {
        let count = self.len() as u128;
        let all = self.wire() + rest;
        count.lemma_round_trip(wire_each(self) + rest);
        assert(all =~= count.wire() + (wire_each(self) + rest));
        assert(all.skip(count.wire().len() as int) =~= wire_each(self) + rest);
        lemma_each_round_trip(self, rest);
    }

    proof fn lemma_parse_within(bytes: Seq<u8>) {
        u128::lemma_parse_within(bytes);
        if let Ok((count, taken)) = u128::parse(bytes) {
            lemma_parse_each_within::<T>(bytes.skip(taken as int), count as nat);
        }
    }
}


/// The bytes of a variant: its tag, then its fields.
pub open spec fn tagged(tag: u8, fields: Seq<u8>) -> Seq<u8> {
    seq![tag] + fields
}

/// What is read after a tag: the fields, with the tag's byte counted in.
pub open spec fn after_tag<T, U>(fields: Parsed<T>, make: spec_fn(T) -> U) -> Parsed<U> {
    match fields {
        Err(e) => Err(e),
        Ok((value, taken)) => Ok((make(value), 1 + taken)),
    }
}

/// Reading the fields that follow a tag sees what was written after it.
pub proof fn lemma_tagged<T: Wire>(tag: u8, fields: T, rest: Seq<u8>)
    requires
        fields.fits(),
    ensures
        (tagged(tag, fields.wire()) + rest)[0] == tag,
        (tagged(tag, fields.wire()) + rest).len() > 0,
        T::parse((tagged(tag, fields.wire()) + rest).skip(1)) == Ok::<(T, nat), DecodeError>(
            (fields, fields.wire().len()),
        ),
        tagged(tag, fields.wire()).len() == 1 + fields.wire().len(),
{
    fields.lemma_round_trip(rest);
    assert((tagged(tag, fields.wire()) + rest).skip(1) =~= fields.wire() + rest);
}

/// The first `count` bytes, as they are.
pub open spec fn parse_raw(bytes: Seq<u8>, count: nat) -> Parsed<Seq<u8>> {
    if bytes.len() < count {
        Err(DecodeError::ShortRead)
    } else {
        Ok((bytes.take(count as int), count))
    }
}

/// The reading of bytes as a client's message.
#[verifier::opaque]
pub open spec fn parse_client_message(bytes: Seq<u8>) -> Parsed<ClientMessageView> {
    if bytes.len() == 0 {
        Err(DecodeError::ShortRead)
    } else if bytes[0] == 0 {
        after_tag(
            <(ClientId, Seq<char>)>::parse(bytes.skip(1)),
            |f: (ClientId, Seq<char>)| ClientMessageView::Text { dest: f.0, content: f.1 },
        )
    } else if bytes[0] == 1 {
        after_tag(
            <(Seq<ClientId>, Seq<char>)>::parse(bytes.skip(1)),
            |f: (Seq<ClientId>, Seq<char>)|
                ClientMessageView::MText { dest: f.0, content: f.1 },
        )
    } else {
        Err(DecodeError::InvalidTag)
    }
}

impl Wire for ClientMessageView {
    open spec fn fits(self) -> bool {
        match self {
            ClientMessageView::Text { dest, content } => content.fits(),
            ClientMessageView::MText { dest, content } => dest.fits() && content.fits(),
        }
    }

    open spec fn wire(self) -> Seq<u8> {
        match self {
            ClientMessageView::Text { dest, content } => tagged(0, (dest, content).wire()),
            ClientMessageView::MText { dest, content } => tagged(1, (dest, content).wire()),
        }
    }

    open spec fn parse(bytes: Seq<u8>) -> Parsed<ClientMessageView> {
        parse_client_message(bytes)
    }

    proof fn lemma_round_trip(self, rest: Seq<u8>) {
        reveal(parse_client_message);
        match self {
            ClientMessageView::Text { dest, content } => lemma_tagged(0, (dest, content), rest),
            ClientMessageView::MText { dest, content } => lemma_tagged(1, (dest, content), rest),
        }
    }

    proof fn lemma_parse_within(bytes: Seq<u8>) {
        reveal(parse_client_message);
        if bytes.len() > 0 {
            <(ClientId, Seq<char>)>::lemma_parse_within(bytes.skip(1));
            <(Seq<ClientId>, Seq<char>)>::lemma_parse_within(bytes.skip(1));
        }
    }
}

/// The reading of bytes as a client's query.
#[verifier::opaque]
pub open spec fn parse_client_query(bytes: Seq<u8>) -> Parsed<ClientQueryView> {
    if bytes.len() == 0 {
        Err(DecodeError::ShortRead)
    } else if bytes[0] == 0 {
        after_tag(
            Seq::<char>::parse(bytes.skip(1)),
            |name: Seq<char>| ClientQueryView::Register(name),
        )
    } else if bytes[0] == 1 {
        after_tag(
            ClientMessageView::parse(bytes.skip(1)),
            |message: ClientMessageView| ClientQueryView::Message(message),
        )
    } else if bytes[0] == 2 {
        Ok((ClientQueryView::Poll, 1))
    } else if bytes[0] == 3 {
        Ok((ClientQueryView::ListUsers, 1))
    } else {
        Err(DecodeError::InvalidTag)
    }
}

impl Wire for ClientQueryView {
    open spec fn fits(self) -> bool {
        match self {
            ClientQueryView::Register(name) => name.fits(),
            ClientQueryView::Message(message) => message.fits(),
            ClientQueryView::Poll => true,
            ClientQueryView::ListUsers => true,
        }
    }

    open spec fn wire(self) -> Seq<u8> {
        match self {
            ClientQueryView::Register(name) => tagged(0, name.wire()),
            ClientQueryView::Message(message) => tagged(1, message.wire()),
            ClientQueryView::Poll => seq![2u8],
            ClientQueryView::ListUsers => seq![3u8],
        }
    }

    open spec fn parse(bytes: Seq<u8>) -> Parsed<ClientQueryView> {
        parse_client_query(bytes)
    }

    proof fn lemma_round_trip(self, rest: Seq<u8>) {
        reveal(parse_client_query);
        match self {
            ClientQueryView::Register(name) => lemma_tagged(0, name, rest),
            ClientQueryView::Message(message) => lemma_tagged(1, message, rest),
            ClientQueryView::Poll => {},
            ClientQueryView::ListUsers => {},
        }
    }

    proof fn lemma_parse_within(bytes: Seq<u8>) {
        reveal(parse_client_query);
        if bytes.len() > 0 {
            Seq::<char>::lemma_parse_within(bytes.skip(1));
            ClientMessageView::lemma_parse_within(bytes.skip(1));
        }
    }
}

/// The fields of a fully qualified message in the order of the wire.
pub open spec fn qualified_fields(m: FullyQualifiedMessageView) -> (
    ClientId,
    (ServerId, (Seq<(ClientId, ServerId)>, Seq<char>)),
) {
    (m.src, (m.srcsrv, (m.dsts, m.content)))
}

/// The reading of bytes as a fully qualified message.
#[verifier::opaque]
pub open spec fn parse_qualified(bytes: Seq<u8>) -> Parsed<FullyQualifiedMessageView> {
    match <(ClientId, (ServerId, (Seq<(ClientId, ServerId)>, Seq<char>)))>::parse(bytes) {
        Err(e) => Err(e),
        Ok((f, taken)) => Ok(
            (
                FullyQualifiedMessageView {
                    src: f.0,
                    srcsrv: f.1.0,
                    dsts: f.1.1.0,
                    content: f.1.1.1,
                },
                taken,
            ),
        ),
    }
}

impl Wire for FullyQualifiedMessageView {
    open spec fn fits(self) -> bool {
        qualified_fields(self).fits()
    }

    open spec fn wire(self) -> Seq<u8> {
        qualified_fields(self).wire()
    }

    open spec fn parse(bytes: Seq<u8>) -> Parsed<FullyQualifiedMessageView> {
        parse_qualified(bytes)
    }

    proof fn lemma_round_trip(self, rest: Seq<u8>) {
        reveal(parse_qualified);
        qualified_fields(self).lemma_round_trip(rest);
    }

    proof fn lemma_parse_within(bytes: Seq<u8>) {
        reveal(parse_qualified);
        <(ClientId, (ServerId, (Seq<(ClientId, ServerId)>, Seq<char>)))>::lemma_parse_within(bytes);
    }
}

/// The reading of bytes as a server's message.
#[verifier::opaque]
pub open spec fn parse_server_message(bytes: Seq<u8>) -> Parsed<ServerMessageView> {
    if bytes.len() == 0 {
        Err(DecodeError::ShortRead)
    } else if bytes[0] == 0 {
        after_tag(
            <(Seq<ServerId>, Seq<Letter>)>::parse(bytes.skip(1)),
            |f: (Seq<ServerId>, Seq<Letter>)|
                ServerMessageView::Announce { route: f.0, clients: f.1 },
        )
    } else if bytes[0] == 1 {
        after_tag(
            FullyQualifiedMessageView::parse(bytes.skip(1)),
            |message: FullyQualifiedMessageView| ServerMessageView::Message(message),
        )
    } else {
        Err(DecodeError::InvalidTag)
    }
}

impl Wire for ServerMessageView {
    open spec fn fits(self) -> bool {
        match self {
            ServerMessageView::Announce { route, clients } => route.fits() && clients.fits(),
            ServerMessageView::Message(message) => message.fits(),
        }
    }

    open spec fn wire(self) -> Seq<u8> {
        match self {
            ServerMessageView::Announce { route, clients } => tagged(0, (route, clients).wire()),
            ServerMessageView::Message(message) => tagged(1, message.wire()),
        }
    }

    open spec fn parse(bytes: Seq<u8>) -> Parsed<ServerMessageView> {
        parse_server_message(bytes)
    }

    proof fn lemma_round_trip(self, rest: Seq<u8>) {
        reveal(parse_server_message);
        match self {
            ServerMessageView::Announce { route, clients } => lemma_tagged(
                0,
                (route, clients),
                rest,
            ),
            ServerMessageView::Message(message) => lemma_tagged(1, message, rest),
        }
    }

    proof fn lemma_parse_within(bytes: Seq<u8>) {
        reveal(parse_server_message);
        if bytes.len() > 0 {
            <(Seq<ServerId>, Seq<Letter>)>::lemma_parse_within(bytes.skip(1));
            FullyQualifiedMessageView::lemma_parse_within(bytes.skip(1));
        }
    }
}

/// The reading of bytes as a refusal.
#[verifier::opaque]
pub open spec fn parse_client_error(bytes: Seq<u8>) -> Parsed<ClientError> {
    if bytes.len() == 0 {
        Err(DecodeError::ShortRead)
    } else if bytes[0] == 0 {
        Ok((ClientError::WorkProofError, 1))
    } else if bytes[0] == 1 {
        Ok((ClientError::UnknownClient, 1))
    } else if bytes[0] == 2 {
        Ok((ClientError::SequenceError, 1))
    } else if bytes[0] == 3 {
        after_tag(ClientId::parse(bytes.skip(1)), |client: ClientId| ClientError::BoxFull(client))
    } else if bytes[0] == 4 {
        Ok((ClientError::InternalError, 1))
    } else {
        Err(DecodeError::InvalidTag)
    }
}

impl Wire for ClientError {
    open spec fn fits(self) -> bool {
        true
    }

    open spec fn wire(self) -> Seq<u8> {
        match self {
            ClientError::WorkProofError => seq![0u8],
            ClientError::UnknownClient => seq![1u8],
            ClientError::SequenceError => seq![2u8],
            ClientError::BoxFull(client) => tagged(3, client.wire()),
            ClientError::InternalError => seq![4u8],
        }
    }

    open spec fn parse(bytes: Seq<u8>) -> Parsed<ClientError> {
        parse_client_error(bytes)
    }

    proof fn lemma_round_trip(self, rest: Seq<u8>) {
        reveal(parse_client_error);
        match self {
            ClientError::BoxFull(client) => lemma_tagged(3, client, rest),
            _ => {},
        }
    }

    proof fn lemma_parse_within(bytes: Seq<u8>) {
        reveal(parse_client_error);
        if bytes.len() > 0 {
            ClientId::lemma_parse_within(bytes.skip(1));
        }
    }
}

/// The reading of bytes as the reply for one destination.
#[verifier::opaque]
pub open spec fn parse_client_reply(bytes: Seq<u8>) -> Parsed<ClientReplyView> {
    if bytes.len() == 0 {
        Err(DecodeError::ShortRead)
    } else if bytes[0] == 0 {
        Ok((ClientReplyView::Delivered, 1))
    } else if bytes[0] == 1 {
        after_tag(ClientError::parse(bytes.skip(1)), |e: ClientError| ClientReplyView::Error(e))
    } else if bytes[0] == 2 {
        Ok((ClientReplyView::Delayed, 1))
    } else if bytes[0] == 3 {
        after_tag(
            <(ServerId, ServerMessageView)>::parse(bytes.skip(1)),
            |f: (ServerId, ServerMessageView)| ClientReplyView::Transfer(f.0, f.1),
        )
    } else {
        Err(DecodeError::InvalidTag)
    }
}

impl Wire for ClientReplyView {
    open spec fn fits(self) -> bool {
        match self {
            ClientReplyView::Transfer(hop, message) => message.fits(),
            _ => true,
        }
    }

    open spec fn wire(self) -> Seq<u8> {
        match self {
            ClientReplyView::Delivered => seq![0u8],
            ClientReplyView::Error(e) => tagged(1, e.wire()),
            ClientReplyView::Delayed => seq![2u8],
            ClientReplyView::Transfer(hop, message) => tagged(3, (hop, message).wire()),
        }
    }

    open spec fn parse(bytes: Seq<u8>) -> Parsed<ClientReplyView> {
        parse_client_reply(bytes)
    }

    proof fn lemma_round_trip(self, rest: Seq<u8>) {
        reveal(parse_client_reply);
        match self {
            ClientReplyView::Error(e) => lemma_tagged(1, e, rest),
            ClientReplyView::Transfer(hop, message) => lemma_tagged(3, (hop, message), rest),
            _ => {},
        }
    }

    proof fn lemma_parse_within(bytes: Seq<u8>) {
        reveal(parse_client_reply);
        if bytes.len() > 0 {
            ClientError::lemma_parse_within(bytes.skip(1));
            <(ServerId, ServerMessageView)>::lemma_parse_within(bytes.skip(1));
        }
    }
}

/// The reading of bytes as a late failure.
#[verifier::opaque]
pub open spec fn parse_delayed_error(bytes: Seq<u8>) -> Parsed<DelayedError> {
    if bytes.len() == 0 {
        Err(DecodeError::ShortRead)
    } else if bytes[0] == 0 {
        after_tag(
            ClientId::parse(bytes.skip(1)),
            |client: ClientId| DelayedError::UnknownRecipient(client),
        )
    } else {
        Err(DecodeError::InvalidTag)
    }
}

impl Wire for DelayedError {
    open spec fn fits(self) -> bool {
        true
    }

    open spec fn wire(self) -> Seq<u8> {
        match self {
            DelayedError::UnknownRecipient(client) => tagged(0, client.wire()),
        }
    }

    open spec fn parse(bytes: Seq<u8>) -> Parsed<DelayedError> {
        parse_delayed_error(bytes)
    }

    proof fn lemma_round_trip(self, rest: Seq<u8>) {
        reveal(parse_delayed_error);
        match self {
            DelayedError::UnknownRecipient(client) => lemma_tagged(0, client, rest),
        }
    }

    proof fn lemma_parse_within(bytes: Seq<u8>) {
        reveal(parse_delayed_error);
        if bytes.len() > 0 {
            ClientId::lemma_parse_within(bytes.skip(1));
        }
    }
}

/// The reading of bytes as the reply to a poll.
#[verifier::opaque]
pub open spec fn parse_client_poll_reply(bytes: Seq<u8>) -> Parsed<ClientPollReplyView> {
    if bytes.len() == 0 {
        Err(DecodeError::ShortRead)
    } else if bytes[0] == 0 {
        after_tag(
            <(ClientId, Seq<char>)>::parse(bytes.skip(1)),
            |f: (ClientId, Seq<char>)| ClientPollReplyView::Message { src: f.0, content: f.1 },
        )
    } else if bytes[0] == 1 {
        after_tag(
            DelayedError::parse(bytes.skip(1)),
            |e: DelayedError| ClientPollReplyView::DelayedError(e),
        )
    } else if bytes[0] == 2 {
        Ok((ClientPollReplyView::Nothing, 1))
    } else {
        Err(DecodeError::InvalidTag)
    }
}

impl Wire for ClientPollReplyView {
    open spec fn fits(self) -> bool {
        match self {
            ClientPollReplyView::Message { src, content } => content.fits(),
            _ => true,
        }
    }

    open spec fn wire(self) -> Seq<u8> {
        match self {
            ClientPollReplyView::Message { src, content } => tagged(0, (src, content).wire()),
            ClientPollReplyView::DelayedError(e) => tagged(1, e.wire()),
            ClientPollReplyView::Nothing => seq![2u8],
        }
    }

    open spec fn parse(bytes: Seq<u8>) -> Parsed<ClientPollReplyView> {
        parse_client_poll_reply(bytes)
    }

    proof fn lemma_round_trip(self, rest: Seq<u8>) {
        reveal(parse_client_poll_reply);
        match self {
            ClientPollReplyView::Message { src, content } => lemma_tagged(0, (src, content), rest),
            ClientPollReplyView::DelayedError(e) => lemma_tagged(1, e, rest),
            ClientPollReplyView::Nothing => {},
        }
    }

    proof fn lemma_parse_within(bytes: Seq<u8>) {
        reveal(parse_client_poll_reply);
        if bytes.len() > 0 {
            <(ClientId, Seq<char>)>::lemma_parse_within(bytes.skip(1));
            DelayedError::lemma_parse_within(bytes.skip(1));
        }
    }
}

/// The reading of bytes as a message of the authentication handshake.
#[verifier::opaque]
pub open spec fn parse_auth(bytes: Seq<u8>) -> Parsed<AuthMessageView> {
    if bytes.len() == 0 {
        Err(DecodeError::ShortRead)
    } else if bytes[0] == 0 {
        match ClientId::parse(bytes.skip(1)) {
            Err(e) => Err(e),
            Ok((user, taken)) => match parse_raw(bytes.skip(1 + taken as int), 8) {
                Err(e) => Err(e),
                Ok((nonce, more)) => Ok((AuthMessageView::Hello { user, nonce }, 1 + taken + more)),
            },
        }
    } else if bytes[0] == 1 {
        match ServerId::parse(bytes.skip(1)) {
            Err(e) => Err(e),
            Ok((server, taken)) => match parse_raw(bytes.skip(1 + taken as int), 8) {
                Err(e) => Err(e),
                Ok((nonce, more)) => Ok(
                    (AuthMessageView::Nonce { server, nonce }, 1 + taken + more),
                ),
            },
        }
    } else if bytes[0] == 2 {
        after_tag(
            parse_raw(bytes.skip(1), 16),
            |response: Seq<u8>| AuthMessageView::Auth { response },
        )
    } else {
        Err(DecodeError::InvalidTag)
    }
}

impl Wire for AuthMessageView {
    open spec fn fits(self) -> bool {
        match self {
            AuthMessageView::Hello { user, nonce } => nonce.len() == 8,
            AuthMessageView::Nonce { server, nonce } => nonce.len() == 8,
            AuthMessageView::Auth { response } => response.len() == 16,
        }
    }

    open spec fn wire(self) -> Seq<u8> {
        match self {
            AuthMessageView::Hello { user, nonce } => tagged(0, user.wire() + nonce),
            AuthMessageView::Nonce { server, nonce } => tagged(1, server.wire() + nonce),
            AuthMessageView::Auth { response } => tagged(2, response),
        }
    }

    open spec fn parse(bytes: Seq<u8>) -> Parsed<AuthMessageView> {
        parse_auth(bytes)
    }

    proof fn lemma_round_trip(self, rest: Seq<u8>) {
        reveal(parse_auth);
        let all = self.wire() + rest;
        match self {
            AuthMessageView::Hello { user, nonce } => {
                user.lemma_round_trip(nonce + rest);
                assert(all.skip(1) =~= user.wire() + (nonce + rest));
                assert(all.skip(18) =~= nonce + rest);
                assert((nonce + rest).take(8) =~= nonce);
            },
            AuthMessageView::Nonce { server, nonce } => {
                server.lemma_round_trip(nonce + rest);
                assert(all.skip(1) =~= server.wire() + (nonce + rest));
                assert(all.skip(18) =~= nonce + rest);
                assert((nonce + rest).take(8) =~= nonce);
            },
            AuthMessageView::Auth { response } => {
                assert(all.skip(1) =~= response + rest);
                assert((response + rest).take(16) =~= response);
            },
        }
    }

    proof fn lemma_parse_within(bytes: Seq<u8>) {
        reveal(parse_auth);
    }
}

/// The fields of an envelope in the order of the wire.
pub open spec fn envelope_fields<A>(m: Sequence<A>) -> (u128, (ClientId, (u128, A))) {
    (m.seqid, (m.src, (m.workproof, m.content)))
}

impl<A: Wire> Wire for Sequence<A> {
    open spec fn fits(self) -> bool {
        self.content.fits()
    }

    open spec fn wire(self) -> Seq<u8> {
        envelope_fields(self).wire()
    }

    open spec fn parse(bytes: Seq<u8>) -> Parsed<Sequence<A>> {
        match <(u128, (ClientId, (u128, A)))>::parse(bytes) {
            Err(e) => Err(e),
            Ok((f, taken)) => Ok(
                (Sequence { seqid: f.0, src: f.1.0, workproof: f.1.1.0, content: f.1.1.1 }, taken),
            ),
        }
    }

    proof fn lemma_round_trip(self, rest: Seq<u8>) {
        envelope_fields(self).lemma_round_trip(rest);
    }

    proof fn lemma_parse_within(bytes: Seq<u8>) {
        <(u128, (ClientId, (u128, A)))>::lemma_parse_within(bytes);
    }
}

} // verus!
