//! Reading values from bytes.

use crate::bytes::get_le;
use crate::messages::{
    AuthMessage, AuthMessageView, ClientError, ClientId, ClientMessage, ClientMessageView,
    ClientPollReply, ClientPollReplyView, ClientQuery, ClientQueryView, ClientReply,
    ClientReplyView, DelayedError, FullyQualifiedMessage, FullyQualifiedMessageView, Letter,
    Sequence, ServerId, ServerMessage, ServerMessageView,
};
use crate::netproto::format::{
    parse_auth, parse_client_error, parse_client_message, parse_client_poll_reply,
    parse_client_query, parse_client_reply, parse_delayed_error, parse_each, parse_id,
    parse_qualified, parse_raw, parse_server_message, DecodeError, Parsed, Wire,
};
use vstd::prelude::*;
use vstd::slice::{slice_subrange, slice_to_vec};
use vstd::utf8::{encode_utf8, valid_utf8};

verus! {

/// Bytes with a place in them: reading goes on from `pos`.
pub struct Reader {
    pub data: Vec<u8>,
    pub pos: usize,
}

/// The bytes of `data` from `pos` on; none where `pos` is past the end.
pub open spec fn tail(data: Seq<u8>, pos: int) -> Seq<u8> {
    if 0 <= pos <= data.len() {
        data.skip(pos)
    } else {
        Seq::empty()
    }
}

/// Whether `got` is what reading at `pos` owes: the expected value with
/// the place after it, or the expected error.
pub open spec fn reads_at<T: DeepView>(
    data: Seq<u8>,
    pos: usize,
    expected: Parsed<T::V>,
    got: Result<(T, usize), DecodeError>,
) -> bool {
    match expected {
        Ok((value, taken)) => got matches Ok((x, next)) && x.deep_view() == value && next == pos
            + taken && next <= data.len(),
        Err(e) => got matches Err(f) && f == e,
    }
}

/// Whether a reader did what reading owes: on success it handed out the
/// expected value and moved past it, on failure it handed out the expected
/// error and stayed where it was.
pub open spec fn reads<T: DeepView>(
    before: Reader,
    after: Reader,
    expected: Parsed<T::V>,
    got: Result<T, DecodeError>,
) -> bool {
    &&& after.data@ == before.data@
    &&& match expected {
        Ok((value, taken)) => got matches Ok(x) && x.deep_view() == value && after.pos
            == before.pos + taken && after.pos <= after.data@.len(),
        Err(e) => got matches Err(f) && f == e && after.pos == before.pos,
    }
}

impl Reader {
    /// A reader at the start of `data`.
    pub fn new(data: Vec<u8>) -> (rd: Reader)
        ensures
            rd.data@ == data@,
            rd.pos == 0,
            rd.remaining() == data@,
    {
        Reader { data, pos: 0 }
    }

    /// The bytes that are still to be read.
    pub open spec fn remaining(&self) -> Seq<u8> {
        tail(self.data@, self.pos as int)
    }

    /// The number of bytes read so far.
    pub fn position(&self) -> (pos: usize)
        ensures
            pos == self.pos,
    {
        self.pos
    }

    /// The bytes, read or not.
    pub fn into_inner(self) -> (data: Vec<u8>)
        ensures
            data@ == self.data@,
    {
        self.data
    }

    /// Moves to where a successful read ended.
    fn settle<T: DeepView>(&mut self, expected: Ghost<Parsed<T::V>>, got: Result<
        (T, usize),
        DecodeError,
    >) -> (result: Result<T, DecodeError>)
        requires
            reads_at(old(self).data@, old(self).pos, expected@, got),
        ensures
            reads(*old(self), *final(self), expected@, result),
    {
        match got {
            Ok((value, next)) => {
                self.pos = next;
                Ok(value)
            },
            Err(e) => Err(e),
        }
    }
}

/// After `taken` bytes the rest is the tail from there.
pub proof fn lemma_tail_skip(data: Seq<u8>, pos: int, taken: int)
    requires
        0 <= pos,
        0 <= taken,
        pos + taken <= data.len(),
    ensures
        tail(data, pos).skip(taken) == tail(data, pos + taken),
        tail(data, pos).len() == data.len() - pos,
        pos < data.len() ==> tail(data, pos)[0] == data[pos],
{
    assert(tail(data, pos).skip(taken) =~= tail(data, pos + taken));
}

/// Builds a text with `String::from_utf8` of the standard library: the
/// call succeeds exactly on well-formed UTF-8, and the text it makes has
/// the given bytes as its encoding.
#[verifier::external_body]
fn text_from_utf8(bytes: Vec<u8>) -> (text: Option<String>)
    ensures
        text is Some <==> valid_utf8(bytes@),
        text matches Some(s) ==> encode_utf8(s@) == bytes@,
{
    String::from_utf8(bytes).ok()
}

fn read_u128(data: &[u8], pos: usize) -> (r: Result<(u128, usize), DecodeError>)
    ensures
        reads_at(data@, pos, u128::parse(tail(data@, pos as int)), r),
{
    if pos >= data.len() {
        return Err(DecodeError::ShortRead);
    }
    proof {
        lemma_tail_skip(data@, pos as int, 0);
    }
    let tag = data[pos];
    if tag < 251 {
        return Ok((tag as u128, pos + 1));
    }
    if tag == 255 {
        return Err(DecodeError::InvalidTag);
    }
    let width: usize = if tag == 251 {
        2
    } else if tag == 252 {
        4
    } else if tag == 253 {
        8
    } else {
        16
    };
    if data.len() - pos - 1 < width {
        return Err(DecodeError::ShortRead);
    }
    let value = get_le(data, pos + 1, width);
    assert(tail(data@, pos as int).subrange(1, 1 + width) =~= data@.subrange(
        pos + 1,
        pos + 1 + width,
    ));
    Ok((value, pos + 1 + width))
}

fn read_id(data: &[u8], pos: usize) -> (r: Result<(u128, usize), DecodeError>)
    ensures
        reads_at(data@, pos, parse_id(tail(data@, pos as int)), r),
{
    if pos >= data.len() {
        return Err(DecodeError::ShortRead);
    }
    proof {
        lemma_tail_skip(data@, pos as int, 0);
    }
    if data[pos] != 16 {
        return Err(DecodeError::LengthOverflow);
    }
    if data.len() - pos < 17 {
        return Err(DecodeError::ShortRead);
    }
    let value = get_le(data, pos + 1, 16);
    assert(tail(data@, pos as int).subrange(1, 17) =~= data@.subrange(pos + 1, pos + 17));
    Ok((value, pos + 17))
}

fn read_clientid(data: &[u8], pos: usize) -> (r: Result<(ClientId, usize), DecodeError>)
    ensures
        reads_at(data@, pos, ClientId::parse(tail(data@, pos as int)), r),
{
    match read_id(data, pos) {
        Ok((value, next)) => Ok((ClientId(value), next)),
        Err(e) => Err(e),
    }
}

fn read_serverid(data: &[u8], pos: usize) -> (r: Result<(ServerId, usize), DecodeError>)
    ensures
        reads_at(data@, pos, ServerId::parse(tail(data@, pos as int)), r),
{
    match read_id(data, pos) {
        Ok((value, next)) => Ok((ServerId(value), next)),
        Err(e) => Err(e),
    }
}

fn read_string(data: &[u8], pos: usize) -> (r: Result<(String, usize), DecodeError>)
    ensures
        reads_at(data@, pos, Seq::<char>::parse(tail(data@, pos as int)), r),
{
    let (len, next) = match read_u128(data, pos) {
        Ok(found) => found,
        Err(e) => {
            return Err(e);
        },
    };
    if len > usize::MAX as u128 {
        return Err(DecodeError::LengthOverflow);
    }
    let len = len as usize;
    proof {
        lemma_tail_skip(data@, pos as int, next - pos);
    }
    if data.len() - next < len {
        return Err(DecodeError::ShortRead);
    }
    let body = slice_to_vec(slice_subrange(data, next, next + len));
    assert(tail(data@, pos as int).subrange(next - pos, next - pos + len) =~= body@);
    match text_from_utf8(body) {
        Some(text) => {
            proof {
                vstd::utf8::encode_utf8_decode_utf8(text@);
            }
            Ok((text, next + len))
        },
        None => Err(DecodeError::InvalidUtf8),
    }
}


/// What is owed once `items` were read in `taken` bytes and `rest` is what
/// reading the others gives.
pub open spec fn glue<V>(items: Seq<V>, taken: int, rest: Parsed<Seq<V>>) -> Parsed<Seq<V>> {
    match rest {
        Err(e) => Err(e),
        Ok((others, more)) => Ok((items + others, (taken + more) as nat)),
    }
}

/// Reads `count` values, each with `one`.
fn read_each<T: DeepView, F>(data: &[u8], pos: usize, count: u128, one: F) -> (r: Result<
    (Vec<T>, usize),
    DecodeError,
>) where F: Fn(&[u8], usize) -> Result<(T, usize), DecodeError>, T::V: Wire
    requires
        pos <= data@.len(),
        forall|d: &[u8], p: usize| call_requires(one, (d, p)),
        forall|d: &[u8], p: usize, out: Result<(T, usize), DecodeError>|
            #[trigger] call_ensures(one, (d, p), out) ==> reads_at(
                d@,
                p,
                <T::V as Wire>::parse(tail(d@, p as int)),
                out,
            ),
    ensures
        reads_at(data@, pos, parse_each::<T::V>(tail(data@, pos as int), count as nat), r),
{
    let mut items: Vec<T> = Vec::new();
    let mut at: usize = pos;
    let mut done: u128 = 0;
    let ghost whole = parse_each::<T::V>(tail(data@, pos as int), count as nat);
    assert(items.deep_view() =~= Seq::empty());
    assert(glue(items.deep_view(), 0, whole) == whole) by {
        if let Ok((others, more)) = whole {
            assert(Seq::<T::V>::empty() + others =~= others);
        }
    }
    while done < count
        invariant
            done <= count,
            pos <= at <= data@.len(),
            forall|d: &[u8], p: usize| call_requires(one, (d, p)),
            forall|d: &[u8], p: usize, out: Result<(T, usize), DecodeError>|
                #[trigger] call_ensures(one, (d, p), out) ==> reads_at(
                    d@,
                    p,
                    <T::V as Wire>::parse(tail(d@, p as int)),
                    out,
                ),
            whole == parse_each::<T::V>(tail(data@, pos as int), count as nat),
            whole == glue(
                items.deep_view(),
                at - pos,
                parse_each::<T::V>(tail(data@, at as int), (count - done) as nat),
            ),
        decreases count - done,
    {
        let ghost before = items.deep_view();
        let got = one(data, at);
        assert(reads_at(data@, at, <T::V as Wire>::parse(tail(data@, at as int)), got));
        match got {
            Err(e) => {
                return Err(e);
            },
            Ok((item, next)) => {
                proof {
                    lemma_tail_skip(data@, at as int, next - at);
                    let rest = parse_each::<T::V>(
                        tail(data@, next as int),
                        (count - done - 1) as nat,
                    );
                    if let Ok((others, more)) = rest {
                        assert(before + (seq![item.deep_view()] + others) =~= before.push(
                            item.deep_view(),
                        ) + others);
                    }
                }
                items.push(item);
                assert(items.deep_view() =~= before.push(item.deep_view()));
                at = next;
                done = done + 1;
            },
        }
    }
    assert(items.deep_view() + Seq::<T::V>::empty() =~= items.deep_view());
    Ok((items, at))
}

fn read_home(data: &[u8], pos: usize) -> (r: Result<((ClientId, ServerId), usize), DecodeError>)
    ensures
        reads_at(data@, pos, <(ClientId, ServerId)>::parse(tail(data@, pos as int)), r),
{
    let (client, next) = match read_clientid(data, pos) {
        Ok(found) => found,
        Err(e) => {
            return Err(e);
        },
    };
    proof {
        lemma_tail_skip(data@, pos as int, next - pos);
    }
    match read_serverid(data, next) {
        Ok((server, end)) => Ok(((client, server), end)),
        Err(e) => Err(e),
    }
}

fn read_letter(data: &[u8], pos: usize) -> (r: Result<((ClientId, String), usize), DecodeError>)
    ensures
        reads_at(data@, pos, <(ClientId, Seq<char>)>::parse(tail(data@, pos as int)), r),
{
    let (client, next) = match read_clientid(data, pos) {
        Ok(found) => found,
        Err(e) => {
            return Err(e);
        },
    };
    proof {
        lemma_tail_skip(data@, pos as int, next - pos);
    }
    match read_string(data, next) {
        Ok((text, end)) => Ok(((client, text), end)),
        Err(e) => Err(e),
    }
}

/// Reads a collection: the number of its items, then each with `one`.
fn read_list<T: DeepView, F>(data: &[u8], pos: usize, one: F) -> (r: Result<
    (Vec<T>, usize),
    DecodeError,
>) where F: Fn(&[u8], usize) -> Result<(T, usize), DecodeError>, T::V: Wire
    requires
        forall|d: &[u8], p: usize| call_requires(one, (d, p)),
        forall|d: &[u8], p: usize, out: Result<(T, usize), DecodeError>|
            #[trigger] call_ensures(one, (d, p), out) ==> reads_at(
                d@,
                p,
                <T::V as Wire>::parse(tail(d@, p as int)),
                out,
            ),
    ensures
        reads_at(data@, pos, Seq::<T::V>::parse(tail(data@, pos as int)), r),
{
    let (count, next) = match read_u128(data, pos) {
        Ok(found) => found,
        Err(e) => {
            return Err(e);
        },
    };
    proof {
        lemma_tail_skip(data@, pos as int, next - pos);
    }
    read_each(data, next, count, one)
}

/// Reads eight bytes as they are.
fn read_nonce(data: &[u8], pos: usize) -> (r: Result<([u8; 8], usize), DecodeError>)
    requires
        pos <= data@.len(),
    ensures
        match parse_raw(tail(data@, pos as int), 8) {
            Ok((bytes, taken)) => r matches Ok((array, next)) && array@ == bytes && next == pos
                + taken && next <= data@.len(),
            Err(e) => r matches Err(f) && f == e,
        },
{
    if data.len() - pos < 8 {
        return Err(DecodeError::ShortRead);
    }
    proof {
        lemma_tail_skip(data@, pos as int, 0);
    }
    let mut array = [0u8; 8];
    let mut i: usize = 0;
    let len = data.len();
    while i < 8
        invariant
            i <= 8,
            pos + 8 <= data@.len() == len,
            array@.len() == 8,
            forall|j: int| 0 <= j < i ==> array@[j] == data@[pos + j],
        decreases 8 - i,
    {
        array[i] = data[pos + i];
        i = i + 1;
    }
    assert(array@ =~= tail(data@, pos as int).take(8));
    Ok((array, pos + 8))
}

/// Reads sixteen bytes as they are.
fn read_response(data: &[u8], pos: usize) -> (r: Result<([u8; 16], usize), DecodeError>)
    requires
        pos <= data@.len(),
    ensures
        match parse_raw(tail(data@, pos as int), 16) {
            Ok((bytes, taken)) => r matches Ok((array, next)) && array@ == bytes && next == pos
                + taken && next <= data@.len(),
            Err(e) => r matches Err(f) && f == e,
        },
{
    if data.len() - pos < 16 {
        return Err(DecodeError::ShortRead);
    }
    proof {
        lemma_tail_skip(data@, pos as int, 0);
    }
    let mut array = [0u8; 16];
    let mut i: usize = 0;
    let len = data.len();
    while i < 16
        invariant
            i <= 16,
            pos + 16 <= data@.len() == len,
            array@.len() == 16,
            forall|j: int| 0 <= j < i ==> array@[j] == data@[pos + j],
        decreases 16 - i,
    {
        array[i] = data[pos + i];
        i = i + 1;
    }
    assert(array@ =~= tail(data@, pos as int).take(16));
    Ok((array, pos + 16))
}

fn read_auth(data: &[u8], pos: usize) -> (r: Result<(AuthMessage, usize), DecodeError>)
    ensures
        reads_at(data@, pos, AuthMessageView::parse(tail(data@, pos as int)), r),
{
    proof {
        reveal(parse_auth);
    }
    if pos >= data.len() {
        return Err(DecodeError::ShortRead);
    }
    proof {
        lemma_tail_skip(data@, pos as int, 1);
    }
    let tag = data[pos];
    if tag == 0 {
        let (user, next) = match read_clientid(data, pos + 1) {
            Ok(found) => found,
            Err(e) => {
                return Err(e);
            },
        };
        proof {
            lemma_tail_skip(data@, pos + 1, next - pos - 1);
            lemma_tail_skip(data@, pos as int, next - pos);
        }
        match read_nonce(data, next) {
            Ok((nonce, end)) => Ok((AuthMessage::Hello { user, nonce }, end)),
            Err(e) => Err(e),
        }
    } else if tag == 1 {
        let (server, next) = match read_serverid(data, pos + 1) {
            Ok(found) => found,
            Err(e) => {
                return Err(e);
            },
        };
        proof {
            lemma_tail_skip(data@, pos + 1, next - pos - 1);
            lemma_tail_skip(data@, pos as int, next - pos);
        }
        match read_nonce(data, next) {
            Ok((nonce, end)) => Ok((AuthMessage::Nonce { server, nonce }, end)),
            Err(e) => Err(e),
        }
    } else if tag == 2 {
        match read_response(data, pos + 1) {
            Ok((response, end)) => Ok((AuthMessage::Auth { response }, end)),
            Err(e) => Err(e),
        }
    } else {
        Err(DecodeError::InvalidTag)
    }
}

/// Reads the destinations and the content of a text for several.
fn read_multicast(data: &[u8], pos: usize) -> (r: Result<
    ((Vec<ClientId>, String), usize),
    DecodeError,
>)
    ensures
        reads_at(data@, pos, <(Seq<ClientId>, Seq<char>)>::parse(tail(data@, pos as int)), r),
{
    let (dest, next) = match read_list(data, pos, read_clientid) {
        Ok(found) => found,
        Err(e) => {
            return Err(e);
        },
    };
    proof {
        lemma_tail_skip(data@, pos as int, next - pos);
    }
    match read_string(data, next) {
        Ok((content, end)) => Ok(((dest, content), end)),
        Err(e) => Err(e),
    }
}

fn read_client(data: &[u8], pos: usize) -> (r: Result<(ClientMessage, usize), DecodeError>)
    ensures
        reads_at(data@, pos, ClientMessageView::parse(tail(data@, pos as int)), r),
{
    proof {
        reveal(parse_client_message);
    }
    if pos >= data.len() {
        return Err(DecodeError::ShortRead);
    }
    proof {
        lemma_tail_skip(data@, pos as int, 1);
    }
    let tag = data[pos];
    if tag == 0 {
        match read_letter(data, pos + 1) {
            Ok(((dest, content), end)) => Ok((ClientMessage::Text { dest, content }, end)),
            Err(e) => Err(e),
        }
    } else if tag == 1 {
        match read_multicast(data, pos + 1) {
            Ok(((dest, content), end)) => {
                assert(dest.deep_view() =~= dest@);
                Ok((ClientMessage::MText { dest, content }, end))
            },
            Err(e) => Err(e),
        }
    } else {
        Err(DecodeError::InvalidTag)
    }
}

fn read_client_query(data: &[u8], pos: usize) -> (r: Result<(ClientQuery, usize), DecodeError>)
    ensures
        reads_at(data@, pos, ClientQueryView::parse(tail(data@, pos as int)), r),
{
    proof {
        reveal(parse_client_query);
    }
    if pos >= data.len() {
        return Err(DecodeError::ShortRead);
    }
    proof {
        lemma_tail_skip(data@, pos as int, 1);
    }
    let tag = data[pos];
    if tag == 0 {
        match read_string(data, pos + 1) {
            Ok((name, end)) => Ok((ClientQuery::Register(name), end)),
            Err(e) => Err(e),
        }
    } else if tag == 1 {
        match read_client(data, pos + 1) {
            Ok((message, end)) => Ok((ClientQuery::Message(message), end)),
            Err(e) => Err(e),
        }
    } else if tag == 2 {
        Ok((ClientQuery::Poll, pos + 1))
    } else if tag == 3 {
        Ok((ClientQuery::ListUsers, pos + 1))
    } else {
        Err(DecodeError::InvalidTag)
    }
}

/// Reads the destinations and the content of a fully qualified message.
fn read_qualified_tail(data: &[u8], pos: usize) -> (r: Result<
    ((Vec<(ClientId, ServerId)>, String), usize),
    DecodeError,
>)
    ensures
        reads_at(
            data@,
            pos,
            <(Seq<(ClientId, ServerId)>, Seq<char>)>::parse(tail(data@, pos as int)),
            r,
        ),
{
    let (dsts, next) = match read_list(data, pos, read_home) {
        Ok(found) => found,
        Err(e) => {
            return Err(e);
        },
    };
    proof {
        lemma_tail_skip(data@, pos as int, next - pos);
    }
    match read_string(data, next) {
        Ok((content, end)) => Ok(((dsts, content), end)),
        Err(e) => Err(e),
    }
}

fn read_qualified(data: &[u8], pos: usize) -> (r: Result<
    (FullyQualifiedMessage, usize),
    DecodeError,
>)
    ensures
        reads_at(data@, pos, FullyQualifiedMessageView::parse(tail(data@, pos as int)), r),
{
    proof {
        reveal(parse_qualified);
    }
    let (src, at_srcsrv) = match read_clientid(data, pos) {
        Ok(found) => found,
        Err(e) => {
            return Err(e);
        },
    };
    proof {
        lemma_tail_skip(data@, pos as int, at_srcsrv - pos);
    }
    let (srcsrv, at_dsts) = match read_serverid(data, at_srcsrv) {
        Ok(found) => found,
        Err(e) => {
            return Err(e);
        },
    };
    proof {
        lemma_tail_skip(data@, at_srcsrv as int, at_dsts - at_srcsrv);
    }
    match read_qualified_tail(data, at_dsts) {
        Ok(((dsts, content), end)) => {
            assert(dsts.deep_view() =~= dsts@);
            Ok((FullyQualifiedMessage { src, srcsrv, dsts, content }, end))
        },
        Err(e) => Err(e),
    }
}

/// Reads the route and the clients of an announce.
fn read_announce(data: &[u8], pos: usize) -> (r: Result<
    ((Vec<ServerId>, Vec<(ClientId, String)>), usize),
    DecodeError,
>)
    ensures
        reads_at(data@, pos, <(Seq<ServerId>, Seq<Letter>)>::parse(tail(data@, pos as int)), r),
{
    let (route, next) = match read_list(data, pos, read_serverid) {
        Ok(found) => found,
        Err(e) => {
            return Err(e);
        },
    };
    proof {
        lemma_tail_skip(data@, pos as int, next - pos);
    }
    match read_list(data, next, read_letter) {
        Ok((clients, end)) => Ok(((route, clients), end)),
        Err(e) => Err(e),
    }
}

fn read_server(data: &[u8], pos: usize) -> (r: Result<(ServerMessage, usize), DecodeError>)
    ensures
        reads_at(data@, pos, ServerMessageView::parse(tail(data@, pos as int)), r),
{
    proof {
        reveal(parse_server_message);
    }
    if pos >= data.len() {
        return Err(DecodeError::ShortRead);
    }
    proof {
        lemma_tail_skip(data@, pos as int, 1);
    }
    let tag = data[pos];
    if tag == 0 {
        match read_announce(data, pos + 1) {
            Ok(((route, clients), end)) => {
                assert(route.deep_view() =~= route@);
                Ok((ServerMessage::Announce { route, clients }, end))
            },
            Err(e) => Err(e),
        }
    } else if tag == 1 {
        match read_qualified(data, pos + 1) {
            Ok((message, end)) => Ok((ServerMessage::Message(message), end)),
            Err(e) => Err(e),
        }
    } else {
        Err(DecodeError::InvalidTag)
    }
}

fn read_client_error(data: &[u8], pos: usize) -> (r: Result<(ClientError, usize), DecodeError>)
    ensures
        reads_at(data@, pos, ClientError::parse(tail(data@, pos as int)), r),
{
    proof {
        reveal(parse_client_error);
    }
    if pos >= data.len() {
        return Err(DecodeError::ShortRead);
    }
    proof {
        lemma_tail_skip(data@, pos as int, 1);
    }
    let tag = data[pos];
    if tag == 0 {
        Ok((ClientError::WorkProofError, pos + 1))
    } else if tag == 1 {
        Ok((ClientError::UnknownClient, pos + 1))
    } else if tag == 2 {
        Ok((ClientError::SequenceError, pos + 1))
    } else if tag == 3 {
        match read_clientid(data, pos + 1) {
            Ok((client, end)) => Ok((ClientError::BoxFull(client), end)),
            Err(e) => Err(e),
        }
    } else if tag == 4 {
        Ok((ClientError::InternalError, pos + 1))
    } else {
        Err(DecodeError::InvalidTag)
    }
}

/// Reads the next hop and the message of a transfer.
fn read_transfer(data: &[u8], pos: usize) -> (r: Result<
    ((ServerId, ServerMessage), usize),
    DecodeError,
>)
    ensures
        reads_at(data@, pos, <(ServerId, ServerMessageView)>::parse(tail(data@, pos as int)), r),
{
    let (hop, next) = match read_serverid(data, pos) {
        Ok(found) => found,
        Err(e) => {
            return Err(e);
        },
    };
    proof {
        lemma_tail_skip(data@, pos as int, next - pos);
    }
    match read_server(data, next) {
        Ok((message, end)) => Ok(((hop, message), end)),
        Err(e) => Err(e),
    }
}

fn read_client_reply(data: &[u8], pos: usize) -> (r: Result<(ClientReply, usize), DecodeError>)
    ensures
        reads_at(data@, pos, ClientReplyView::parse(tail(data@, pos as int)), r),
{
    proof {
        reveal(parse_client_reply);
    }
    if pos >= data.len() {
        return Err(DecodeError::ShortRead);
    }
    proof {
        lemma_tail_skip(data@, pos as int, 1);
    }
    let tag = data[pos];
    if tag == 0 {
        Ok((ClientReply::Delivered, pos + 1))
    } else if tag == 1 {
        match read_client_error(data, pos + 1) {
            Ok((e, end)) => Ok((ClientReply::Error(e), end)),
            Err(e) => Err(e),
        }
    } else if tag == 2 {
        Ok((ClientReply::Delayed, pos + 1))
    } else if tag == 3 {
        match read_transfer(data, pos + 1) {
            Ok(((hop, message), end)) => Ok((ClientReply::Transfer(hop, message), end)),
            Err(e) => Err(e),
        }
    } else {
        Err(DecodeError::InvalidTag)
    }
}

fn read_client_poll_reply(data: &[u8], pos: usize) -> (r: Result<
    (ClientPollReply, usize),
    DecodeError,
>)
    ensures
        reads_at(data@, pos, ClientPollReplyView::parse(tail(data@, pos as int)), r),
{
    proof {
        reveal(parse_client_poll_reply);
        reveal(parse_delayed_error);
    }
    if pos >= data.len() {
        return Err(DecodeError::ShortRead);
    }
    proof {
        lemma_tail_skip(data@, pos as int, 1);
    }
    let tag = data[pos];
    if tag == 0 {
        match read_letter(data, pos + 1) {
            Ok(((src, content), end)) => Ok((ClientPollReply::Message { src, content }, end)),
            Err(e) => Err(e),
        }
    } else if tag == 1 {
        if pos + 1 >= data.len() {
            return Err(DecodeError::ShortRead);
        }
        proof {
            lemma_tail_skip(data@, pos as int, 2);
            lemma_tail_skip(data@, pos + 1, 1);
        }
        if data[pos + 1] != 0 {
            return Err(DecodeError::InvalidTag);
        }
        match read_clientid(data, pos + 2) {
            Ok((client, end)) => Ok(
                (ClientPollReply::DelayedError(DelayedError::UnknownRecipient(client)), end),
            ),
            Err(e) => Err(e),
        }
    } else if tag == 2 {
        Ok((ClientPollReply::Nothing, pos + 1))
    } else {
        Err(DecodeError::InvalidTag)
    }
}

/// Reads a variable-width integer.
pub fn u128(rd: &mut Reader) -> (r: Result<u128, DecodeError>)
    ensures
        reads(*old(rd), *final(rd), u128::parse(old(rd).remaining()), r),
{
    let got = read_u128(rd.data.as_slice(), rd.pos);
    rd.settle(Ghost(u128::parse(rd.remaining())), got)
}

/// Reads a client's identifier.
pub fn clientid(rd: &mut Reader) -> (r: Result<ClientId, DecodeError>)
    ensures
        reads(*old(rd), *final(rd), ClientId::parse(old(rd).remaining()), r),
{
    let got = read_clientid(rd.data.as_slice(), rd.pos);
    rd.settle(Ghost(ClientId::parse(rd.remaining())), got)
}

/// Reads a server's identifier.
pub fn serverid(rd: &mut Reader) -> (r: Result<ServerId, DecodeError>)
    ensures
        reads(*old(rd), *final(rd), ServerId::parse(old(rd).remaining()), r),
{
    let got = read_serverid(rd.data.as_slice(), rd.pos);
    rd.settle(Ghost(ServerId::parse(rd.remaining())), got)
}

/// Reads a text.
pub fn string(rd: &mut Reader) -> (r: Result<String, DecodeError>)
    ensures
        reads(*old(rd), *final(rd), Seq::<char>::parse(old(rd).remaining()), r),
{
    let got = read_string(rd.data.as_slice(), rd.pos);
    rd.settle(Ghost(Seq::<char>::parse(rd.remaining())), got)
}

/// Reads a message of the authentication handshake.
pub fn auth(rd: &mut Reader) -> (r: Result<AuthMessage, DecodeError>)
    ensures
        reads(*old(rd), *final(rd), AuthMessageView::parse(old(rd).remaining()), r),
{
    let got = read_auth(rd.data.as_slice(), rd.pos);
    rd.settle(Ghost(AuthMessageView::parse(rd.remaining())), got)
}

/// Reads a client's message.
pub fn client(rd: &mut Reader) -> (r: Result<ClientMessage, DecodeError>)
    ensures
        reads(*old(rd), *final(rd), ClientMessageView::parse(old(rd).remaining()), r),
{
    let got = read_client(rd.data.as_slice(), rd.pos);
    rd.settle(Ghost(ClientMessageView::parse(rd.remaining())), got)
}

/// Reads the replies to a client's message.
pub fn client_replies(rd: &mut Reader) -> (r: Result<Vec<ClientReply>, DecodeError>)
    ensures
        reads(*old(rd), *final(rd), Seq::<ClientReplyView>::parse(old(rd).remaining()), r),
{
    let got = read_list(rd.data.as_slice(), rd.pos, read_client_reply);
    rd.settle(Ghost(Seq::<ClientReplyView>::parse(rd.remaining())), got)
}

/// Reads the reply to a poll.
pub fn client_poll_reply(rd: &mut Reader) -> (r: Result<ClientPollReply, DecodeError>)
    ensures
        reads(*old(rd), *final(rd), ClientPollReplyView::parse(old(rd).remaining()), r),
{
    let got = read_client_poll_reply(rd.data.as_slice(), rd.pos);
    rd.settle(Ghost(ClientPollReplyView::parse(rd.remaining())), got)
}

/// Reads a message from another server.
pub fn server(rd: &mut Reader) -> (r: Result<ServerMessage, DecodeError>)
    ensures
        reads(*old(rd), *final(rd), ServerMessageView::parse(old(rd).remaining()), r),
{
    let got = read_server(rd.data.as_slice(), rd.pos);
    rd.settle(Ghost(ServerMessageView::parse(rd.remaining())), got)
}

/// Reads a list of users: each client with its name.
pub fn userlist(rd: &mut Reader) -> (r: Result<Vec<(ClientId, String)>, DecodeError>)
    ensures
        reads(*old(rd), *final(rd), Seq::<Letter>::parse(old(rd).remaining()), r),
{
    let got = read_list(rd.data.as_slice(), rd.pos, read_letter);
    rd.settle(Ghost(Seq::<Letter>::parse(rd.remaining())), got)
}

/// Reads a client's query.
pub fn client_query(rd: &mut Reader) -> (r: Result<ClientQuery, DecodeError>)
    ensures
        reads(*old(rd), *final(rd), ClientQueryView::parse(old(rd).remaining()), r),
{
    let got = read_client_query(rd.data.as_slice(), rd.pos);
    rd.settle(Ghost(ClientQueryView::parse(rd.remaining())), got)
}

/// Reads an envelope: the sequence number, the sender and the proof of
/// work, then the content with `d`, which goes on where the proof of work
/// ended. Where `d` fails the reader goes back to where the envelope
/// began.
pub fn sequence<X, DEC>(rd: &mut Reader, d: DEC) -> (r: Result<Sequence<X>, DecodeError>) where
    DEC: FnOnce(&mut Reader) -> Result<X, DecodeError>,

    requires
        forall|r0: &mut Reader| call_requires(d, (r0,)),
    ensures
        match <(u128, (ClientId, u128))>::parse(old(rd).remaining()) {
            Err(e) => {
                &&& r matches Err(f) && f == e
                &&& final(rd).data@ == old(rd).data@
                &&& final(rd).pos == old(rd).pos
            },
            Ok((head, taken)) => (exists|mid: &mut Reader, inner: Result<X, DecodeError>|
                {
                    &&& mid.data@ == old(rd).data@
                    &&& mid.pos == old(rd).pos + taken
                    &&& call_ensures(d, (mid,), inner)
                    &&& final(rd).data@ == final(mid).data@
                    &&& match inner {
                        Ok(content) => final(rd).pos == final(mid).pos && r == Ok::<
                            Sequence<X>,
                            DecodeError,
                        >(
                            (Sequence {
                                seqid: head.0,
                                src: head.1.0,
                                workproof: head.1.1,
                                content,
                            }),
                        ),
                        Err(e) => final(rd).pos == old(rd).pos && r == Err::<
                            Sequence<X>,
                            DecodeError,
                        >(e),
                    }
                }),
        },
{
    let start = rd.pos;
    let (seqid, at_src) = match read_u128(rd.data.as_slice(), start) {
        Ok(found) => found,
        Err(e) => {
            return Err(e);
        },
    };
    proof {
        lemma_tail_skip(rd.data@, start as int, at_src - start);
    }
    let (src, at_proof) = match read_clientid(rd.data.as_slice(), at_src) {
        Ok(found) => found,
        Err(e) => {
            return Err(e);
        },
    };
    proof {
        lemma_tail_skip(rd.data@, at_src as int, at_proof - at_src);
    }
    let (workproof, at_content) = match read_u128(rd.data.as_slice(), at_proof) {
        Ok(found) => found,
        Err(e) => {
            return Err(e);
        },
    };
    rd.pos = at_content;
    match d(rd) {
        Ok(content) => Ok(Sequence { seqid, src, workproof, content }),
        Err(e) => {
            rd.pos = start;
            Err(e)
        },
    }
}

} // verus!
