//! The wire codec for messages.
//!
//! A route is one count byte followed by its addresses; an address is a
//! category byte, an identifier length byte and the identifier bytes; a
//! message is its two routes, a type byte and the body, which runs to the end
//! of the buffer. The codec is lossless: decoding an encoding yields the
//! original message and consumes all bytes.

use vstd::prelude::*;

use crate::error::ChannelError;
use crate::message::{
    AddrView, Address, AddressType, Message, MessageType, MessageView, Route, RouterAddrView,
    RouterAddress,
};

verus! {

/// The wire byte of a message type.
pub open spec fn type_byte(t: MessageType) -> u8 {
    match t {
        MessageType::Empty => 0,
        MessageType::Payload => 1,
        MessageType::KeyAgreementM1 => 2,
        MessageType::KeyAgreementM2 => 3,
        MessageType::KeyAgreementM3 => 4,
    }
}

/// The message type a wire byte stands for.
pub open spec fn type_of_byte(b: u8) -> Option<MessageType> {
    if b == 0 {
        Some(MessageType::Empty)
    } else if b == 1 {
        Some(MessageType::Payload)
    } else if b == 2 {
        Some(MessageType::KeyAgreementM1)
    } else if b == 3 {
        Some(MessageType::KeyAgreementM2)
    } else if b == 4 {
        Some(MessageType::KeyAgreementM3)
    } else {
        None
    }
}

/// The wire byte of an address category.
pub open spec fn addr_type_byte(t: AddressType) -> u8 {
    match t {
        AddressType::Channel => 1,
        AddressType::Worker => 2,
    }
}

/// The address category a wire byte stands for.
pub open spec fn addr_type_of_byte(b: u8) -> Option<AddressType> {
    if b == 1 {
        Some(AddressType::Channel)
    } else if b == 2 {
        Some(AddressType::Worker)
    } else {
        None
    }
}

/// The encoding of one route entry.
pub open spec fn enc_addr(a: RouterAddrView) -> Seq<u8> {
    seq![addr_type_byte(a.a_type), a.address.bytes().len() as u8] + a.address.bytes()
}

/// The encoding of a run of route entries, in order.
pub open spec fn enc_addrs(r: Seq<RouterAddrView>) -> Seq<u8>
    decreases r.len(),
{
    if r.len() == 0 {
        seq![]
    } else {
        enc_addr(r[0]) + enc_addrs(r.drop_first())
    }
}

/// The encoding of a route: its length then its entries.
pub open spec fn enc_route(r: Seq<RouterAddrView>) -> Seq<u8> {
    seq![r.len() as u8] + enc_addrs(r)
}

/// The encoding of a whole message.
pub open spec fn enc_message(m: MessageView) -> Seq<u8> {
    enc_route(m.onward_route) + enc_route(m.return_route) + seq![type_byte(m.message_type)]
        + m.message_body
}

/// A route that the wire format can carry: at most 255 entries, each
/// well-formed.
pub open spec fn route_wf(r: Seq<RouterAddrView>) -> bool {
    &&& r.len() <= 255
    &&& forall|i: int| 0 <= i < r.len() ==> #[trigger] r[i].wf()
}

/// A message that the wire format can carry.
pub open spec fn message_wf(m: MessageView) -> bool {
    route_wf(m.onward_route) && route_wf(m.return_route)
}

/// Parses one route entry from the front of `b`: the entry and the bytes
/// consumed.
pub open spec fn dec_addr(b: Seq<u8>) -> Option<(RouterAddrView, int)> {
    if b.len() < 2 {
        None
    } else {
        match addr_type_of_byte(b[0]) {
            Option::None => None,
            Some(t) => {
                let len = b[1] as int;
                if b.len() < 2 + len {
                    None
                } else {
                    let bytes = b.subrange(2, 2 + len);
                    let a = match t {
                        AddressType::Channel => AddrView::Channel(bytes),
                        AddressType::Worker => AddrView::Worker(bytes),
                    };
                    Some((RouterAddrView { a_type: t, address: a }, 2 + len))
                }
            },
        }
    }
}

/// Parses `count` route entries from the front of `b`.
pub open spec fn dec_addrs(b: Seq<u8>, count: nat) -> Option<(Seq<RouterAddrView>, int)>
    decreases count,
{
    if count == 0 {
        Some((seq![], 0))
    } else {
        match dec_addr(b) {
            Option::None => None,
            Some((a, n)) => match dec_addrs(b.skip(n), (count - 1) as nat) {
                Option::None => None,
                Some((rest, m)) => Some((seq![a] + rest, n + m)),
            },
        }
    }
}

/// Parses a route from the front of `b`.
pub open spec fn dec_route(b: Seq<u8>) -> Option<(Seq<RouterAddrView>, int)> {
    if b.len() < 1 {
        None
    } else {
        match dec_addrs(b.skip(1), b[0] as nat) {
            Option::None => None,
            Some((r, n)) => Some((r, 1 + n)),
        }
    }
}

/// Parses a whole message; the body is everything after the type byte.
pub open spec fn dec_message(b: Seq<u8>) -> Option<MessageView> {
    match dec_route(b) {
        Option::None => None,
        Some((onward, n1)) => match dec_route(b.skip(n1)) {
            Option::None => None,
            Some((ret, n2)) => {
                let rest = b.skip(n1 + n2);
                if rest.len() < 1 {
                    None
                } else {
                    match type_of_byte(rest[0]) {
                        Option::None => None,
                        Some(t) => Some(
                            MessageView {
                                onward_route: onward,
                                return_route: ret,
                                message_type: t,
                                message_body: rest.skip(1),
                            },
                        ),
                    }
                }
            },
        },
    }
}

/// Parsing an encoded route entry yields the entry back, whatever follows it.
proof fn lemma_dec_addr(a: RouterAddrView, tail: Seq<u8>)
    requires
        a.wf(),
    ensures
        dec_addr(enc_addr(a) + tail) == Some((a, enc_addr(a).len() as int)),
{
    let b = enc_addr(a) + tail;
    let len = a.address.bytes().len() as int;
    assert(b[0] == addr_type_byte(a.a_type));
    assert(b[1] == len as u8);
    assert(addr_type_of_byte(addr_type_byte(a.a_type)) == Some(a.a_type));
    assert(b.subrange(2, 2 + len) =~= a.address.bytes());
    assert(a.a_type == a.address.kind());
    let parsed = dec_addr(b)->Some_0.0;
    assert(parsed.address =~= a.address) by {
        match a.address {
            AddrView::Channel(_) => {},
            AddrView::Worker(_) => {},
        }
    }
}

/// Parsing an encoded run of route entries yields the run back, whatever
/// follows it.
proof fn lemma_dec_addrs(r: Seq<RouterAddrView>, tail: Seq<u8>)
    requires
        forall|i: int| 0 <= i < r.len() ==> #[trigger] r[i].wf(),
    ensures
        dec_addrs(enc_addrs(r) + tail, r.len()) == Some((r, enc_addrs(r).len() as int)),
    decreases r.len(),
{
    if r.len() == 0 {
        assert(enc_addrs(r) + tail =~= tail);
        assert(dec_addrs(tail, 0) == Some((Seq::<RouterAddrView>::empty(), 0int)));
        assert(r =~= Seq::<RouterAddrView>::empty());
    } else {
        let a = r[0];
        let rest = r.drop_first();
        let b = enc_addrs(r) + tail;
        assert(b =~= enc_addr(a) + (enc_addrs(rest) + tail));
        lemma_dec_addr(a, enc_addrs(rest) + tail);
        let n = enc_addr(a).len() as int;
        assert(b.skip(n) =~= enc_addrs(rest) + tail);
        lemma_dec_addrs(rest, tail);
        assert(seq![a] + rest =~= r);
    }
}

/// Parsing an encoded route yields the route back, whatever follows it.
proof fn lemma_dec_route(r: Seq<RouterAddrView>, tail: Seq<u8>)
    requires
        route_wf(r),
    ensures
        dec_route(enc_route(r) + tail) == Some((r, enc_route(r).len() as int)),
{
    let b = enc_route(r) + tail;
    assert(b[0] == r.len() as u8);
    assert(b[0] as nat == r.len());
    assert(b.skip(1) =~= enc_addrs(r) + tail);
    lemma_dec_addrs(r, tail);
}

/// Round trip: decoding the encoding of a well-formed message yields the
/// message, consuming every byte.
pub proof fn lemma_codec_round_trip(m: MessageView)
    requires
        message_wf(m),
    ensures
        dec_message(enc_message(m)) == Some(m),
{
    let b = enc_message(m);
    let t1 = enc_route(m.return_route) + seq![type_byte(m.message_type)] + m.message_body;
    assert(b =~= enc_route(m.onward_route) + t1);
    lemma_dec_route(m.onward_route, t1);
    let n1 = enc_route(m.onward_route).len() as int;
    let t2 = seq![type_byte(m.message_type)] + m.message_body;
    assert(b.skip(n1) =~= enc_route(m.return_route) + t2);
    lemma_dec_route(m.return_route, t2);
    let n2 = enc_route(m.return_route).len() as int;
    assert(b.skip(n1).skip(n2) =~= t2);
    assert(b.skip(n1 + n2) =~= t2);
    assert(t2[0] == type_byte(m.message_type));
    assert(type_of_byte(type_byte(m.message_type)) == Some(m.message_type));
    assert(t2.skip(1) =~= m.message_body);
    let d = dec_message(b)->Some_0;
    assert(d =~= m);
}

/// Copies `data[start..end]` into a fresh vector.
pub fn copy_range(data: &Vec<u8>, start: usize, end: usize) -> (r: Vec<u8>)
    requires
        start <= end <= data@.len(),
    ensures
        r@ == data@.subrange(start as int, end as int),
{
    let mut r: Vec<u8> = Vec::new();
    let mut i: usize = start;
    while i < end
        invariant
            start <= i <= end <= data@.len(),
            r@.len() == i - start,
            forall|j: int| 0 <= j < r@.len() ==> r@[j] == data@[start + j],
        decreases end - i,
    {
        r.push(data[i]);
        i += 1;
    }
    proof {
        assert(r@ =~= data@.subrange(start as int, end as int));
    }
    r
}

impl Message {
    /// Checks that the message fits the wire format.
    pub fn is_wire_encodable(&self) -> (r: bool)
        ensures
            r == message_wf(self@),
    {
        route_encodable(&self.onward_route) && route_encodable(&self.return_route)
    }

    /// Appends the wire encoding of `m` to `out`. Fails, leaving `out`
    /// untouched, exactly when a route is too long for the format.
    pub fn encode(m: &Message, out: &mut Vec<u8>) -> (r: Result<(), ChannelError>)
        ensures
            match r {
                Ok(()) => message_wf(m@) && final(out)@ == old(out)@ + enc_message(m@),
                Err(e) => !message_wf(m@) && e == ChannelError::CantSend && final(out)@ == old(out)@,
            },
    {
        if !m.is_wire_encodable() {
            return Err(ChannelError::CantSend);
        }
        encode_route(&m.onward_route, out);
        encode_route(&m.return_route, out);
        let tb: u8 = match m.message_type {
            MessageType::Empty => 0,
            MessageType::Payload => 1,
            MessageType::KeyAgreementM1 => 2,
            MessageType::KeyAgreementM2 => 3,
            MessageType::KeyAgreementM3 => 4,
        };
        out.push(tb);
        let mut i: usize = 0;
        while i < m.message_body.len()
            invariant
                0 <= i <= m.message_body@.len(),
                out@ == old(out)@ + enc_route(m@.onward_route) + enc_route(m@.return_route)
                    + seq![type_byte(m@.message_type)] + m.message_body@.subrange(0, i as int),
            decreases m.message_body@.len() - i,
        {
            out.push(m.message_body[i]);
            proof {
                assert(old(out)@ + enc_route(m@.onward_route) + enc_route(m@.return_route)
                    + seq![type_byte(m@.message_type)] + m.message_body@.subrange(0, i + 1) =~= (old(
                    out,
                )@ + enc_route(m@.onward_route) + enc_route(m@.return_route) + seq![
                    type_byte(m@.message_type),
                ] + m.message_body@.subrange(0, i as int)).push(m.message_body@[i as int]));
            }
            i += 1;
        }
        proof {
            assert(m.message_body@.subrange(0, m.message_body@.len() as int) =~= m.message_body@);
            assert(out@ =~= old(out)@ + enc_message(m@));
        }
        Ok(())
    }

    /// Decodes a wire buffer into a message. Fails exactly when the buffer is
    /// not the encoding of any message.
    pub fn decode(data: &Vec<u8>) -> (r: Result<Message, ChannelError>)
        ensures
            match r {
                Ok(m) => dec_message(data@) == Some(m@),
                Err(e) => dec_message(data@) is None && e == ChannelError::RecvError,
            },
    {
        proof {
            assert(data@.skip(0) =~= data@);
        }
        let (onward_route, n1) = match decode_route_at(data, 0) {
            Ok(p) => p,
            Err(e) => {
                return Err(e);
            },
        };
        let (return_route, n2) = match decode_route_at(data, n1) {
            Ok(p) => p,
            Err(e) => {
                proof {
                    assert(data@.skip(0) =~= data@);
                }
                return Err(e);
            },
        };
        proof {
            assert(data@.skip(0) =~= data@);
            assert(data@.skip(n1 as int).skip((n2 - n1) as int) =~= data@.skip(n2 as int));
        }
        if n2 >= data.len() {
            return Err(ChannelError::RecvError);
        }
        let tb = data[n2];
        let message_type = if tb == 0 {
            MessageType::Empty
        } else if tb == 1 {
            MessageType::Payload
        } else if tb == 2 {
            MessageType::KeyAgreementM1
        } else if tb == 3 {
            MessageType::KeyAgreementM2
        } else if tb == 4 {
            MessageType::KeyAgreementM3
        } else {
            return Err(ChannelError::RecvError);
        };
        let message_body = copy_range(data, n2 + 1, data.len());
        proof {
            assert(data@.skip(n2 as int)[0] == data@[n2 as int]);
            assert(message_body@ =~= data@.skip(n2 as int).skip(1));
        }
        Ok(Message { onward_route, return_route, message_type, message_body })
    }
}

/// Checks that a route fits the wire format.
fn route_encodable(r: &Route) -> (b: bool)
    ensures
        b == route_wf(r@),
{
    if r.addresses.len() > 255 {
        return false;
    }
    let mut i: usize = 0;
    while i < r.addresses.len()
        invariant
            0 <= i <= r.addresses@.len(),
            r.addresses@.len() <= 255,
            forall|j: int| 0 <= j < i ==> #[trigger] r@[j].wf(),
        decreases r.addresses@.len() - i,
    {
        let a = &r.addresses[i];
        let kind_ok = match (&a.a_type, &a.address) {
            (AddressType::Channel, Address::ChannelAddress(_)) => true,
            (AddressType::Worker, Address::WorkerAddress(_)) => true,
            _ => false,
        };
        if !kind_ok || a.address.bytes_ref().len() > 255 {
            proof {
                assert(!r@[i as int].wf());
            }
            return false;
        }
        proof {
            assert(r@[i as int].wf());
        }
        i += 1;
    }
    true
}

/// Appends the wire encoding of a route to `out`.
fn encode_route(r: &Route, out: &mut Vec<u8>)
    requires
        route_wf(r@),
    ensures
        final(out)@ == old(out)@ + enc_route(r@),
{
    out.push(r.addresses.len() as u8);
    let mut i: usize = 0;
    proof {
        assert(out@ =~= old(out)@ + seq![r@.len() as u8] + enc_addrs(r@.take(0)));
    }
    while i < r.addresses.len()
        invariant
            0 <= i <= r.addresses@.len(),
            route_wf(r@),
            r@.len() == r.addresses@.len(),
            out@ == old(out)@ + seq![r@.len() as u8] + enc_addrs(r@.take(i as int)),
        decreases r.addresses@.len() - i,
    {
        let a = &r.addresses[i];
        let tb: u8 = match a.a_type {
            AddressType::Channel => 1,
            AddressType::Worker => 2,
        };
        out.push(tb);
        let bytes = a.address.bytes_ref();
        out.push(bytes.len() as u8);
        let mut j: usize = 0;
        while j < bytes.len()
            invariant
                0 <= j <= bytes@.len(),
                bytes@ == r@[i as int].address.bytes(),
                0 <= i < r@.len(),
                tb == addr_type_byte(r@[i as int].a_type),
                r@[i as int].wf(),
                out@ == old(out)@ + seq![r@.len() as u8] + enc_addrs(r@.take(i as int)) + seq![
                    tb,
                    bytes@.len() as u8,
                ] + bytes@.subrange(0, j as int),
            decreases bytes@.len() - j,
        {
            out.push(bytes[j]);
            proof {
                assert(out@ =~= old(out)@ + seq![r@.len() as u8] + enc_addrs(r@.take(i as int))
                    + seq![tb, bytes@.len() as u8] + bytes@.subrange(0, j + 1));
            }
            j += 1;
        }
        proof {
            let rv = r@;
            let ai = rv[i as int];
            assert(bytes@.subrange(0, bytes@.len() as int) =~= ai.address.bytes());
            assert(seq![tb, bytes@.len() as u8] + ai.address.bytes() =~= enc_addr(ai));
            lemma_enc_addrs_snoc(rv, i as int);
            assert(out@ =~= old(out)@ + seq![rv.len() as u8] + enc_addrs(rv.take(i + 1)));
        }
        i += 1;
    }
    proof {
        assert(r@.take(r@.len() as int) =~= r@);
        assert(out@ =~= old(out)@ + enc_route(r@));
    }
}

/// Extending the encoded prefix of a route by one entry appends that entry's
/// encoding.
proof fn lemma_enc_addrs_snoc(r: Seq<RouterAddrView>, i: int)
    requires
        0 <= i < r.len(),
    ensures
        enc_addrs(r.take(i + 1)) == enc_addrs(r.take(i)) + enc_addr(r[i]),
    decreases i,
{
    if i == 0 {
        let s1 = seq![r[0]];
        assert(r.take(1) =~= s1);
        assert(s1.drop_first() =~= Seq::<RouterAddrView>::empty());
        assert(enc_addrs(s1) == enc_addr(r[0]) + enc_addrs(Seq::<RouterAddrView>::empty()));
        assert(r.take(0) =~= Seq::<RouterAddrView>::empty());
        assert(enc_addr(r[0]) + Seq::<u8>::empty() =~= enc_addr(r[0]));
        assert(enc_addrs(r.take(0)) + enc_addr(r[0]) =~= enc_addr(r[0]));
    } else {
        let s = r.drop_first();
        lemma_enc_addrs_snoc(s, i - 1);
        assert(r.take(i + 1)[0] == r[0]);
        assert(r.take(i)[0] == r[0]);
        assert(r.take(i + 1).drop_first() =~= s.take(i));
        assert(r.take(i).drop_first() =~= s.take(i - 1));
        assert(s[i - 1] == r[i]);
        assert(enc_addrs(r.take(i + 1)) == enc_addr(r[0]) + enc_addrs(s.take(i)));
        assert(enc_addrs(r.take(i)) == enc_addr(r[0]) + enc_addrs(s.take(i - 1)));
        assert(enc_addr(r[0]) + (enc_addrs(s.take(i - 1)) + enc_addr(s[i - 1])) =~= (enc_addr(r[0])
            + enc_addrs(s.take(i - 1))) + enc_addr(s[i - 1]));
    }
}

/// Parses the route at byte offset `pos`, returning it with the offset just
/// past it.
fn decode_route_at(data: &Vec<u8>, pos: usize) -> (r: Result<(Route, usize), ChannelError>)
    requires
        pos <= data@.len(),
    ensures
        match r {
            Ok((route, newpos)) => {
                &&& dec_route(data@.skip(pos as int)) == Some((route@, newpos - pos as int))
                &&& pos <= newpos <= data@.len()
            },
            Err(e) => dec_route(data@.skip(pos as int)) is None && e == ChannelError::RecvError,
        },
{
    if pos >= data.len() {
        proof {
            assert(data@.skip(pos as int).len() == 0);
        }
        return Err(ChannelError::RecvError);
    }
    let count = data[pos];
    proof {
        assert(data@.skip(pos as int)[0] == data@[pos as int]);
        assert(data@.skip(pos as int).skip(1) =~= data@.skip(pos + 1));
    }
    match decode_addrs_at(data, pos + 1, count) {
        Ok((addresses, newpos)) => {
            let route = Route { addresses };
            Ok((route, newpos))
        },
        Err(e) => Err(e),
    }
}

/// Parses `count` route entries at byte offset `pos`.
fn decode_addrs_at(data: &Vec<u8>, pos: usize, count: u8) -> (r: Result<
    (Vec<RouterAddress>, usize),
    ChannelError,
>)
    requires
        pos <= data@.len(),
    ensures
        match r {
            Ok((addrs, newpos)) => {
                &&& dec_addrs(data@.skip(pos as int), count as nat) == Some(
                    (addrs@.map_values(|a: RouterAddress| a@), newpos - pos as int),
                )
                &&& pos <= newpos <= data@.len()
            },
            Err(e) => dec_addrs(data@.skip(pos as int), count as nat) is None && e
                == ChannelError::RecvError,
        },
    decreases count,
{
    let ghost b = data@.skip(pos as int);
    if count == 0 {
        proof {
            assert(Seq::<RouterAddress>::empty().map_values(|a: RouterAddress| a@) =~= Seq::<
                RouterAddrView,
            >::empty());
        }
        return Ok((Vec::new(), pos));
    }
    if data.len() - pos < 2 {
        return Err(ChannelError::RecvError);
    }
    let tb = data[pos];
    let len = data[pos + 1] as usize;
    proof {
        assert(b[0] == data@[pos as int]);
        assert(b[1] == data@[pos + 1]);
    }
    let a_type = if tb == 1 {
        AddressType::Channel
    } else if tb == 2 {
        AddressType::Worker
    } else {
        return Err(ChannelError::RecvError);
    };
    if len > data.len() - (pos + 2) {
        proof {
            assert(b.len() < 2 + len);
        }
        return Err(ChannelError::RecvError);
    }
    let bytes = copy_range(data, pos + 2, pos + 2 + len);
    proof {
        assert(bytes@ =~= b.subrange(2, 2 + len));
    }
    let address = match a_type {
        AddressType::Channel => Address::ChannelAddress(bytes),
        AddressType::Worker => Address::WorkerAddress(bytes),
    };
    let ra = RouterAddress { a_type, address };
    proof {
        assert(dec_addr(b) == Some((ra@, 2 + len as int)));
        assert(b.skip(2 + len as int) =~= data@.skip(pos + 2 + len));
    }
    match decode_addrs_at(data, pos + 2 + len, count - 1) {
        Ok((rest, newpos)) => {
            let mut addrs: Vec<RouterAddress> = Vec::new();
            addrs.push(ra);
            let mut rest = rest;
            addrs.append(&mut rest);
            proof {
                assert(addrs@.map_values(|a: RouterAddress| a@) =~= seq![ra@] + dec_addrs(
                    data@.skip(pos + 2 + len),
                    (count - 1) as nat,
                )->Some_0.0);
            }
            Ok((addrs, newpos))
        },
        Err(e) => Err(e),
    }
}

/// The two-byte little-endian rendering of a 16-bit counter.
pub open spec fn enc_u16_le(n: u16) -> Seq<u8> {
    seq![(n % 256) as u8, (n / 256) as u8]
}

/// The 16-bit counter the first two bytes of `b` stand for, little-endian.
pub open spec fn le16(b: Seq<u8>) -> u16
    recommends
        b.len() >= 2,
{
    (b[0] + b[1] * 256) as u16
}

/// Reading back the little-endian rendering of a counter yields the counter,
/// and conversely on two-byte prefixes.
pub proof fn lemma_u16_le_round_trip(n: u16, b: Seq<u8>)
    ensures
        le16(enc_u16_le(n)) == n,
        b.len() >= 2 ==> enc_u16_le(le16(b)) == b.take(2),
{
    let lo = (n % 256) as u8;
    let hi = (n / 256) as u8;
    assert(enc_u16_le(n) =~= seq![lo, hi]);
    assert(lo + hi * 256 == n) by (nonlinear_arith)
        requires
            lo == n % 256 && hi == n / 256,
    ;
    assert(le16(seq![lo, hi]) == (lo + hi * 256) as u16);
    if b.len() >= 2 {
        let b0 = b[0];
        let b1 = b[1];
        assert(b0 + b1 * 256 < 65536) by (nonlinear_arith);
        let m = le16(b);
        assert(m == b0 + b1 * 256);
        assert(m % 256 == b0 && m / 256 == b1) by (nonlinear_arith)
            requires
                m == b0 + b1 * 256,
        ;
        assert(enc_u16_le(m) =~= b.take(2));
    }
}

/// Appends the two-byte little-endian rendering of a counter to `out`.
pub fn encode_u16_le(n: u16, out: &mut Vec<u8>)
    ensures
        final(out)@ == old(out)@ + enc_u16_le(n),
{
    out.push((n % 256) as u8);
    out.push((n / 256) as u8);
    proof {
        assert(out@ =~= old(out)@ + enc_u16_le(n));
    }
}

/// Splits a wire payload body into its leading counter and the remainder.
/// Fails exactly when the body is shorter than two bytes.
pub fn split_u16_le(body: &Vec<u8>) -> (r: Option<(u16, Vec<u8>)>)
    ensures
        match r {
            Some((n, rest)) => {
                &&& body@.len() >= 2
                &&& n == le16(body@)
                &&& rest@ == body@.skip(2)
                &&& body@ == enc_u16_le(n) + rest@
            },
            Option::None => body@.len() < 2,
        },
{
    if body.len() < 2 {
        return None;
    }
    let n: u16 = (body[0] as u16) + (body[1] as u16) * 256;
    let rest = copy_range(body, 2, body.len());
    proof {
        assert(n == le16(body@)) by (nonlinear_arith)
            requires
                n == body@[0] + body@[1] * 256,
                body@.len() >= 2,
        ;
        assert(rest@ =~= body@.skip(2));
        lemma_u16_le_round_trip(n, body@);
        assert(enc_u16_le(n) + rest@ =~= body@);
    }
    Some((n, rest))
}

} // verus!
