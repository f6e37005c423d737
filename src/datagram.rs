//! The TFTP datagrams and their wire format (big-endian).
use vstd::prelude::*;
use crate::errors::{Error, RequestError};
use crate::request::{parse_request, slice_prefix, Dir, Request, RequestSpec};
use crate::sequence_id::SequenceId;

verus! {

/// A datagram as a mathematical value.
pub enum DatagramSpec {
    Read(RequestSpec),
    Write(RequestSpec),
    Data(u16, Seq<u8>),
    Ack(u16),
    Error(u16, Seq<u8>),
    OAck,
}

/// A decoded datagram.
#[derive(Debug)]
pub enum Datagram {
    Read(Request),
    Write(Request),
    Data(SequenceId, Vec<u8>),
    Ack(SequenceId),
    Error(u16, Vec<u8>),
    OAck,
}

impl View for Datagram {
    type V = DatagramSpec;

    open spec fn view(&self) -> DatagramSpec {
        match self {
            Datagram::Read(r) => DatagramSpec::Read(r@),
            Datagram::Write(r) => DatagramSpec::Write(r@),
            Datagram::Data(s, d) => DatagramSpec::Data(s.0, d@),
            Datagram::Ack(s) => DatagramSpec::Ack(s.0),
            Datagram::Error(c, m) => DatagramSpec::Error(*c, m@),
            Datagram::OAck => DatagramSpec::OAck,
        }
    }
}

/// The big-endian 16-bit number at `v[i..i+2]`.
pub open spec fn be16(v: Seq<u8>, i: int) -> u16 {
    (v[i] as int * 256 + v[i + 1] as int) as u16
}

pub open spec fn parse_body(v: Seq<u8>, dir: Dir) -> Result<RequestSpec, Error> {
    match parse_request(v, dir) {
        Ok(q) => Ok(q),
        Err(e) => Err(Error::RequestError(e)),
    }
}

/// The decoding of one datagram.
pub open spec fn parse_datagram(v: Seq<u8>) -> Result<DatagramSpec, Error> {
    if v.len() < 2 {
        Err(Error::RequestError(RequestError::TooShort))
    } else {
        let op = be16(v, 0);
        if op == 1 || op == 2 {
            let dir = if op == 1 {
                Dir::Read
            } else {
                Dir::Write
            };
            if v.len() < 3 {
                Err(Error::RequestError(RequestError::TooShort))
            } else {
                match parse_body(v.subrange(2, v.len() as int), dir) {
                    Ok(q) => if op == 1 {
                        Ok(DatagramSpec::Read(q))
                    } else {
                        Ok(DatagramSpec::Write(q))
                    },
                    Err(e) => Err(e),
                }
            }
        } else if op == 3 {
            if v.len() < 4 {
                Err(Error::RequestError(RequestError::TooShort))
            } else {
                Ok(DatagramSpec::Data(be16(v, 2), v.subrange(4, v.len() as int)))
            }
        } else if op == 4 {
            if v.len() == 4 {
                Ok(DatagramSpec::Ack(be16(v, 2)))
            } else {
                Err(Error::RequestError(RequestError::MalformedAck))
            }
        } else if op == 5 {
            if v.last() != 0 {
                Err(Error::RequestError(RequestError::MissingZero))
            } else if v.len() < 5 {
                Err(Error::RequestError(RequestError::TooShort))
            } else {
                Ok(DatagramSpec::Error(be16(v, 2), v.subrange(4, v.len() - 1)))
            }
        } else if op == 6 {
            Ok(DatagramSpec::OAck)
        } else {
            Err(Error::RequestError(RequestError::BadOpCode(op)))
        }
    }
}

/// The bytes `s[lo..hi]`, copied.
pub fn copy_range(s: &[u8], lo: usize, hi: usize) -> (r: Vec<u8>)
    requires
        lo <= hi <= s.len(),
    ensures
        r@ == s@.subrange(lo as int, hi as int),
{
    let mut r: Vec<u8> = Vec::with_capacity(hi - lo);
    let mut i: usize = lo;
    while i < hi
        invariant
            lo <= i <= hi <= s.len(),
            r@ == s@.subrange(lo as int, i as int),
        decreases hi - i,
    {
        r.push(s[i]);
        assert(s@.subrange(lo as int, i + 1) =~= s@.subrange(lo as int, i as int).push(s@[i as int]));
        i += 1;
    }
    r
}

fn get_u16(v: &[u8], i: usize) -> (r: u16)
    requires
        i + 1 < v.len(),
    ensures
        r == be16(v@, i as int),
{
    (v[i] as u16) * 256 + (v[i + 1] as u16)
}

fn request_body(v: &[u8], dir: Dir) -> (r: Result<Request, Error>)
    requires
        v.len() >= 3,
    ensures
        match parse_body(v@.subrange(2, v.len() as int), dir) {
            Ok(q) => r is Ok && r->Ok_0@ == q,
            Err(e) => r == Err::<Request, Error>(e),
        },
{
    let body = vstd::slice::slice_subrange(v, 2, v.len());
    match Request::from_slice(body, dir) {
        Ok(q) => Ok(q),
        Err(e) => Err(Error::RequestError(e)),
    }
}

impl Datagram {
    /// Decodes one datagram.
    pub fn try_from(v: &[u8]) -> (r: Result<Datagram, Error>)
        ensures
            match parse_datagram(v@) {
                Ok(d) => r is Ok && r->Ok_0@ == d,
                Err(e) => r == Err::<Datagram, Error>(e),
            },
    {
        if v.len() < 2 {
            return Err(Error::RequestError(RequestError::TooShort));
        }
        let op = get_u16(v, 0);
        if op == 1 || op == 2 {
            if v.len() < 3 {
                return Err(Error::RequestError(RequestError::TooShort));
            }
            if op == 1 {
                Ok(Datagram::Read(request_body(v, Dir::Read)?))
            } else {
                Ok(Datagram::Write(request_body(v, Dir::Write)?))
            }
        } else if op == 3 {
            if v.len() < 4 {
                return Err(Error::RequestError(RequestError::TooShort));
            }
            Ok(Datagram::Data(SequenceId::new(get_u16(v, 2)), copy_range(v, 4, v.len())))
        } else if op == 4 {
            if v.len() == 4 {
                Ok(Datagram::Ack(SequenceId::new(get_u16(v, 2))))
            } else {
                Err(Error::RequestError(RequestError::MalformedAck))
            }
        } else if op == 5 {
            if v[v.len() - 1] != 0 {
                Err(Error::RequestError(RequestError::MissingZero))
            } else if v.len() < 5 {
                Err(Error::RequestError(RequestError::TooShort))
            } else {
                Ok(Datagram::Error(get_u16(v, 2), copy_range(v, 4, v.len() - 1)))
            }
        } else if op == 6 {
            Ok(Datagram::OAck)
        } else {
            Err(Error::RequestError(RequestError::BadOpCode(op)))
        }
    }

    pub fn is_ack(&self) -> (r: bool)
        ensures
            r == (self is Ack),
    {
        match self {
            Datagram::Ack(_) => true,
            _ => false,
        }
    }

    /// The payload length of a DATA datagram; 0 for the others.
    pub fn get_data_len(&self) -> (r: usize)
        ensures
            r == match self {
                Datagram::Data(_, d) => d@.len(),
                _ => 0,
            },
    {
        match self {
            Datagram::Data(_, d) => d.len(),
            _ => 0,
        }
    }
}

/// The wire form of DATA(`seq`, `data`).
pub open spec fn data_bytes(seq: u16, data: Seq<u8>) -> Seq<u8> {
    seq![0u8, 3u8, (seq / 256) as u8, (seq % 256) as u8] + data
}

/// The wire form of ACK(`seq`).
pub open spec fn ack_bytes(seq: u16) -> Seq<u8> {
    seq![0u8, 4u8, (seq / 256) as u8, (seq % 256) as u8]
}

/// The wire form of ERROR(`code`, `msg`): the message is NUL-terminated.
pub open spec fn error_bytes(code: u16, msg: Seq<u8>) -> Seq<u8> {
    seq![0u8, 5u8, (code / 256) as u8, (code % 256) as u8] + msg + seq![0u8]
}

fn push_all(out: &mut Vec<u8>, s: &[u8])
    ensures
        final(out)@ == old(out)@ + s@,
{
    let mut i: usize = 0;
    while i < s.len()
        invariant
            i <= s.len(),
            out@ == old(out)@ + s@.subrange(0, i as int),
        decreases s.len() - i,
    {
        out.push(s[i]);
        assert(s@.subrange(0, i + 1) =~= s@.subrange(0, i as int).push(s@[i as int]));
        assert(old(out)@ + s@.subrange(0, i + 1) =~= (old(out)@ + s@.subrange(0, i as int)).push(
            s@[i as int],
        ));
        i += 1;
    }
    assert(s@.subrange(0, s.len() as int) =~= s@);
}

/// Encodes a DATA datagram.
pub fn encode_data(seq: SequenceId, data: &[u8]) -> (r: Vec<u8>)
    ensures
        r@ == data_bytes(seq.0, data@),
{
    let mut r: Vec<u8> = Vec::new();
    r.push(0);
    r.push(3);
    r.push(seq.as_u8_hi());
    r.push(seq.as_u8_lo());
    push_all(&mut r, data);
    assert(r@ =~= data_bytes(seq.0, data@));
    r
}

/// Encodes an ACK datagram.
pub fn encode_ack(seq: SequenceId) -> (r: Vec<u8>)
    ensures
        r@ == ack_bytes(seq.0),
{
    let r = vec![0u8, 4u8, seq.as_u8_hi(), seq.as_u8_lo()];
    assert(r@ =~= ack_bytes(seq.0));
    r
}

/// Encodes an ERROR datagram.
pub fn encode_error(code: u16, msg: &[u8]) -> (r: Vec<u8>)
    ensures
        r@ == error_bytes(code, msg@),
{
    let mut r: Vec<u8> = Vec::new();
    r.push(0);
    r.push(5);
    r.push((code / 256) as u8);
    r.push((code % 256) as u8);
    push_all(&mut r, msg);
    r.push(0);
    assert(r@ =~= error_bytes(code, msg@));
    r
}

} // verus!
