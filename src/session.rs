//! The decisions of a TFTP session. The caller owns the socket and the
//! clock: it sends what these functions compose and hands back what arrived
//! (or that the wait timed out).
use vstd::prelude::*;
use crate::datagram::{encode_error, error_bytes, Datagram};
use crate::errors::{error_str, tftp_code, Error, RequestError, Result};
use crate::oack::{opt_min, Oack};
use crate::request::Request;
use crate::sequence_id::{seq_modulus, SequenceId};
use crate::stats::Stats;
use crate::xfer::total_len;
use vstd::string::StringSliceAdditionalSpecFns;

verus! {

/// How many timeouts in a row a session waits out before it gives up.
pub const RETRY_CNT: u32 = 5;

/// The ERROR datagram that reports `e` to the peer.
pub fn error_reply(e: &Error) -> (r: Vec<u8>)
    ensures
        r@ == error_bytes(tftp_code(*e), error_str(*e).spec_bytes()),
{
    let msg = e.message();
    encode_error(e.tftp_error_code(), msg.as_bytes())
}

/// What to do with a decoded first datagram.
#[derive(Debug)]
pub enum Dispatch {
    /// Serve a read request.
    Read(Request),
    /// Take a write request and discard what arrives.
    WriteDevnull(Request),
    /// Send `reply` to the peer and end with `result`.
    Refuse { reply: Error, result: Error },
}

/// Chooses the path of a request: only `octet` transfers are served, a write
/// is taken only when written data may be discarded.
pub fn dispatch(op: Result<Datagram>, wrq_devnull: bool) -> (r: Dispatch)
    ensures
        match op {
            Ok(Datagram::Read(q)) => if q.mode == crate::mode::Mode::Octet {
                r matches Dispatch::Read(x) && x@ == q@
            } else {
                r == (Dispatch::Refuse {
                    reply: Error::RequestError(RequestError::ModeUnsupported),
                    result: Error::RequestError(RequestError::ModeUnsupported),
                })
            },
            Ok(Datagram::Write(q)) => if q.mode != crate::mode::Mode::Octet {
                r == (Dispatch::Refuse {
                    reply: Error::RequestError(RequestError::ModeUnsupported),
                    result: Error::RequestError(RequestError::ModeUnsupported),
                })
            } else if wrq_devnull {
                r matches Dispatch::WriteDevnull(x) && x@ == q@
            } else {
                r == (Dispatch::Refuse {
                    reply: Error::RequestError(RequestError::WriteUnsupported),
                    result: Error::NotImplemented,
                })
            },
            Ok(_) => r == (Dispatch::Refuse {
                reply: Error::RequestError(RequestError::OperationUnsupported),
                result: Error::RequestError(RequestError::OperationUnsupported),
            }),
            Err(e) => r == (Dispatch::Refuse { reply: e, result: e }),
        },
{
    match op {
        Ok(Datagram::Read(q)) => {
            if q.mode.is_octet() {
                Dispatch::Read(q)
            } else {
                Dispatch::Refuse {
                    reply: Error::RequestError(RequestError::ModeUnsupported),
                    result: Error::RequestError(RequestError::ModeUnsupported),
                }
            }
        },
        Ok(Datagram::Write(q)) => {
            if !q.mode.is_octet() {
                Dispatch::Refuse {
                    reply: Error::RequestError(RequestError::ModeUnsupported),
                    result: Error::RequestError(RequestError::ModeUnsupported),
                }
            } else if wrq_devnull {
                Dispatch::WriteDevnull(q)
            } else {
                Dispatch::Refuse {
                    reply: Error::RequestError(RequestError::WriteUnsupported),
                    result: Error::NotImplemented,
                }
            }
        },
        Ok(_) => Dispatch::Refuse {
            reply: Error::RequestError(RequestError::OperationUnsupported),
            result: Error::RequestError(RequestError::OperationUnsupported),
        },
        Err(e) => Dispatch::Refuse { reply: e, result: e },
    }
}

/// The transfer parameters in force: sizes in bytes and blocks, timeout in
/// seconds.
#[derive(Clone, Copy, Debug, PartialEq, Eq, Structural)]
pub struct Params {
    pub block_size: u16,
    pub window_size: u16,
    pub timeout: u64,
}

/// Negotiates the options of a read request: each offered option is
/// narrowed to the server's limit and takes effect; `tsize=0` is answered
/// with the file size.
pub fn negotiate_rrq(req: &Request, max_block_size: u16, max_window_size: u16, file_size: Option<u64>, p: Params) -> (r: (Oack, Params))
    requires
        req.tsize is Some ==> req.tsize == Some(0u64),
    ensures
        r.0.block_size == opt_min(req.block_size, max_block_size),
        r.0.window_size == opt_min(req.window_size, max_window_size),
        r.0.timeout == req.timeout,
        r.0.tsize == if req.tsize is Some { file_size } else { None },
        r.1.block_size == match r.0.block_size { Some(v) => v, None => p.block_size },
        r.1.window_size == match r.0.window_size { Some(v) => v, None => p.window_size },
        r.1.timeout == match req.timeout { Some(v) => v, None => p.timeout },
{
    let mut oack = Oack::from_request(req);
    let mut params = p;
    oack.update_tsize(file_size);
    if let Some(v) = oack.update_block_size(max_block_size) {
        params.block_size = v;
    }
    if let Some(v) = oack.update_window_size(max_window_size) {
        params.window_size = v;
    }
    if let Some(v) = oack.update_timeout() {
        params.timeout = v;
    }
    (oack, params)
}

/// Negotiates the options of a write request; only a window of one block
/// is taken.
pub fn negotiate_wrq(req: &Request, max_block_size: u16, p: Params) -> (r: (Oack, Params))
    ensures
        r.0.block_size == opt_min(req.block_size, max_block_size),
        r.0.window_size == opt_min(req.window_size, 1),
        r.0.timeout == req.timeout,
        r.0.tsize == req.tsize,
        r.1.block_size == match r.0.block_size { Some(v) => v, None => p.block_size },
        r.1.window_size == match r.0.window_size { Some(v) => v, None => p.window_size },
        r.1.timeout == match req.timeout { Some(v) => v, None => p.timeout },
{
    let mut oack = Oack::from_request(req);
    let mut params = p;
    if let Some(v) = oack.update_block_size(max_block_size) {
        params.block_size = v;
    }
    if let Some(v) = oack.update_window_size(1) {
        params.window_size = v;
    }
    if let Some(v) = oack.update_timeout() {
        params.timeout = v;
    }
    (oack, params)
}

/// Checks the peer's answer to an OACK: it must be ACK(0).
pub fn check_oack_reply(resp: &Result<Datagram>) -> (r: Result<()>)
    ensures
        match resp {
            Ok(Datagram::Ack(id)) => if id.0 == 0 {
                r is Ok
            } else {
                r == Err::<(), Error>(Error::BadAck)
            },
            Ok(_) => r == Err::<(), Error>(Error::Protocol("bad response to OACK")),
            Err(e) => r == Err::<(), Error>(*e),
        },
{
    match resp {
        Ok(Datagram::Ack(id)) => {
            if id.as_u16() == 0 {
                Ok(())
            } else {
                Err(Error::BadAck)
            }
        },
        Ok(_) => Err(Error::Protocol("bad response to OACK")),
        Err(e) => Err(*e),
    }
}

/// Counts the bytes sent again after a partial ACK.
pub fn record_fill(stats: &mut Stats, wasted: u64)
    ensures
        wasted == 0 ==> final(stats).retries == old(stats).retries && final(stats).wastedsz == old(stats).wastedsz,
        wasted != 0 ==> final(stats).retries == old(stats).retries.saturating_add(1)
            && final(stats).wastedsz == old(stats).wastedsz.saturating_add(wasted),
        final(stats).xmitsz == old(stats).xmitsz,
        final(stats).filesize == old(stats).filesize,
        final(stats).num_timeouts == old(stats).num_timeouts,
{
    if wasted != 0 {
        stats.retries = stats.retries.saturating_add(1);
        stats.wastedsz = stats.wastedsz.saturating_add(wasted);
    }
}

/// Where a read transfer stands: the block the peer waits for, the
/// timeouts it may still wait out, and whether no ACK came yet.
#[derive(Clone, Copy, Debug, PartialEq, Eq, Structural)]
pub struct RrqState {
    pub seq: SequenceId,
    pub retry: u32,
    pub is_startup: bool,
}

/// What a read transfer does after a wait for the peer.
#[derive(Clone, Copy, Debug, PartialEq, Eq)]
pub enum RrqStep {
    /// Fill and send the window again.
    Continue,
    /// The peer ended the transfer with an ERROR; `probe` when it did so
    /// before any ACK (a client that only tests for the file).
    PeerError { probe: bool },
    /// The session fails.
    Fail(Error),
}

impl RrqState {
    /// The state before the first window: block 1 is due.
    pub fn new() -> (r: RrqState)
        ensures
            r.seq.0 == 1,
            r.retry == RETRY_CNT,
            r.is_startup,
    {
        RrqState { seq: SequenceId::new(1), retry: RETRY_CNT, is_startup: true }
    }

    /// Whether the first ACK fell short of the first window of
    /// `window_count` blocks, which shows a smaller window at the peer.
    pub fn first_window_truncated(&self, id: SequenceId, window_count: u16) -> (r: bool)
        ensures
            r == (self.is_startup && crate::sequence_id::seq_before(
                ((id.0 + 1) % seq_modulus()) as u16,
                ((self.seq.0 + window_count) % seq_modulus()) as u16,
            )),
    {
        self.is_startup && id.plus(1).is_before(self.seq.plus(window_count))
    }

    /// Takes what the wait for an ACK gave.
    pub fn on_reply(&mut self, resp: &Result<Datagram>, stats: &mut Stats) -> (r: RrqStep)
        ensures
            match resp {
                Ok(Datagram::Ack(id)) => r == RrqStep::Continue
                    && final(self).seq.0 as int == (id.0 + 1) % seq_modulus()
                    && final(self).retry == RETRY_CNT
                    && !final(self).is_startup
                    && final(stats).num_timeouts == old(stats).num_timeouts,
                Ok(Datagram::Error(_, _)) => r == (RrqStep::PeerError { probe: old(self).is_startup })
                    && *final(self) == *old(self),
                Err(Error::Timeout) => if old(self).retry > 0 {
                    r == RrqStep::Continue && final(self).retry == old(self).retry - 1
                        && final(self).seq == old(self).seq
                        && final(self).is_startup == old(self).is_startup
                        && final(stats).num_timeouts == old(stats).num_timeouts.saturating_add(1)
                } else {
                    r == RrqStep::Fail(Error::Timeout)
                },
                _ => r == RrqStep::Fail(Error::Protocol("bad response to DATA")),
            },
            final(stats).xmitsz == old(stats).xmitsz,
            final(stats).filesize == old(stats).filesize,
            final(stats).wastedsz == old(stats).wastedsz,
    {
        match resp {
            Ok(Datagram::Ack(id)) => {
                self.is_startup = false;
                self.retry = RETRY_CNT;
                self.seq = id.plus(1);
                RrqStep::Continue
            },
            Ok(Datagram::Error(_, _)) => RrqStep::PeerError { probe: self.is_startup },
            Err(Error::Timeout) => {
                if self.retry > 0 {
                    self.retry = self.retry - 1;
                    stats.num_timeouts = stats.num_timeouts.saturating_add(1);
                    RrqStep::Continue
                } else {
                    RrqStep::Fail(Error::Timeout)
                }
            },
            _ => RrqStep::Fail(Error::Protocol("bad response to DATA")),
        }
    }
}

/// Where a discarded write transfer stands.
#[derive(Clone, Copy, Debug, PartialEq, Eq, Structural)]
pub struct WrqState {
    pub seq: SequenceId,
    pub last_id: Option<SequenceId>,
    pub retry: u32,
}

/// What a discarded write transfer does after a wait for the peer.
#[derive(Clone, Copy, Debug, PartialEq, Eq)]
pub enum WrqStep {
    /// A DATA out of order: wait again.
    Ignore,
    /// Send ACK(`id`) and wait for more.
    Ack(SequenceId),
    /// Send ACK(`id`); the transfer is complete.
    AckLast(SequenceId),
    /// The peer ended the transfer with an ERROR.
    PeerError,
    /// The session fails.
    Fail(Error),
}

impl WrqState {
    pub fn new() -> (r: WrqState)
        ensures
            r.seq.0 == 1,
            r.last_id is None,
            r.retry == RETRY_CNT,
    {
        WrqState { seq: SequenceId::new(1), last_id: None, retry: RETRY_CNT }
    }

    /// Takes what the wait for DATA gave.
    pub fn on_reply(&mut self, resp: &Result<Datagram>, block_size: u16, stats: &mut Stats) -> (r: WrqStep)
        ensures
            match resp {
                Ok(Datagram::Data(id, d)) => if *id != old(self).seq {
                    r == WrqStep::Ignore && *final(self) == *old(self)
                        && final(stats).xmitsz == old(stats).xmitsz
                } else {
                    &&& final(self).last_id == Some(*id)
                    &&& final(self).retry == RETRY_CNT
                    &&& final(self).seq.0 as int == (old(self).seq.0 + 1) % seq_modulus()
                    &&& final(stats).xmitsz == old(stats).xmitsz.saturating_add(d@.len() as u64)
                    &&& if d@.len() < block_size {
                        r == WrqStep::AckLast(*id)
                    } else {
                        r == WrqStep::Ack(*id)
                    }
                },
                Ok(Datagram::Error(_, _)) => r == WrqStep::PeerError,
                Err(Error::Timeout) => if old(self).last_id is Some && old(self).retry > 0 {
                    r == WrqStep::Ack(old(self).last_id->Some_0)
                        && final(self).retry == old(self).retry - 1
                        && final(stats).retries == old(stats).retries.saturating_add(1)
                } else {
                    r == WrqStep::Fail(Error::Timeout)
                },
                _ => r == WrqStep::Fail(Error::Protocol("bad response to WRQ")),
            },
    {
        match resp {
            Ok(Datagram::Data(id, d)) => {
                if id.as_u16() != self.seq.as_u16() {
                    WrqStep::Ignore
                } else {
                    self.last_id = Some(*id);
                    self.retry = RETRY_CNT;
                    self.seq = self.seq.plus(1);
                    stats.xmitsz = stats.xmitsz.saturating_add(d.len() as u64);
                    if d.len() < block_size as usize {
                        WrqStep::AckLast(*id)
                    } else {
                        WrqStep::Ack(*id)
                    }
                }
            },
            Ok(Datagram::Error(_, _)) => WrqStep::PeerError,
            Err(Error::Timeout) => {
                match self.last_id {
                    Some(last) => {
                        if self.retry > 0 {
                            self.retry = self.retry - 1;
                            stats.retries = stats.retries.saturating_add(1);
                            WrqStep::Ack(last)
                        } else {
                            WrqStep::Fail(Error::Timeout)
                        }
                    },
                    None => WrqStep::Fail(Error::Timeout),
                }
            },
            _ => WrqStep::Fail(Error::Protocol("bad response to WRQ")),
        }
    }
}

/// The payload bytes of the DATA datagrams in `ds`.
pub open spec fn data_total(ds: Seq<Datagram>) -> int
    decreases ds.len(),
{
    if ds.len() == 0 {
        0
    } else {
        data_total(ds.drop_last()) + match ds.last() {
            Datagram::Data(_, d) => d@.len() as int,
            _ => 0int,
        }
    }
}

/// Counts a window of datagrams as sent: `xmitsz` grows by their payload
/// bytes (stopping at the largest count). Returns how many were sent.
pub fn record_window(stats: &mut Stats, window: &Vec<Datagram>) -> (r: u16)
    requires
        window@.len() <= u16::MAX,
    ensures
        r == window@.len(),
        final(stats).xmitsz == if old(stats).xmitsz + data_total(window@) <= u64::MAX {
            old(stats).xmitsz + data_total(window@)
        } else {
            u64::MAX as int
        },
        final(stats).filesize == old(stats).filesize,
        final(stats).retries == old(stats).retries,
        final(stats).wastedsz == old(stats).wastedsz,
        final(stats).num_timeouts == old(stats).num_timeouts,
{
    let ghost x0 = stats.xmitsz as int;
    let mut i: usize = 0;
    while i < window.len()
        invariant
            i <= window@.len() <= u16::MAX,
            stats.filesize == old(stats).filesize,
            stats.retries == old(stats).retries,
            stats.wastedsz == old(stats).wastedsz,
            stats.num_timeouts == old(stats).num_timeouts,
            x0 == old(stats).xmitsz,
            stats.xmitsz == if x0 + data_total(window@.subrange(0, i as int)) <= u64::MAX {
                x0 + data_total(window@.subrange(0, i as int))
            } else {
                u64::MAX as int
            },
        decreases window@.len() - i,
    {
        assert(window@.subrange(0, i + 1).drop_last() =~= window@.subrange(0, i as int));
        proof {
            lemma_data_total_nonneg(window@.subrange(0, i as int));
        }
        let n = window[i].get_data_len();
        stats.xmitsz = stats.xmitsz.saturating_add(n as u64);
        i += 1;
    }
    assert(window@.subrange(0, window@.len() as int) =~= window@);
    window.len() as u16
}

proof fn lemma_data_total_nonneg(ds: Seq<Datagram>)
    ensures
        data_total(ds) >= 0,
    decreases ds.len(),
{
    if ds.len() > 0 {
        lemma_data_total_nonneg(ds.drop_last());
    }
}

/// Sent bytes are window bytes: the DATA datagrams of a window, one per
/// pending block in order, carry exactly the bytes of the pending blocks.
/// With the transfer law of the window, the first sending of each block adds
/// up to the file.
pub proof fn lemma_window_bytes(ds: Seq<Datagram>, pending: Seq<Seq<u8>>)
    requires
        ds.len() == pending.len(),
        forall|i: int| 0 <= i < ds.len() ==> (#[trigger] ds[i] matches Datagram::Data(_, d) && d@ == pending[i]),
    ensures
        data_total(ds) == total_len(pending),
    decreases ds.len(),
{
    if ds.len() > 0 {
        let n = ds.len() - 1;
        assert forall|i: int| 0 <= i < ds.drop_last().len() implies (#[trigger] ds.drop_last()[i] matches Datagram::Data(_, d) && d@ == pending.drop_last()[i]) by {
            assert(ds.drop_last()[i] == ds[i]);
        }
        lemma_window_bytes(ds.drop_last(), pending.drop_last());
        assert(ds[n] matches Datagram::Data(_, d) && d@ == pending[n]);
    }
}

} // verus!
