//! Option acknowledgements: the options that the server accepts, narrowed
//! to its limits.
use vstd::prelude::*;
use crate::request::Request;

verus! {

/// The decimal digits of `v`, most significant first.
pub open spec fn decimal(v: nat) -> Seq<u8>
    decreases v,
{
    if v < 10 {
        seq![(48 + v) as u8]
    } else {
        decimal(v / 10).push((48 + v % 10) as u8)
    }
}

/// The decimal form of `v`.
pub fn decimal_bytes(v: u64) -> (r: Vec<u8>)
    ensures
        r@ == decimal(v as nat),
    decreases v,
{
    if v < 10 {
        let mut r: Vec<u8> = Vec::new();
        r.push((48 + v) as u8);
        assert(r@ =~= decimal(v as nat));
        r
    } else {
        let mut r = decimal_bytes(v / 10);
        r.push((48 + v % 10) as u8);
        r
    }
}

/// `name\0value\0`, the wire form of one option.
pub open spec fn option_bytes(name: Seq<u8>, value: nat) -> Seq<u8> {
    name + seq![0u8] + decimal(value) + seq![0u8]
}

pub fn append_option(msg: &mut Vec<u8>, id: &[u8], value: u64)
    ensures
        final(msg)@ == old(msg)@ + option_bytes(id@, value as nat),
{
    let ghost start = msg@;
    let mut i: usize = 0;
    while i < id.len()
        invariant
            i <= id.len(),
            msg@ == start + id@.subrange(0, i as int),
        decreases id.len() - i,
    {
        msg.push(id[i]);
        assert(id@.subrange(0, i + 1) =~= id@.subrange(0, i as int).push(id@[i as int]));
        assert(start + id@.subrange(0, i + 1) =~= (start + id@.subrange(0, i as int)).push(id@[i as int]));
        i += 1;
    }
    assert(id@.subrange(0, id.len() as int) =~= id@);
    msg.push(0);
    let d = decimal_bytes(value);
    let ghost mid = msg@;
    let mut j: usize = 0;
    while j < d.len()
        invariant
            j <= d.len(),
            msg@ == mid + d@.subrange(0, j as int),
        decreases d.len() - j,
    {
        msg.push(d[j]);
        assert(d@.subrange(0, j + 1) =~= d@.subrange(0, j as int).push(d@[j as int]));
        assert(mid + d@.subrange(0, j + 1) =~= (mid + d@.subrange(0, j as int)).push(d@[j as int]));
        j += 1;
    }
    assert(d@.subrange(0, d.len() as int) =~= d@);
    msg.push(0);
    assert(msg@ =~= start + option_bytes(id@, value as nat));
}

/// The options of an OACK. `timeout` is in seconds.
#[derive(Clone, Copy, Debug, PartialEq, Eq, Structural)]
pub struct Oack {
    pub block_size: Option<u16>,
    pub timeout: Option<u64>,
    pub window_size: Option<u16>,
    pub tsize: Option<u64>,
}

pub open spec fn opt_min(v: Option<u16>, max_val: u16) -> Option<u16> {
    match v {
        Some(x) => Some(if x < max_val { x } else { max_val }),
        None => None,
    }
}

pub open spec fn opt_bytes(name: Seq<u8>, v: Option<u64>) -> Seq<u8> {
    match v {
        Some(x) => option_bytes(name, x as nat),
        None => Seq::empty(),
    }
}

/// The wire form of an OACK: opcode 6, then blksize, windowsize, tsize and
/// timeout, each where present.
pub open spec fn oack_bytes(o: Oack) -> Seq<u8> {
    seq![0u8, 6u8] + opt_bytes(crate::request::word_blksize(), match o.block_size {
        Some(v) => Some(v as u64),
        None => None,
    }) + opt_bytes(crate::request::word_windowsize(), match o.window_size {
        Some(v) => Some(v as u64),
        None => None,
    }) + opt_bytes(crate::request::word_tsize(), o.tsize) + opt_bytes(
        crate::request::word_timeout(),
        o.timeout,
    )
}

impl Oack {
    /// The options that the request offers.
    pub fn from_request(req: &Request) -> (r: Oack)
        ensures
            r.block_size == req.block_size,
            r.timeout == req.timeout,
            r.window_size == req.window_size,
            r.tsize == req.tsize,
    {
        Oack {
            block_size: req.block_size,
            timeout: req.timeout,
            window_size: req.window_size,
            tsize: req.tsize,
        }
    }

    /// Narrows an offered block size to `max_val`; returns the value in force.
    pub fn update_block_size(&mut self, max_val: u16) -> (r: Option<u16>)
        ensures
            final(self).block_size == opt_min(old(self).block_size, max_val),
            r == final(self).block_size,
            final(self).timeout == old(self).timeout,
            final(self).window_size == old(self).window_size,
            final(self).tsize == old(self).tsize,
    {
        if let Some(sz) = self.block_size {
            let v = if sz < max_val {
                sz
            } else {
                max_val
            };
            self.block_size = Some(v);
        }
        self.block_size
    }

    /// Narrows an offered window size to `max_val`; returns the value in force.
    pub fn update_window_size(&mut self, max_val: u16) -> (r: Option<u16>)
        ensures
            final(self).window_size == opt_min(old(self).window_size, max_val),
            r == final(self).window_size,
            final(self).timeout == old(self).timeout,
            final(self).block_size == old(self).block_size,
            final(self).tsize == old(self).tsize,
    {
        if let Some(sz) = self.window_size {
            let v = if sz < max_val {
                sz
            } else {
                max_val
            };
            self.window_size = Some(v);
        }
        self.window_size
    }

    /// The offered timeout, which is accepted as it is.
    pub fn update_timeout(&self) -> (r: Option<u64>)
        ensures
            r == self.timeout,
    {
        self.timeout
    }

    /// Answers an offered `tsize=0` with the size of the file, where known.
    pub fn update_tsize(&mut self, new_sz: Option<u64>)
        requires
            old(self).tsize is Some ==> old(self).tsize == Some(0u64),
        ensures
            final(self).tsize == if old(self).tsize is Some {
                new_sz
            } else {
                None
            },
            final(self).block_size == old(self).block_size,
            final(self).timeout == old(self).timeout,
            final(self).window_size == old(self).window_size,
    {
        if self.tsize.is_some() {
            self.tsize = new_sz;
        }
    }

    /// Appends the OACK datagram to `msg`.
    pub fn fill_buf(self, msg: &mut Vec<u8>)
        ensures
            final(msg)@ == old(msg)@ + oack_bytes(self),
    {
        let blksize: [u8; 7] = [98, 108, 107, 115, 105, 122, 101];
        let timeout: [u8; 7] = [116, 105, 109, 101, 111, 117, 116];
        let tsize: [u8; 5] = [116, 115, 105, 122, 101];
        let windowsize: [u8; 10] = [119, 105, 110, 100, 111, 119, 115, 105, 122, 101];
        assert(blksize@ =~= crate::request::word_blksize());
        assert(timeout@ =~= crate::request::word_timeout());
        assert(tsize@ =~= crate::request::word_tsize());
        assert(windowsize@ =~= crate::request::word_windowsize());
        let ghost m0 = msg@;
        msg.push(0);
        msg.push(6);
        assert(msg@ =~= m0 + seq![0u8, 6u8]);
        if let Some(sz) = self.block_size {
            append_option(msg, blksize.as_slice(), sz as u64);
        }
        let ghost m1 = msg@;
        if let Some(sz) = self.window_size {
            append_option(msg, windowsize.as_slice(), sz as u64);
        }
        let ghost m2 = msg@;
        if let Some(sz) = self.tsize {
            append_option(msg, tsize.as_slice(), sz);
        }
        let ghost m3 = msg@;
        if let Some(to) = self.timeout {
            append_option(msg, timeout.as_slice(), to);
        }
        assert(msg@ =~= m0 + oack_bytes(self));
    }
}

} // verus!
