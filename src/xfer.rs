//! The transfer window: a ring of blocks awaiting one cumulative ACK.
use vstd::prelude::*;
use crate::datagram::{Datagram, DatagramSpec};
use crate::errors::{Error, Result};
use crate::fetcher::{next_cursor, Fetcher};
use crate::sequence_id::{seq_modulus, wrap_diff, SequenceId};

verus! {

/// One block of a window: a buffer of capacity `blksz`, of which `len`
/// bytes are filled.
#[derive(Debug)]
pub struct Block {
    data: Vec<u8>,
    len: u16,
    blksz: u16,
}

impl Block {
    pub closed spec fn bytes(&self) -> Seq<u8> {
        self.data@.subrange(0, self.len as int)
    }

    pub closed spec fn capacity(&self) -> u16 {
        self.blksz
    }

    /// The whole buffer, filled or not.
    pub closed spec fn buffer(&self) -> Seq<u8> {
        self.data@
    }

    pub closed spec fn wf(&self) -> bool {
        self.len <= self.data.len() <= self.blksz
    }

    /// A block that owns its buffer.
    pub fn new_owned(size: u16) -> (r: Block)
        ensures
            r.wf(),
            r.bytes() == Seq::<u8>::empty(),
            r.capacity() == size,
    {
        Block { data: Vec::new(), len: 0, blksz: size }
    }

    /// A block that takes its bytes from a mapped source.
    pub fn new_ref(size: u16) -> (r: Block)
        ensures
            r.wf(),
            r.bytes() == Seq::<u8>::empty(),
            r.capacity() == size,
    {
        Block { data: Vec::new(), len: 0, blksz: size }
    }

    pub fn get_blksize(&self) -> (r: u16)
        ensures
            r == self.capacity(),
    {
        self.blksz
    }

    /// Empties the block.
    pub fn init(&mut self)
        requires
            old(self).wf(),
        ensures
            final(self).wf(),
            final(self).bytes() == Seq::<u8>::empty(),
            final(self).capacity() == old(self).capacity(),
    {
        self.len = 0;
    }

    /// Marks the first `sz` bytes of the buffer as filled; bytes past what
    /// the buffer held so far read as zero.
    pub fn set_len(&mut self, sz: usize)
        requires
            old(self).wf(),
            sz <= old(self).capacity(),
        ensures
            final(self).wf(),
            final(self).bytes().len() == sz,
            forall|i: int| 0 <= i < sz && i < old(self).buffer().len() ==> #[trigger] final(self).bytes()[i] == old(self).buffer()[i],
            final(self).capacity() == old(self).capacity(),
    {
        let ghost b0 = self.data@;
        while self.data.len() < sz
            invariant
                sz <= self.blksz,
                self.blksz == old(self).blksz,
                self.len == old(self).len,
                self.len <= self.data.len(),
                self.data.len() <= self.blksz,
                forall|i: int| 0 <= i < b0.len() && i < self.data@.len() ==> self.data@[i] == b0[i],
                self.data@.len() >= b0.len(),
            decreases sz - self.data.len(),
        {
            self.data.push(0);
        }
        self.len = sz as u16;
    }

    /// The filled bytes.
    pub fn get_data(&self) -> (r: Vec<u8>)
        requires
            self.wf(),
        ensures
            r@ == self.bytes(),
    {
        crate::datagram::copy_range(self.data.as_slice(), 0, self.len as usize)
    }

    /// Fills the block with the next bytes of `fetcher`; returns how many.
    pub fn fill(&mut self, fetcher: &mut Fetcher) -> (r: Result<usize>)
        requires
            old(self).wf(),
            old(fetcher).wf(),
        ensures
            final(self).wf(),
            final(self).capacity() == old(self).capacity(),
            final(fetcher).wf(),
            final(fetcher).data() == old(fetcher).data(),
            final(fetcher).cursor() == next_cursor(
                old(fetcher).data().len() as int,
                old(fetcher).cursor(),
                old(self).capacity() as int,
            ),
            final(self).bytes() == old(fetcher).data().subrange(old(fetcher).cursor(), final(fetcher).cursor()),
            r is Ok,
            r->Ok_0 == final(self).bytes().len(),
    {
        let d = fetcher.read_mmap(self.blksz as usize);
        let n = d.len();
        assert(n <= self.blksz);
        self.data = d;
        self.len = n as u16;
        assert(self.data@.subrange(0, n as int) =~= self.data@);
        Ok(n)
    }
}

/// The `k`-th block of `bs` bytes that a source of content `data` yields
/// from offset `pos` on; empty past the end.
pub open spec fn chunk(data: Seq<u8>, pos: int, bs: int, k: int) -> Seq<u8> {
    let lo = if pos + k * bs < data.len() { pos + k * bs } else { data.len() as int };
    let hi = if pos + (k + 1) * bs < data.len() { pos + (k + 1) * bs } else { data.len() as int };
    data.subrange(lo, hi)
}

/// The total length of a sequence of blocks.
pub open spec fn total_len(s: Seq<Seq<u8>>) -> int
    decreases s.len(),
{
    if s.len() == 0 {
        0
    } else {
        total_len(s.drop_last()) + s.last().len()
    }
}

/// The window of a transfer: `blocks` is a ring; the pending blocks are the
/// `active_sz` slots from `start_idx` on, numbered from `start_seq`.
pub struct Xfer {
    start_seq: SequenceId,
    start_idx: u16,
    active_sz: u16,
    blocks: Vec<Block>,
    is_eof: bool,
    blk_size: u16,
}

impl Xfer {
    pub closed spec fn window_len(&self) -> int {
        self.blocks.len() as int
    }

    pub closed spec fn block_size(&self) -> u16 {
        self.blk_size
    }

    pub closed spec fn first_seq(&self) -> u16 {
        self.start_seq.0
    }

    pub closed spec fn active_len(&self) -> int {
        self.active_sz as int
    }

    /// Whether the source reported its end.
    pub closed spec fn eof_seen(&self) -> bool {
        self.is_eof
    }

    pub closed spec fn slot(&self, i: int) -> int {
        (self.start_idx as int + i) % (self.blocks.len() as int)
    }

    /// The contents of the pending blocks, in order.
    pub closed spec fn pending(&self) -> Seq<Seq<u8>> {
        Seq::new(self.active_sz as nat, |i: int| self.blocks@[self.slot(i)].bytes())
    }

    pub closed spec fn wf(&self) -> bool {
        &&& 0 < self.blocks.len() < 65535
        &&& self.start_idx < self.blocks.len()
        &&& self.active_sz <= self.blocks.len()
        &&& forall|i: int|
            0 <= i < self.blocks.len() ==> #[trigger] self.blocks@[i].wf()
                && self.blocks@[i].capacity() == self.blk_size
    }

    /// The distance of `blk_id` from the first pending block; 0 when none
    /// is pending.
    pub open spec fn delta_to(&self, blk_id: u16) -> int {
        if self.active_len() == 0 {
            0
        } else {
            wrap_diff(blk_id, self.first_seq())
        }
    }

    /// A window of `window_size` empty blocks of `blk_size` bytes.
    pub fn new(fetcher: &Fetcher, blk_size: u16, window_size: u16) -> (r: Xfer)
        requires
            0 < window_size < 65535,
        ensures
            r.wf(),
            r.window_len() == window_size as int,
            r.block_size() == blk_size,
            r.first_seq() == 0,
            r.active_len() == 0,
            r.pending().len() == 0,
            !r.eof_seen(),
    {
        let mut blocks: Vec<Block> = Vec::with_capacity(window_size as usize);
        let mut i: u16 = 0;
        while i < window_size
            invariant
                0 < window_size < 65535,
                i <= window_size,
                blocks.len() == i,
                forall|j: int|
                    0 <= j < blocks.len() ==> #[trigger] blocks@[j].wf() && blocks@[j].capacity()
                        == blk_size,
            decreases window_size - i,
        {
            if fetcher.is_mmaped() {
                blocks.push(Block::new_ref(blk_size));
            } else {
                blocks.push(Block::new_owned(blk_size));
            }
            i += 1;
        }
        let x = Xfer {
            start_seq: SequenceId::new(0),
            start_idx: 0,
            active_sz: 0,
            blocks,
            is_eof: false,
            blk_size,
        };
        assert(x.blocks.len() == window_size);
        assert(forall|i: int| 0 <= i < x.blocks.len() ==> #[trigger] x.blocks@[i].wf() && x.blocks@[i].capacity() == x.blk_size);
        x
    }

    pub fn window_size(&self) -> (r: u16)
        requires
            self.wf(),
        ensures
            r == self.window_len(),
    {
        self.blocks.len() as u16
    }

    /// The block number and content of the `idx`-th pending block.
    pub fn get_rel_block(&self, idx: u16) -> (r: Option<(SequenceId, Vec<u8>)>)
        requires
            self.wf(),
        ensures
            idx >= self.active_len() ==> r is None,
            idx < self.active_len() ==> r is Some
                && r->Some_0.0.0 as int == (self.first_seq() + idx) % seq_modulus()
                && r->Some_0.1@ == self.pending()[idx as int],
    {
        if idx >= self.active_sz {
            return None;
        }
        let ws = self.window_size() as u32;
        let mut p: u32 = self.start_idx as u32 + idx as u32;
        if p >= ws {
            p = p - ws;
        }
        assert(p as int == self.slot(idx as int)) by {
            let s = self.start_idx as int + idx as int;
            if s >= ws {
                assert(s % (ws as int) == s - ws) by {
                    vstd::arithmetic::div_mod::lemma_fundamental_div_mod_converse(s, ws as int, 1, s - ws);
                }
            } else {
                vstd::arithmetic::div_mod::lemma_small_mod(s as nat, ws as nat);
            }
        }
        Some((self.start_seq.plus(idx), self.blocks[p as usize].get_data()))
    }

    /// Takes the next free slot as a new, empty pending block; returns its slot.
    fn alloc_block(&mut self) -> (r: usize)
        requires
            old(self).wf(),
            old(self).active_len() < old(self).window_len(),
        ensures
            final(self).wf(),
            r as int == old(self).slot(old(self).active_len()),
            final(self).active_len() == old(self).active_len() + 1,
            final(self).pending() == old(self).pending().push(Seq::<u8>::empty()),
            final(self).blocks@.len() == old(self).blocks@.len(),
            final(self).start_seq == old(self).start_seq,
            final(self).start_idx == old(self).start_idx,
            final(self).is_eof == old(self).is_eof,
            final(self).blk_size == old(self).blk_size,
    {
        let ws = self.window_size() as u32;
        let mut p: u32 = self.start_idx as u32 + self.active_sz as u32;
        if p >= ws {
            p = p - ws;
        }
        assert(p as int == self.slot(self.active_sz as int)) by {
            let s = self.start_idx as int + self.active_sz as int;
            if s >= ws {
                vstd::arithmetic::div_mod::lemma_fundamental_div_mod_converse(s, ws as int, 1, s - ws);
            } else {
                vstd::arithmetic::div_mod::lemma_small_mod(s as nat, ws as nat);
            }
        }
        let ghost old_pending = self.pending();
        let ghost old_blocks = self.blocks@;
        let mut b = Block::new_ref(self.blk_size);
        b.init();
        let ghost gb = b;
        assert(gb.wf() && gb.capacity() == self.blk_size);
        self.blocks.set(p as usize, b);
        self.active_sz = self.active_sz + 1;
        proof {
            assert forall|i: int| 0 <= i < self.blocks.len() implies #[trigger] self.blocks@[i].wf()
                && self.blocks@[i].capacity() == self.blk_size by {
                if i == p as int {
                    assert(self.blocks@[i] == gb);
                } else {
                    assert(self.blocks@[i] == old_blocks[i]);
                    assert(old_blocks[i].wf());
                }
            }
            self.lemma_slots_distinct(old(self).active_len() as int, p as int);
            assert(self.pending() =~= old_pending.push(Seq::<u8>::empty()));
            assert(0 < self.blocks.len() < 65535);
            assert(self.start_idx < self.blocks.len());
            assert(self.active_sz <= self.blocks.len());
        }
        p as usize
    }

    /// Slots of different pending positions differ.
    proof fn lemma_slots_distinct(&self, n: int, p: int)
        requires
            0 < self.blocks.len(),
            self.start_idx < self.blocks.len(),
            0 <= n < self.blocks.len(),
            p == self.slot(n),
        ensures
            forall|i: int| 0 <= i < n ==> self.slot(i) != p,
    {
        let w = self.blocks.len() as int;
        let s = self.start_idx as int;
        assert forall|i: int| 0 <= i < n implies self.slot(i) != p by {
            if s + i < w {
                vstd::arithmetic::div_mod::lemma_small_mod((s + i) as nat, w as nat);
            } else {
                vstd::arithmetic::div_mod::lemma_fundamental_div_mod_converse(s + i, w, 1, s + i - w);
            }
            if s + n < w {
                vstd::arithmetic::div_mod::lemma_small_mod((s + n) as nat, w as nat);
            } else {
                vstd::arithmetic::div_mod::lemma_fundamental_div_mod_converse(s + n, w, 1, s + n - w);
            }
        }
    }

    /// Drops the blocks before `blk_id`; returns the number of bytes of the
    /// blocks that stay pending when only part of the window was taken.
    fn free_blocks(&mut self, blk_id: SequenceId) -> (r: Result<u64>)
        requires
            old(self).wf(),
        ensures
            final(self).wf(),
            final(self).blk_size == old(self).blk_size,
            final(self).blocks@.len() == old(self).blocks@.len(),
            final(self).is_eof == old(self).is_eof,
            old(self).delta_to(blk_id.0) > old(self).active_len() ==> r == Err::<u64, Error>(
                Error::Protocol("blk-id out of window"),
            ) && *final(self) == *old(self),
            old(self).delta_to(blk_id.0) <= old(self).active_len() ==> r is Ok
                && final(self).first_seq() == blk_id.0
                && final(self).pending() == old(self).pending().skip(old(self).delta_to(blk_id.0))
                && r->Ok_0 == wasted_len(old(self).pending(), old(self).delta_to(blk_id.0)),
    {
        let delta: u16 = if self.active_sz == 0 {
            0
        } else {
            blk_id.delta(self.start_seq)
        };
        if delta == self.active_sz {
            self.start_idx = 0;
            self.start_seq = blk_id;
            self.active_sz = 0;
            assert(self.pending() =~= old(self).pending().skip(delta as int));
            Ok(0)
        } else if delta > self.active_sz {
            Err(Error::Protocol("blk-id out of window"))
        } else {
            let ghost old_pending = self.pending();
            let ws = self.window_size() as u32;
            let mut p: u32 = self.start_idx as u32 + delta as u32;
            if p >= ws {
                p = p - ws;
            }
            let new_seq = self.start_seq.plus(delta);
            proof {
                let w = ws as int;
                let s = self.start_idx as int + delta as int;
                assert(p as int == s % w) by {
                    if s >= w {
                        vstd::arithmetic::div_mod::lemma_fundamental_div_mod_converse(s, w, 1, s - w);
                    } else {
                        vstd::arithmetic::div_mod::lemma_small_mod(s as nat, w as nat);
                    }
                }
                assert(new_seq.0 == blk_id.0) by {
                    let a = self.start_seq.0 as int;
                    let b = blk_id.0 as int;
                    if b >= a {
                        assert((b - a) % 0x10000 == b - a);
                        assert((a + (b - a)) % 0x10000 == b);
                    } else {
                        assert((b - a) % 0x10000 == b - a + 0x10000) by {
                            vstd::arithmetic::div_mod::lemma_fundamental_div_mod_converse(b - a, 0x10000, -1, b - a + 0x10000);
                        }
                        assert((a + b - a + 0x10000) % 0x10000 == b) by {
                            vstd::arithmetic::div_mod::lemma_fundamental_div_mod_converse(b + 0x10000, 0x10000, 1, b);
                        }
                    }
                }
            }
            let wasted = if delta == 0 {
                0
            } else {
                self.pending_bytes_from(delta)
            };
            self.start_idx = p as u16;
            self.start_seq = new_seq;
            self.active_sz = self.active_sz - delta;
            proof {
                let w = ws as int;
                assert forall|i: int| 0 <= i < self.active_sz implies self.slot(i) == old(self).slot(
                    i + delta,
                ) by {
                    let a = old(self).start_idx as int + delta as int;
                    vstd::arithmetic::div_mod::lemma_add_mod_noop(a, i, w);
                    vstd::arithmetic::div_mod::lemma_mod_twice(a + i, w);
                    assert(old(self).start_idx as int + (i + delta) == a + i);
                    assert(p as int == a % w);
                    vstd::arithmetic::div_mod::lemma_small_mod(i as nat, w as nat);
                    assert((a % w + i % w) % w == (a + i) % w);
                }
                assert(self.pending() =~= old_pending.skip(delta as int));
            }
            Ok(wasted)
        }
    }

    /// The total length of the pending blocks from position `from` on.
    fn pending_bytes_from(&self, from: u16) -> (r: u64)
        requires
            self.wf(),
            from <= self.active_len(),
        ensures
            r == total_len(self.pending().skip(from as int)),
    {
        let mut sum: u64 = 0;
        let mut i: u16 = from;
        while i < self.active_sz
            invariant
                self.wf(),
                from <= i <= self.active_sz,
                sum == total_len(self.pending().subrange(from as int, i as int)),
                sum <= (i - from) * 65535,
            decreases self.active_sz - i,
        {
            let ghost before = self.pending().subrange(from as int, i as int);
            match self.get_rel_block(i) {
                Some((_, d)) => {
                    proof {
                        let w = self.blocks.len() as int;
                        assert(0 <= self.slot(i as int) < w);
                        assert(self.blocks@[self.slot(i as int)].wf());
                        assert(d@.len() <= 65535);
                        assert(self.pending().subrange(from as int, i + 1).drop_last() =~= before);
                    }
                    sum = sum + d.len() as u64;
                },
                None => {},
            }
            i += 1;
        }
        assert(self.pending().subrange(from as int, self.active_sz as int) =~= self.pending().skip(
            from as int,
        ));
        sum
    }

    /// Advances the window so that it starts at `blk_id` and fills it from
    /// `fetcher` until it is full or the source ends. Returns the number of
    /// bytes of blocks that are sent again.
    pub fn fill_window(&mut self, blk_id: SequenceId, fetcher: &mut Fetcher) -> (r: Result<u64>)
        requires
            old(self).wf(),
            old(fetcher).wf(),
        ensures
            final(self).wf(),
            final(fetcher).wf(),
            final(self).window_len() == old(self).window_len(),
            final(self).block_size() == old(self).block_size(),
            final(self).active_len() <= final(self).window_len(),
            final(self).pending().len() == final(self).active_len(),
            final(fetcher).data() == old(fetcher).data(),
            match r {
                Err(e) => {
                    &&& old(self).delta_to(blk_id.0) > old(self).active_len()
                    &&& e == Error::Protocol("blk-id out of window")
                    &&& *final(self) == *old(self)
                    &&& *final(fetcher) == *old(fetcher)
                },
                Ok(wasted) => fill_result(*old(self), *final(self), old(fetcher).data(),
                    old(fetcher).cursor(), final(fetcher).cursor(), blk_id.0, wasted),
            },
            old(self).delta_to(blk_id.0) <= old(self).active_len() ==> r is Ok,
    {
        let ghost d = self.delta_to(blk_id.0);
        let wasted = self.free_blocks(blk_id)?;
        let ghost kept = self.pending();
        let ghost pos0 = fetcher.cursor();
        let ghost len = fetcher.data().len() as int;
        let ghost bs = self.blk_size as int;
        let ghost mut k: int = 0;
        proof {
            assert(self.pending() =~= kept + Seq::new(0, |j: int| chunk(fetcher.data(), pos0, bs, j)));
            assert(fetcher.cursor() == next_cursor(len, pos0, 0 * bs));
        }
        while self.active_sz < self.window_size() && !self.is_eof
            invariant
                self.wf(),
                fetcher.wf(),
                self.blk_size as int == bs,
                self.blocks@.len() == old(self).blocks@.len(),
                self.start_seq.0 == blk_id.0,
                fetcher.data() == old(fetcher).data(),
                len == fetcher.data().len(),
                0 <= k,
                self.active_sz as int == kept.len() + k,
                self.pending() == kept + Seq::new(k as nat, |j: int| chunk(fetcher.data(), pos0, bs, j)),
                fetcher.cursor() == next_cursor(len, pos0, k * bs),
                forall|j: int| 0 <= j < k - 1 ==> #[trigger] chunk(fetcher.data(), pos0, bs, j).len() == bs,
                old(self).is_eof ==> self.is_eof && k == 0,
                self.is_eof == (old(self).is_eof || (k > 0 && chunk(fetcher.data(), pos0, bs, k - 1).len() < bs)),
                pos0 == old(fetcher).cursor(),
                0 <= pos0 <= len,
            decreases old(self).blocks@.len() - self.active_sz,
        {
            let ghost before = self.pending();
            proof {
                if k > 0 {
                    assert((k - 1) * bs + bs == k * bs) by (nonlinear_arith);
                    assert((k - 1) * bs >= 0) by (nonlinear_arith)
                        requires k >= 1, bs >= 0;
                    assert(chunk(fetcher.data(), pos0, bs, k - 1).len() == bs);
                }
            }
            let p = self.alloc_block();
            let ghost mid = self.pending();
            assert(p as int == self.slot(self.active_sz - 1));
            let mut b = Block::new_ref(self.blk_size);
            let sz: usize = if fetcher.is_eof() {
                b.init();
                0
            } else {
                match b.fill(fetcher) {
                    Ok(n) => n,
                    Err(e) => { return Err(e); },
                }
            };
            proof {
                assert((k + 1) * bs == k * bs + bs) by (nonlinear_arith);
                assert(k * bs >= 0) by (nonlinear_arith)
                    requires k >= 0, bs >= 0;
                assert(b.bytes() =~= chunk(fetcher.data(), pos0, bs, k));
            }
            let ghost blocks_before = self.blocks@;
            self.blocks.set(p, b);
            proof {
                self.lemma_slots_distinct(self.active_sz - 1, p as int);
                assert(mid == before.push(Seq::<u8>::empty()));
                assert forall|i: int| 0 <= i < self.active_sz - 1 implies self.pending()[i] == before[i] by {
                    assert(self.slot(i) != p as int);
                    assert(0 <= self.slot(i) < self.blocks.len()) by {
                        vstd::arithmetic::div_mod::lemma_mod_bound(self.start_idx as int + i, self.blocks.len() as int);
                    }
                    assert(self.blocks@[self.slot(i)] == blocks_before[self.slot(i)]);
                    assert(mid[i] == before[i]);
                }
                assert(self.pending()[self.active_sz - 1] == chunk(fetcher.data(), pos0, bs, k));
                assert(self.pending() =~= before.push(chunk(fetcher.data(), pos0, bs, k)));
                assert(kept + Seq::new((k + 1) as nat, |j: int| chunk(fetcher.data(), pos0, bs, j))
                    =~= (kept + Seq::new(k as nat, |j: int| chunk(fetcher.data(), pos0, bs, j))).push(
                    chunk(fetcher.data(), pos0, bs, k)));
            }
            if sz < self.blk_size as usize {
                self.is_eof = true;
            }
            proof {
                k = k + 1;
                assert(fetcher.cursor() == next_cursor(len, pos0, k * bs));
            }
        }
        Ok(wasted)
    }

    /// True once the source ended and every block was acknowledged.
    pub fn is_eof(&self) -> (r: bool)
        ensures
            r == (self.eof_seen() && self.active_len() == 0),
    {
        self.is_eof && self.active_sz == 0
    }

    /// The DATA datagrams of the pending blocks, in order.
    pub fn iter(&self) -> (r: Vec<Datagram>)
        requires
            self.wf(),
        ensures
            r@.len() == self.active_len(),
            forall|i: int|
                0 <= i < r@.len() ==> #[trigger] r@[i]@ == DatagramSpec::Data(
                    ((self.first_seq() + i) % seq_modulus()) as u16,
                    self.pending()[i],
                ),
    {
        let mut r: Vec<Datagram> = Vec::new();
        let mut i: u16 = 0;
        while i < self.active_sz
            invariant
                self.wf(),
                i <= self.active_sz,
                r@.len() == i,
                forall|j: int|
                    0 <= j < i ==> #[trigger] r@[j]@ == DatagramSpec::Data(
                        ((self.first_seq() + j) % seq_modulus()) as u16,
                        self.pending()[j],
                    ),
            decreases self.active_sz - i,
        {
            match self.get_rel_block(i) {
                Some((seq, d)) => {
                    r.push(Datagram::Data(seq, d));
                },
                None => {},
            }
            i += 1;
        }
        r
    }
}

/// What the bytes sent again after an ACK amount to: nothing when the
/// window did not move or was taken whole, else the blocks that stay.
pub open spec fn wasted_len(pending: Seq<Seq<u8>>, d: int) -> int {
    if d == 0 || d == pending.len() {
        0
    } else {
        total_len(pending.skip(d))
    }
}

/// The outcome of a successful `fill_window(blk_id)` on window `a`, giving
/// window `b`, with the source `data` read from `pos0` to `pos1`.
pub open spec fn fill_result(a: Xfer, b: Xfer, data: Seq<u8>, pos0: int, pos1: int, blk_id: u16, wasted: u64) -> bool {
    let d = a.delta_to(blk_id);
    let kept = a.pending().skip(d);
    let n = b.active_len() - kept.len();
    let bs = a.block_size() as int;
    &&& d <= a.active_len()
    &&& b.first_seq() == blk_id
    &&& n >= 0
    &&& b.pending() == kept + Seq::new(n as nat, |j: int| chunk(data, pos0, bs, j))
    &&& wasted == wasted_len(a.pending(), d)
    &&& pos1 == next_cursor(data.len() as int, pos0, n * bs)
    &&& forall|j: int| 0 <= j < n ==> #[trigger] chunk(data, pos0, bs, j).len() == bs || j == n - 1
    &&& b.eof_seen() == (a.eof_seen() || (n > 0 && chunk(data, pos0, bs, n - 1).len() < bs))
    &&& (a.eof_seen() ==> n == 0)
    &&& (!b.eof_seen() ==> b.active_len() == b.window_len())
}

/// The fresh blocks that a fill appended hold, together, exactly the bytes
/// that it read from the source.
pub proof fn lemma_chunks_total(data: Seq<u8>, pos: int, bs: int, n: int)
    requires
        0 <= pos <= data.len(),
        bs >= 0,
        n >= 0,
    ensures
        total_len(Seq::new(n as nat, |j: int| chunk(data, pos, bs, j))) == next_cursor(
            data.len() as int,
            pos,
            n * bs,
        ) - pos,
    decreases n,
{
    if n > 0 {
        lemma_chunks_total(data, pos, bs, n - 1);
        assert(Seq::new(n as nat, |j: int| chunk(data, pos, bs, j)).drop_last() =~= Seq::new(
            (n - 1) as nat,
            |j: int| chunk(data, pos, bs, j),
        ));
        assert((n - 1) * bs + bs == n * bs) by (nonlinear_arith);
        assert((n - 1 + 1) * bs == n * bs);
        assert((n - 1) * bs >= 0) by (nonlinear_arith)
            requires n >= 1, bs >= 0;
        let s = Seq::new(n as nat, |j: int| chunk(data, pos, bs, j));
        assert(s.last() == chunk(data, pos, bs, n - 1));
    } else {
        assert(0 * bs == 0);
    }
}

/// Window closure: when the ACK names `x`, `k` blocks past the first
/// pending one (`k` at most the number pending), the window afterwards
/// starts at `x` and holds the `active - k` blocks that stayed, followed by
/// the freshly filled blocks, which are the next blocks of the source.
pub proof fn lemma_window_closure(
    a: Xfer,
    b: Xfer,
    data: Seq<u8>,
    pos0: int,
    pos1: int,
    x: u16,
    wasted: u64,
    k: int,
)
    requires
        a.wf(),
        0 <= k <= a.active_len(),
        x as int == (a.first_seq() + k) % seq_modulus(),
        fill_result(a, b, data, pos0, pos1, x, wasted),
    ensures
        a.delta_to(x) == k,
        b.first_seq() == x,
        b.active_len() >= a.active_len() - k,
        b.pending().subrange(0, a.active_len() - k) == a.pending().skip(k),
        forall|j: int|
            0 <= j < b.active_len() - (a.active_len() - k) ==> #[trigger] b.pending()[a.active_len()
                - k + j] == chunk(data, pos0, a.block_size() as int, j),
{
    let f = a.first_seq() as int;
    if a.active_len() > 0 {
        if f + k < 0x10000 {
            assert((f + k) % 0x10000 == f + k);
            assert((f + k - f) % 0x10000 == k);
        } else {
            assert((f + k) % 0x10000 == f + k - 0x10000) by {
                vstd::arithmetic::div_mod::lemma_fundamental_div_mod_converse(f + k, 0x10000, 1, f + k - 0x10000);
            }
            assert((f + k - 0x10000 - f) % 0x10000 == k) by {
                vstd::arithmetic::div_mod::lemma_fundamental_div_mod_converse(k - 0x10000, 0x10000, -1, k);
            }
        }
    }
    let kept = a.pending().skip(k);
    let n = b.active_len() - kept.len();
    let bs = a.block_size() as int;
    assert(b.pending().subrange(0, a.active_len() - k) =~= kept);
    assert forall|j: int| 0 <= j < n implies #[trigger] b.pending()[a.active_len() - k + j] == chunk(
        data,
        pos0,
        bs,
        j,
    ) by {
        assert(b.pending()[kept.len() + j] == Seq::new(n as nat, |i: int| chunk(data, pos0, bs, i))[j]);
    }
}

/// No double count: the bytes that a fill places in the window for the
/// first time are exactly the bytes it reads from the source, and once the
/// end of the source is seen the source has been read to its end. Summed
/// over the windows of a transfer, the bytes sent for the first time are
/// the file, once.
pub proof fn lemma_fill_reads_once(a: Xfer, b: Xfer, data: Seq<u8>, pos0: int, pos1: int, x: u16, wasted: u64)
    requires
        fill_result(a, b, data, pos0, pos1, x, wasted),
        0 <= pos0 <= data.len(),
    ensures
        total_len(b.pending().skip(a.pending().skip(a.delta_to(x)).len() as int)) == pos1 - pos0,
        b.eof_seen() && !a.eof_seen() ==> pos1 == data.len(),
{
    let kept = a.pending().skip(a.delta_to(x));
    let n = b.active_len() - kept.len();
    let bs = a.block_size() as int;
    let fresh = Seq::new(n as nat, |j: int| chunk(data, pos0, bs, j));
    assert(b.pending().skip(kept.len() as int) =~= fresh);
    lemma_chunks_total(data, pos0, bs, n);
    if b.eof_seen() && !a.eof_seen() {
        assert(chunk(data, pos0, bs, n - 1).len() < bs);
        assert((n - 1) * bs + bs == n * bs) by (nonlinear_arith);
        assert((n - 1) * bs >= 0) by (nonlinear_arith)
            requires n >= 1, bs >= 0;
    }
}

/// The blocks that a fill from window `a` to window `b` (on an ACK of `x`)
/// placed in the window for the first time.
pub open spec fn fresh_blocks(a: Xfer, b: Xfer, x: u16) -> Seq<Seq<u8>> {
    b.pending().skip(a.pending().skip(a.delta_to(x)).len() as int)
}

/// The bytes sent for the first time over the first `n` fills of a run.
pub open spec fn fresh_total(wins: Seq<Xfer>, acks: Seq<u16>, n: int) -> int
    decreases n,
{
    if n <= 0 {
        0
    } else {
        fresh_total(wins, acks, n - 1) + total_len(fresh_blocks(wins[n - 1], wins[n], acks[n - 1]))
    }
}

/// No double count over a whole transfer: when a run of fills starts at
/// the beginning of the source with a window that has not seen its end, and
/// the last window has seen it, the blocks sent for the first time add up
/// to the file, each byte once.
pub proof fn lemma_transfer_sends_file(
    wins: Seq<Xfer>,
    pos: Seq<int>,
    acks: Seq<u16>,
    wasted: Seq<u64>,
    data: Seq<u8>,
)
    requires
        wins.len() == pos.len(),
        pos.len() == acks.len() + 1,
        acks.len() == wasted.len(),
        pos[0] == 0,
        !wins[0].eof_seen(),
        wins.last().eof_seen(),
        forall|i: int|
            0 <= i < acks.len() ==> #[trigger] fill_result(wins[i], wins[i + 1], data, pos[i], pos[i + 1], acks[i], wasted[i]),
    ensures
        fresh_total(wins, acks, acks.len() as int) == data.len(),
{
    lemma_run_prefix(wins, pos, acks, wasted, data, acks.len() as int);
}

proof fn lemma_run_prefix(
    wins: Seq<Xfer>,
    pos: Seq<int>,
    acks: Seq<u16>,
    wasted: Seq<u64>,
    data: Seq<u8>,
    k: int,
)
    requires
        wins.len() == pos.len(),
        pos.len() == acks.len() + 1,
        acks.len() == wasted.len(),
        pos[0] == 0,
        !wins[0].eof_seen(),
        0 <= k <= acks.len(),
        forall|i: int|
            0 <= i < acks.len() ==> #[trigger] fill_result(wins[i], wins[i + 1], data, pos[i], pos[i + 1], acks[i], wasted[i]),
    ensures
        0 <= pos[k] <= data.len(),
        fresh_total(wins, acks, k) == pos[k],
        wins[k].eof_seen() ==> pos[k] == data.len(),
    decreases k,
{
    if k > 0 {
        let j = k - 1;
        lemma_run_prefix(wins, pos, acks, wasted, data, j);
        assert(fill_result(wins[j], wins[j + 1], data, pos[j], pos[j + 1], acks[j], wasted[j]));
        lemma_fill_reads_once(wins[j], wins[j + 1], data, pos[j], pos[j + 1], acks[j], wasted[j]);
        let kept = wins[j].pending().skip(wins[j].delta_to(acks[j]));
        let m = wins[j + 1].active_len() - kept.len();
        let bs = wins[j].block_size() as int;
        assert(m * bs >= 0) by (nonlinear_arith)
            requires m >= 0, bs >= 0;
        if wins[j].eof_seen() {
            assert(m == 0);
            assert(m * bs == 0);
        }
    }
}

} // verus!
