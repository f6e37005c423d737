//! Admission control: a counting semaphore that never blocks.
use vstd::prelude::*;

verus! {

/// A semaphore with `level` free places out of `capacity`; `held` places are
/// taken by guards.
#[derive(Debug)]
pub struct Bucket {
    level: u32,
    held: u32,
    capacity: u32,
}

/// A taken place of a `Bucket`.
#[derive(Debug)]
pub struct BucketGuard {
    token: (),
}

impl Bucket {
    pub closed spec fn free(&self) -> int {
        self.level as int
    }

    pub closed spec fn acquired(&self) -> int {
        self.held as int
    }

    pub closed spec fn max(&self) -> int {
        self.capacity as int
    }

    pub closed spec fn wf(&self) -> bool {
        self.level as int + self.held as int == self.capacity as int
    }

    pub fn new(level: u32) -> (r: Bucket)
        ensures
            r.wf(),
            r.free() == level,
            r.acquired() == 0,
            r.max() == level,
    {
        Bucket { level, held: 0, capacity: level }
    }

    pub fn level(&self) -> (r: u32)
        ensures
            r == self.free(),
    {
        self.level
    }

    /// Takes a place if one is free.
    pub fn acquire(&mut self) -> (r: Option<BucketGuard>)
        requires
            old(self).wf(),
        ensures
            final(self).wf(),
            final(self).max() == old(self).max(),
            old(self).free() > 0 ==> r is Some && final(self).free() == old(self).free() - 1
                && final(self).acquired() == old(self).acquired() + 1,
            old(self).free() == 0 ==> r is None && final(self).free() == 0
                && final(self).acquired() == old(self).acquired(),
    {
        if self.level == 0 {
            None
        } else {
            self.level = self.level - 1;
            self.held = self.held + 1;
            Some(BucketGuard { token: () })
        }
    }

    /// Gives a place back.
    pub fn release(&mut self, guard: BucketGuard)
        requires
            old(self).wf(),
            old(self).acquired() > 0,
        ensures
            final(self).wf(),
            final(self).max() == old(self).max(),
            final(self).free() == old(self).free() + 1,
            final(self).acquired() == old(self).acquired() - 1,
    {
        let BucketGuard { token: _ } = guard;
        self.level = self.level + 1;
        self.held = self.held - 1;
    }
}

impl BucketGuard {
    /// Gives back the place of `this`, if there is one.
    pub fn release(bucket: &mut Bucket, this: Option<BucketGuard>)
        requires
            old(bucket).wf(),
            this is Some ==> old(bucket).acquired() > 0,
        ensures
            final(bucket).wf(),
            final(bucket).max() == old(bucket).max(),
            this is Some ==> final(bucket).free() == old(bucket).free() + 1
                && final(bucket).acquired() == old(bucket).acquired() - 1,
            this is None ==> final(bucket).free() == old(bucket).free()
                && final(bucket).acquired() == old(bucket).acquired(),
    {
        if let Some(g) = this {
            bucket.release(g);
        }
    }
}

/// Admission: however acquisitions and releases interleave, no more places
/// are taken than the bucket was made with.
pub proof fn lemma_admission(b: Bucket)
    requires
        b.wf(),
    ensures
        0 <= b.acquired() <= b.max(),
{
}

} // verus!
