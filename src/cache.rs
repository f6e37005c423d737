//! The cache entry of one URL: a state machine that takes the origin's
//! response, its metadata and its body chunk by chunk, and serves reads of
//! the part already received. The caller owns the response stream: it hands
//! over the metadata and each chunk as it arrives.
use vstd::prelude::*;
use crate::cache_info::{expiration, headers_info, merged, opt_view, CacheInfo, CacheInfoSpec, ResponseHeaders};
use crate::datagram::copy_range;
use crate::errors::{Error, Result};
use crate::time::Time;

verus! {

/// What the cache keeps of a response before its body: headers and the
/// announced length.
#[derive(Clone, Debug)]
pub struct ResponseMeta {
    pub headers: ResponseHeaders,
    pub content_length: Option<u64>,
}

/// The states of an entry; `file` holds the body received so far.
#[derive(Debug)]
pub enum State {
    Empty,
    Error(&'static str),
    Init { meta: ResponseMeta },
    HaveMeta { cache_info: CacheInfo, file_size: Option<u64> },
    Downloading { cache_info: CacheInfo, file_size: Option<u64>, file: Vec<u8> },
    Complete { cache_info: CacheInfo, file: Vec<u8>, file_size: u64 },
    Refresh { meta: ResponseMeta, cache_info: CacheInfo, file: Vec<u8>, file_size: u64 },
}

/// The body bytes that a state holds.
pub open spec fn file_of(s: State) -> Seq<u8> {
    match s {
        State::Downloading { file, .. } => file@,
        State::Complete { file, .. } => file@,
        State::Refresh { file, .. } => file@,
        _ => Seq::empty(),
    }
}

/// The size of the body where it is known.
pub open spec fn size_of(s: State) -> Option<u64> {
    match s {
        State::HaveMeta { file_size, .. } => file_size,
        State::Downloading { file_size, .. } => file_size,
        State::Complete { file_size, .. } => Some(file_size),
        State::Refresh { file_size, .. } => Some(file_size),
        _ => None,
    }
}

pub open spec fn info_of(s: State) -> Option<CacheInfoSpec> {
    match s {
        State::HaveMeta { cache_info, .. } => Some(cache_info@),
        State::Downloading { cache_info, .. } => Some(cache_info@),
        State::Complete { cache_info, .. } => Some(cache_info@),
        State::Refresh { cache_info, .. } => Some(cache_info@),
        _ => None,
    }
}

/// What a read of up to `len` bytes at `ofs` gives in state `s`: the bytes
/// where they were received, `None` where more must be received first, an
/// error past the end of a complete body.
pub open spec fn read_spec(s: State, ofs: u64, len: usize) -> Result<Option<Seq<u8>>> {
    match s {
        State::Downloading { file, .. } => if ofs < file@.len() {
            Ok(Some(file@.subrange(ofs as int, if ofs + len < file@.len() { ofs + len } else { file@.len() as int })))
        } else {
            Ok(None)
        },
        State::Complete { file, file_size, .. } => if ofs < file_size {
            Ok(Some(file@.subrange(ofs as int, if ofs + len < file_size { ofs + len } else { file_size as int })))
        } else if ofs == file_size {
            Ok(Some(Seq::empty()))
        } else {
            Err(Error::OutOfBounds)
        },
        _ => Ok(None),
    }
}

/// The cache entry of one URL. `origin` is the body that the current
/// response delivered so far.
pub struct EntryData {
    pub key: String,
    pub state: State,
    pub reftm: Time,
    pub origin: Ghost<Seq<u8>>,
}

impl EntryData {
    pub open spec fn wf(&self) -> bool {
        match self.state {
            State::Empty | State::Error(_) | State::Init { .. } | State::HaveMeta { .. } => self.origin@ == Seq::<u8>::empty(),
            State::Downloading { file, .. } => file@ == self.origin@,
            State::Complete { file, file_size, .. } => file@ == self.origin@ && file_size == file@.len(),
            State::Refresh { file, file_size, .. } => file@ == self.origin@ && file_size == file@.len(),
        }
    }

    /// A new, empty entry for `key`.
    pub fn new(key: String) -> (r: EntryData)
        ensures
            r.wf(),
            r.key@ == key@,
            r.state is Empty,
    {
        EntryData { key, state: State::Empty, reftm: Time::now(), origin: Ghost(Seq::empty()) }
    }

    pub fn is_complete(&self) -> (r: bool)
        ensures
            r == self.state is Complete,
    {
        match self.state {
            State::Complete { .. } => true,
            _ => false,
        }
    }

    pub fn is_error(&self) -> (r: bool)
        ensures
            r == self.state is Error,
    {
        match self.state {
            State::Error(_) => true,
            _ => false,
        }
    }

    /// Whether a download is under way.
    pub fn is_running(&self) -> (r: bool)
        ensures
            r == (self.state is HaveMeta || self.state is Downloading),
    {
        match self.state {
            State::HaveMeta { .. } | State::Downloading { .. } => true,
            _ => false,
        }
    }

    /// Notes the moment of a request to the origin.
    pub fn update_localtm(&mut self)
        ensures
            final(self).state == old(self).state,
            final(self).key == old(self).key,
            final(self).origin == old(self).origin,
    {
        self.reftm = Time::now();
    }

    /// The size of the body where it is known.
    pub fn get_file_size(&self) -> (r: Option<u64>)
        ensures
            r == size_of(self.state),
    {
        match &self.state {
            State::HaveMeta { file_size, .. } => *file_size,
            State::Downloading { file_size, .. } => *file_size,
            State::Complete { file_size, .. } => Some(*file_size),
            State::Refresh { file_size, .. } => Some(*file_size),
            _ => None,
        }
    }

    pub fn get_cache_info(&self) -> (r: Option<CacheInfo>)
        ensures
            match r {
                Some(c) => info_of(self.state) == Some(c@),
                None => info_of(self.state) is None,
            },
    {
        match &self.state {
            State::HaveMeta { cache_info, .. } => Some(cache_info.duplicate()),
            State::Downloading { cache_info, .. } => Some(cache_info.duplicate()),
            State::Complete { cache_info, .. } => Some(cache_info.duplicate()),
            State::Refresh { cache_info, .. } => Some(cache_info.duplicate()),
            _ => None,
        }
    }

    /// Whether the entry is stale at `reftm` when nothing may be kept longer
    /// than `max_lt` seconds; an entry without metadata is stale.
    pub fn is_outdated(&self, reftm: u64, max_lt: u64) -> (r: bool)
        ensures
            r == match info_of(self.state) {
                None => true,
                Some(i) => reftm >= expiration(i, max_lt),
            },
    {
        match &self.state {
            State::HaveMeta { cache_info, .. } => cache_info.is_outdated(reftm, max_lt),
            State::Downloading { cache_info, .. } => cache_info.is_outdated(reftm, max_lt),
            State::Complete { cache_info, .. } => cache_info.is_outdated(reftm, max_lt),
            State::Refresh { cache_info, .. } => cache_info.is_outdated(reftm, max_lt),
            _ => true,
        }
    }

    /// Takes a response of the origin: a first one, or one that revalidates
    /// the body already held.
    pub fn set_response(&mut self, meta: ResponseMeta)
        requires
            old(self).wf(),
            old(self).state is Empty || old(self).state is Error || old(self).state is Complete
                || old(self).state is Refresh,
        ensures
            final(self).wf(),
            final(self).key == old(self).key,
            final(self).reftm == old(self).reftm,
            old(self).state is Empty || old(self).state is Error ==> (final(self).state matches State::Init { meta: m } && m == meta)
                && final(self).origin@ == Seq::<u8>::empty(),
            old(self).state is Complete || old(self).state is Refresh ==> (final(self).state matches State::Refresh { meta: m, .. } && m == meta)
                && file_of(final(self).state) == file_of(old(self).state)
                && size_of(final(self).state) == size_of(old(self).state)
                && info_of(final(self).state) == info_of(old(self).state)
                && final(self).origin == old(self).origin,
    {
        let mut st = State::Error("set_response");
        core::mem::swap(&mut self.state, &mut st);
        self.state = match st {
            State::Complete { cache_info, file, file_size } => State::Refresh { meta, cache_info, file, file_size },
            State::Refresh { cache_info, file, file_size, .. } => State::Refresh { meta, cache_info, file, file_size },
            _ => State::Init { meta },
        };
    }

    /// Reads the metadata of the response taken last: a first response
    /// gives its cache metadata and length; a revalidation merges into the
    /// metadata held and the body stays. Other states are left as they are.
    /// Where the headers are malformed the entry turns into an error.
    pub fn fill_meta(&mut self) -> (r: Result<()>)
        requires
            old(self).wf(),
            !(old(self).state is Empty),
        ensures
            final(self).wf(),
            final(self).key == old(self).key,
            final(self).reftm == old(self).reftm,
            match old(self).state {
                State::Init { meta } => match headers_info(old(self).reftm, meta.headers) {
                    Ok(i) => r is Ok && (final(self).state matches State::HaveMeta { cache_info, file_size }
                        && cache_info@ == i && file_size == meta.content_length),
                    Err(e) => r matches Err(x) && x == e && final(self).state is Error,
                },
                State::Refresh { meta, cache_info, .. } => match headers_info(old(self).reftm, meta.headers) {
                    Ok(i) => r is Ok && final(self).state is Complete
                        && file_of(final(self).state) == file_of(old(self).state)
                        && size_of(final(self).state) == size_of(old(self).state)
                        && info_of(final(self).state) == Some(merged(cache_info@, i))
                        && final(self).origin == old(self).origin,
                    Err(e) => r matches Err(x) && x == e && final(self).state is Error,
                },
                _ => r is Ok && final(self).state == old(self).state && final(self).origin == old(self).origin,
            },
    {
        let mut st = State::Error("fill_meta");
        core::mem::swap(&mut self.state, &mut st);
        match st {
            State::Init { meta } => {
                match CacheInfo::new(self.reftm, &meta.headers) {
                    Ok(ci) => {
                        self.state = State::HaveMeta { cache_info: ci, file_size: meta.content_length };
                        Ok(())
                    },
                    Err(e) => {
                        proof { self.origin = Ghost(Seq::empty()); }
                        Err(e)
                    },
                }
            },
            State::Refresh { meta, cache_info, file, file_size } => {
                match cache_info.update(self.reftm, &meta.headers) {
                    Ok(ci) => {
                        self.state = State::Complete { cache_info: ci, file, file_size };
                        Ok(())
                    },
                    Err(e) => {
                        proof { self.origin = Ghost(Seq::empty()); }
                        Err(e)
                    },
                }
            },
            other => {
                self.state = other;
                Ok(())
            },
        }
    }

    /// Reads up to `len` bytes at `ofs` of the body received so far, as
    /// `read_spec` says.
    pub fn read(&self, ofs: u64, len: usize) -> (r: Result<Option<Vec<u8>>>)
        requires
            self.wf(),
        ensures
            match read_spec(self.state, ofs, len) {
                Ok(Some(b)) => r matches Ok(Some(v)) && v@ == b,
                Ok(None) => r matches Ok(None),
                Err(e) => r matches Err(x) && x == e,
            },
    {
        match &self.state {
            State::Downloading { file, .. } => {
                if ofs < file.len() as u64 {
                    let o = ofs as usize;
                    let end = if len < file.len() - o {
                        o + len
                    } else {
                        file.len()
                    };
                    Ok(Some(copy_range(file.as_slice(), o, end)))
                } else {
                    Ok(None)
                }
            },
            State::Complete { file, file_size, .. } => {
                if ofs < *file_size {
                    let o = ofs as usize;
                    let end = if len < file.len() - o {
                        o + len
                    } else {
                        file.len()
                    };
                    Ok(Some(copy_range(file.as_slice(), o, end)))
                } else if ofs == *file_size {
                    Ok(Some(Vec::new()))
                } else {
                    Err(Error::OutOfBounds)
                }
            },
            _ => Ok(None),
        }
    }

    /// Takes the next chunk of the body (`None` at its end) and returns its
    /// first `cap` bytes.
    pub fn push_chunk(&mut self, chunk: Option<&[u8]>, cap: usize) -> (r: Vec<u8>)
        requires
            old(self).wf(),
            old(self).state is HaveMeta || old(self).state is Downloading,
        ensures
            final(self).wf(),
            final(self).key == old(self).key,
            final(self).reftm == old(self).reftm,
            info_of(final(self).state) == info_of(old(self).state),
            match chunk {
                None => final(self).state is Complete && final(self).origin == old(self).origin
                    && r@.len() == 0,
                Some(c) => final(self).state is Downloading
                    && final(self).origin@ == old(self).origin@ + c@
                    && size_of(final(self).state) == size_of(old(self).state)
                    && r@ == c@.subrange(0, if cap < c@.len() { cap as int } else { c@.len() as int }),
            },
    {
        let mut st = State::Error("push_chunk");
        core::mem::swap(&mut self.state, &mut st);
        let (cache_info, file_size, mut file) = match st {
            State::HaveMeta { cache_info, file_size } => (cache_info, file_size, Vec::new()),
            State::Downloading { cache_info, file_size, file } => (cache_info, file_size, file),
            _ => {
                proof { assert(false); }
                (CacheInfo { not_after: None, modified: None, etag: None, local_time: 0 }, None, Vec::new())
            },
        };
        match chunk {
            None => {
                let n = file.len() as u64;
                self.state = State::Complete { cache_info, file, file_size: n };
                Vec::new()
            },
            Some(c) => {
                let ghost f0 = file@;
                let mut i: usize = 0;
                while i < c.len()
                    invariant
                        i <= c.len(),
                        file@ == f0 + c@.subrange(0, i as int),
                    decreases c.len() - i,
                {
                    file.push(c[i]);
                    assert(c@.subrange(0, i + 1) =~= c@.subrange(0, i as int).push(c@[i as int]));
                    assert(f0 + c@.subrange(0, i + 1) =~= (f0 + c@.subrange(0, i as int)).push(c@[i as int]));
                    i += 1;
                }
                assert(c@.subrange(0, c.len() as int) =~= c@);
                proof { self.origin = Ghost(self.origin@ + c@); }
                self.state = State::Downloading { cache_info, file_size, file };
                let n = if cap < c.len() {
                    cap
                } else {
                    c.len()
                };
                copy_range(c, 0, n)
            },
        }
    }

    /// The headers of a conditional request for the body held.
    pub fn fill_request(&self) -> (r: Vec<(&'static str, Vec<u8>)>)
        ensures
            info_of(self.state) is None ==> r@.len() == 0,
            info_of(self.state) matches Some(i) ==> r@.len() == crate::cache_info::conditional_headers(i, self.reftm.mono).len()
                && forall|k: int| 0 <= k < r@.len() ==> #[trigger] r@[k].0 == crate::cache_info::conditional_headers(i, self.reftm.mono)[k].0
                    && r@[k].1@ == crate::cache_info::conditional_headers(i, self.reftm.mono)[k].1,
    {
        match self.get_cache_info() {
            Some(c) => c.fill_request(self.reftm.mono),
            None => Vec::new(),
        }
    }

    /// Whether the body held is fresh at `now` and carries the entity tag
    /// `etag`.
    pub fn matches(&self, etag: &Option<Vec<u8>>, now: u64) -> (r: bool)
        ensures
            r == match info_of(self.state) {
                Some(i) => !(i.not_after matches Some(t) && t < now) && i.etag == opt_view(*etag),
                None => etag is None,
            },
    {
        match self.get_cache_info() {
            Some(c) => {
                if let Some(t) = c.not_after {
                    if t < now {
                        return false;
                    }
                }
                c.etag_matches(etag)
            },
            None => etag.is_none(),
        }
    }

    /// Drops the body held, so that a new response starts afresh.
    pub fn invalidate(&mut self)
        requires
            old(self).wf(),
        ensures
            final(self).wf(),
            final(self).key == old(self).key,
            final(self).reftm == old(self).reftm,
            old(self).state is Complete || old(self).state is Refresh ==> final(self).state is Empty,
            !(old(self).state is Complete || old(self).state is Refresh) ==> final(self).state == old(self).state
                && final(self).origin == old(self).origin,
    {
        match self.state {
            State::Complete { .. } | State::Refresh { .. } => {
                self.state = State::Empty;
                proof { self.origin = Ghost(Seq::empty()); }
            },
            _ => {},
        }
    }

    /// Notes that the origin's response failed while its body was read: the
    /// entry turns into an error and drops what it held.
    pub fn fail(&mut self, hint: &'static str)
        requires
            old(self).wf(),
            old(self).state is HaveMeta || old(self).state is Downloading,
        ensures
            final(self).wf(),
            final(self).state == State::Error(hint),
            final(self).key == old(self).key,
            final(self).reftm == old(self).reftm,
    {
        self.state = State::Error(hint);
        proof { self.origin = Ghost(Seq::empty()); }
    }

    /// Takes the origin's answer to a (conditional) GET: 304 keeps the body
    /// and refreshes its metadata, 200 replaces it, any other status fails.
    pub fn apply_response(&mut self, status: u16, meta: ResponseMeta) -> (r: Result<()>)
        requires
            old(self).wf(),
            old(self).state is Empty || old(self).state is Error || old(self).state is Complete
                || old(self).state is Refresh,
        ensures
            final(self).wf(),
            final(self).key == old(self).key,
            response_outcome(*old(self), *final(self), status, meta, r),
    {
        if status == 304 {
            self.set_response(meta);
            self.fill_meta()
        } else if status == 200 {
            self.invalidate();
            self.set_response(meta);
            self.fill_meta()
        } else {
            Err(Error::HttpStatus(status))
        }
    }
}

/// What taking the origin's answer `status`, `meta` does to an entry `old`,
/// giving `new` and the result `r`: 304 on a complete body keeps it and
/// merges the metadata; 200, or 304 where no body is held, starts afresh; any
/// other status fails and leaves the entry as it was. Malformed headers turn
/// the entry into an error.
pub open spec fn response_outcome(old: EntryData, new: EntryData, status: u16, meta: ResponseMeta, r: Result<()>) -> bool {
    &&& new.wf()
    &&& new.key == old.key
    &&& new.reftm == old.reftm
    &&& if status != 200 && status != 304 {
        r == Err::<(), Error>(Error::HttpStatus(status)) && new.state == old.state && new.origin == old.origin
    } else if status == 304 && (old.state is Complete || old.state is Refresh) {
        match headers_info(old.reftm, meta.headers) {
            Ok(i) => r is Ok && new.state is Complete
                && file_of(new.state) == file_of(old.state)
                && size_of(new.state) == size_of(old.state)
                && info_of(new.state) == Some(merged(info_of(old.state)->Some_0, i))
                && new.origin == old.origin,
            Err(e) => r == Err::<(), Error>(e) && new.state is Error,
        }
    } else {
        match headers_info(old.reftm, meta.headers) {
            Ok(i) => r is Ok && (new.state matches State::HaveMeta { cache_info, file_size }
                && cache_info@ == i && file_size == meta.content_length)
                && new.origin@ == Seq::<u8>::empty(),
            Err(e) => r == Err::<(), Error>(e) && new.state is Error,
        }
    }
}

/// Cache idempotence: a complete entry that is revalidated and hears 304
/// (Not Modified) stays complete with the same body and size, and its
/// metadata is the old one refreshed by the new headers.
pub proof fn lemma_revalidate_keeps_body(before: EntryData, after: EntryData, meta: ResponseMeta, r: Result<()>)
    requires
        before.wf(),
        before.state is Complete,
        response_outcome(before, after, 304, meta, r),
        r is Ok,
    ensures
        after.state is Complete,
        file_of(after.state) == file_of(before.state),
        size_of(after.state) == size_of(before.state),
        after.origin == before.origin,
        exists|i: crate::cache_info::CacheInfoSpec|
            headers_info(before.reftm, meta.headers) == Ok::<crate::cache_info::CacheInfoSpec, Error>(i)
                && info_of(after.state) == Some(merged(info_of(before.state)->Some_0, i)),
{
    match headers_info(before.reftm, meta.headers) {
        Ok(i) => {
            assert(info_of(after.state) == Some(merged(info_of(before.state)->Some_0, i)));
        },
        Err(e) => {},
    }
}

/// Cache visibility: while an entry downloads, a read below the received
/// length gives the origin's bytes at those offsets.
pub proof fn lemma_read_sees_origin(e: EntryData, ofs: u64, len: usize)
    requires
        e.wf(),
        e.state is Downloading,
        ofs < e.origin@.len(),
    ensures
        read_spec(e.state, ofs, len) == Ok::<Option<Seq<u8>>, Error>(Some(e.origin@.subrange(
            ofs as int,
            if ofs + len < e.origin@.len() { ofs + len } else { e.origin@.len() as int },
        ))),
{
}

} // verus!
