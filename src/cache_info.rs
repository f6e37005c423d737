//! Cache metadata of a downloaded resource, taken from its response headers.
use vstd::prelude::*;
use crate::cache_control::{all_elements, directive_of, parse_cache_control, CacheControl};
use crate::errors::{Error, Result};
use crate::mode::bytes_equal;
use crate::oack::{decimal, decimal_bytes};
use crate::time::Time;

verus! {

/// What `httpdate::parse_http_date` makes of a header value, in seconds
/// since the Unix epoch.
pub uninterp spec fn http_date_of(s: Seq<u8>) -> Option<u64>;

/// The IMF-fixdate text that `httpdate::fmt_http_date` gives for a moment.
pub uninterp spec fn http_date_text(secs: u64) -> Seq<u8>;

/// Relies on `httpdate::parse_http_date`: the moment that an HTTP-date
/// names, or `None` for text that is no HTTP-date (or names a moment before
/// the Unix epoch). The result depends on the text alone.
#[verifier::external_body]
fn parse_http_date(s: &[u8]) -> (r: Option<u64>)
    ensures
        r == http_date_of(s@),
        r matches Some(t) ==> t < 253402300800,
{
    let t = std::str::from_utf8(s).ok()?;
    let tm = httpdate::parse_http_date(t).ok()?;
    tm.duration_since(std::time::UNIX_EPOCH).ok().map(|d| d.as_secs())
}

/// Relies on `httpdate::fmt_http_date`: the IMF-fixdate text of a moment,
/// which depends on the moment alone. It panics from the year 9999 on.
#[verifier::external_body]
fn format_http_date(secs: u64) -> (r: Vec<u8>)
    requires
        secs < 253402300800,
    ensures
        r@ == http_date_text(secs),
{
    let tm = std::time::UNIX_EPOCH + std::time::Duration::from_secs(secs);
    httpdate::fmt_http_date(tm).into_bytes()
}

/// The response headers that cache metadata is made of, as received.
#[derive(Clone, Debug)]
pub struct ResponseHeaders {
    /// Every Cache-Control value, in order.
    pub cache_control: Vec<Vec<u8>>,
    pub date: Option<Vec<u8>>,
    pub expires: Option<Vec<u8>>,
    pub last_modified: Option<Vec<u8>>,
    pub etag: Option<Vec<u8>>,
}

/// Cache metadata. `not_after` and `local_time` are on the monotonic clock,
/// `modified` on the origin's wall clock; all in seconds.
#[derive(Clone, Debug)]
pub struct CacheInfo {
    pub not_after: Option<u64>,
    pub modified: Option<u64>,
    pub etag: Option<Vec<u8>>,
    pub local_time: u64,
}

pub struct CacheInfoSpec {
    pub not_after: Option<u64>,
    pub modified: Option<u64>,
    pub etag: Option<Seq<u8>>,
    pub local_time: u64,
}

pub open spec fn opt_view(v: Option<Vec<u8>>) -> Option<Seq<u8>> {
    match v {
        Some(x) => Some(x@),
        None => None,
    }
}

impl View for CacheInfo {
    type V = CacheInfoSpec;

    open spec fn view(&self) -> CacheInfoSpec {
        CacheInfoSpec {
            not_after: self.not_after,
            modified: self.modified,
            etag: opt_view(self.etag),
            local_time: self.local_time,
        }
    }
}

/// A date header: absent, or the moment it names (an error where it names none).
pub open spec fn header_date(h: Option<Seq<u8>>) -> Result<Option<u64>> {
    match h {
        None => Ok(None),
        Some(s) => match http_date_of(s) {
            Some(t) => Ok(Some(t)),
            None => Err(Error::BadHttpTime),
        },
    }
}

/// The `max-age` and `s-maxage` in force after the directives `d`: the last
/// one of each counts, `no-cache` counts as `s-maxage=0`, bad ones are
/// ignored.
pub open spec fn ages(d: Seq<Result<CacheControl>>) -> (Option<u64>, Option<u64>)
    decreases d.len(),
{
    if d.len() == 0 {
        (None, None)
    } else {
        let (a, s) = ages(d.drop_last());
        match d.last() {
            Ok(CacheControl::MaxAge(x)) => (Some(x), s),
            Ok(CacheControl::SMaxAge(x)) => (a, Some(x)),
            Ok(CacheControl::NoCache) => (a, Some(0u64)),
            _ => (a, s),
        }
    }
}

pub open spec fn directives_spec(values: Seq<Seq<u8>>) -> Seq<Result<CacheControl>> {
    all_elements(values).map_values(|e: (Seq<u8>, Option<Seq<u8>>)| directive_of(e.0, e.1))
}

/// `mono + delta` where it is a moment of the monotonic clock.
pub open spec fn shifted(mono: int, delta: int) -> Result<Option<u64>> {
    if 0 <= mono + delta <= u64::MAX {
        Ok(Some((mono + delta) as u64))
    } else {
        Err(Error::BadHttpTime)
    }
}

/// The cache metadata of a response received at `tm`: the expiry is
/// `s-maxage` (else `max-age`) after receipt; without either, it is the
/// Expires date, measured from the origin's Date (or the local wall clock)
/// so that the two clocks need not agree.
pub open spec fn cache_info_of(
    tm: Time,
    d: Seq<Result<CacheControl>>,
    date: Option<Seq<u8>>,
    expires: Option<Seq<u8>>,
    last_modified: Option<Seq<u8>>,
    etag: Option<Seq<u8>>,
) -> Result<CacheInfoSpec> {
    match header_date(date) {
        Err(e) => Err(e),
        Ok(dt) => {
            let remote = match dt {
                Some(t) => t,
                None => tm.local,
            };
            let (max_age, max_sage) = ages(d);
            let age = if max_sage is Some { max_sage } else { max_age };
            let not_after = match age {
                Some(a) => shifted(tm.mono as int, a as int),
                None => match header_date(expires) {
                    Err(e) => Err(e),
                    Ok(None) => Ok(None),
                    Ok(Some(x)) => shifted(tm.mono as int, x - remote),
                },
            };
            match not_after {
                Err(e) => Err(e),
                Ok(na) => match header_date(last_modified) {
                    Err(e) => Err(e),
                    Ok(m) => Ok(CacheInfoSpec { not_after: na, modified: m, etag, local_time: tm.mono }),
                },
            }
        },
    }
}

pub open spec fn headers_info(tm: Time, h: ResponseHeaders) -> Result<CacheInfoSpec> {
    cache_info_of(
        tm,
        directives_spec(h.cache_control@.map_values(|v: Vec<u8>| v@)),
        opt_view(h.date),
        opt_view(h.expires),
        opt_view(h.last_modified),
        opt_view(h.etag),
    )
}

fn date_header(h: &Option<Vec<u8>>) -> (r: Result<Option<u64>>)
    ensures
        r == header_date(opt_view(*h)),
{
    match h {
        None => Ok(None),
        Some(s) => match parse_http_date(s.as_slice()) {
            Some(t) => Ok(Some(t)),
            None => Err(Error::BadHttpTime),
        },
    }
}

fn shift(mono: u64, to: u64, from: u64) -> (r: Result<Option<u64>>)
    ensures
        r == shifted(mono as int, to - from),
{
    if to >= from {
        match mono.checked_add(to - from) {
            Some(v) => Ok(Some(v)),
            None => Err(Error::BadHttpTime),
        }
    } else {
        match mono.checked_sub(from - to) {
            Some(v) => Ok(Some(v)),
            None => Err(Error::BadHttpTime),
        }
    }
}

fn clone_opt(v: &Option<Vec<u8>>) -> (r: Option<Vec<u8>>)
    ensures
        opt_view(r) == opt_view(*v),
{
    match v {
        Some(x) => Some(crate::datagram::copy_range(x.as_slice(), 0, x.len())),
        None => None,
    }
}

/// The metadata after a revalidation: what the new response `i` states,
/// and for what it does not state, what `old` held.
pub open spec fn merged(old: CacheInfoSpec, i: CacheInfoSpec) -> CacheInfoSpec {
    CacheInfoSpec {
        not_after: if i.not_after is Some { i.not_after } else { old.not_after },
        modified: if i.modified is Some { i.modified } else { old.modified },
        etag: if i.etag is Some { i.etag } else { old.etag },
        local_time: i.local_time,
    }
}

/// The moment at which metadata `i` stops being fresh when nothing may be
/// kept longer than `max_lt` seconds.
pub open spec fn expiration(i: CacheInfoSpec, max_lt: u64) -> int {
    let cap = i.local_time + max_lt;
    match i.not_after {
        None => cap,
        Some(a) => if a < cap { a as int } else { cap },
    }
}

impl CacheInfo {
    /// The metadata of a response received at `localtm`.
    pub fn new(localtm: Time, hdrs: &ResponseHeaders) -> (r: Result<CacheInfo>)
        ensures
            match headers_info(localtm, *hdrs) {
                Ok(i) => r is Ok && r->Ok_0@ == i,
                Err(e) => r matches Err(x) && x == e,
            },
    {
        let ghost vs = hdrs.cache_control@.map_values(|v: Vec<u8>| v@);
        let dirs = parse_cache_control(&hdrs.cache_control);
        let ghost ds = directives_spec(vs);
        assert(dirs@ =~= ds);
        let mut max_age: Option<u64> = None;
        let mut max_sage: Option<u64> = None;
        let mut i: usize = 0;
        while i < dirs.len()
            invariant
                i <= dirs.len(),
                ages(dirs@.subrange(0, i as int)) == (max_age, max_sage),
            decreases dirs.len() - i,
        {
            assert(dirs@.subrange(0, i + 1).drop_last() =~= dirs@.subrange(0, i as int));
            match dirs[i] {
                Ok(CacheControl::MaxAge(x)) => max_age = Some(x),
                Ok(CacheControl::SMaxAge(x)) => max_sage = Some(x),
                Ok(CacheControl::NoCache) => max_sage = Some(0),
                _ => {},
            }
            i += 1;
        }
        assert(dirs@.subrange(0, dirs.len() as int) =~= dirs@);
        let remote = match date_header(&hdrs.date)? {
            Some(t) => t,
            None => localtm.local,
        };
        let age = if max_sage.is_some() {
            max_sage
        } else {
            max_age
        };
        let not_after = match age {
            Some(a) => shift(localtm.mono, a, 0)?,
            None => match date_header(&hdrs.expires)? {
                None => None,
                Some(x) => shift(localtm.mono, x, remote)?,
            },
        };
        let modified = date_header(&hdrs.last_modified)?;
        Ok(CacheInfo { not_after, modified, etag: clone_opt(&hdrs.etag), local_time: localtm.mono })
    }

    /// The metadata of a revalidation at `localtm`: what the new response
    /// states, and for what it does not state, what was known before.
    pub fn update(self, localtm: Time, hdrs: &ResponseHeaders) -> (r: Result<CacheInfo>)
        ensures
            match headers_info(localtm, *hdrs) {
                Ok(i) => r is Ok && r->Ok_0@ == merged(self@, i),
                Err(e) => r matches Err(x) && x == e,
            },
    {
        let tmp = CacheInfo::new(localtm, hdrs)?;
        Ok(CacheInfo {
            not_after: if tmp.not_after.is_some() { tmp.not_after } else { self.not_after },
            modified: if tmp.modified.is_some() { tmp.modified } else { self.modified },
            etag: if tmp.etag.is_some() { tmp.etag } else { self.etag },
            local_time: tmp.local_time,
        })
    }

    /// The earlier of the expiry and `max_lt` seconds after receipt.
    pub fn get_expiration_tm(&self, max_lt: u64) -> (r: u64)
        requires
            self.local_time + max_lt <= u64::MAX,
        ensures
            r == expiration(self@, max_lt),
    {
        let cap = self.local_time + max_lt;
        match self.not_after {
            None => cap,
            Some(a) => if a < cap {
                a
            } else {
                cap
            },
        }
    }

    /// Whether the metadata is stale at `reftm`.
    pub fn is_outdated(&self, reftm: u64, max_lt: u64) -> (r: bool)
        ensures
            r == (reftm >= expiration(self@, max_lt)),
    {
        match self.local_time.checked_add(max_lt) {
            Some(_) => self.get_expiration_tm(max_lt) <= reftm,
            None => match self.not_after {
                Some(a) => a <= reftm,
                None => false,
            },
        }
    }

    /// A copy of `self`.
    pub fn duplicate(&self) -> (r: CacheInfo)
        ensures
            r@ == self@,
    {
        CacheInfo {
            not_after: self.not_after,
            modified: self.modified,
            etag: clone_opt(&self.etag),
            local_time: self.local_time,
        }
    }

    /// Whether the stored entity tag equals `etag` (both absent counts as equal).
    pub fn etag_matches(&self, etag: &Option<Vec<u8>>) -> (r: bool)
        ensures
            r == (opt_view(self.etag) == opt_view(*etag)),
    {
        match (&self.etag, etag) {
            (Some(a), Some(b)) => bytes_equal(a.as_slice(), b.as_slice()),
            (None, None) => true,
            _ => false,
        }
    }

    /// The headers of a conditional request at `now`: `If-Modified-Since`
    /// and `If-None-Match` from what is known, and `Cache-Control:
    /// max-age=N` with the seconds of freshness left.
    pub fn fill_request(&self, now: u64) -> (r: Vec<(&'static str, Vec<u8>)>)
        ensures
            r@.len() == conditional_headers(self@, now).len(),
            forall|i: int|
                0 <= i < r@.len() ==> #[trigger] r@[i].0 == conditional_headers(self@, now)[i].0
                    && r@[i].1@ == conditional_headers(self@, now)[i].1,
    {
        let mut r: Vec<(&'static str, Vec<u8>)> = Vec::new();
        if let Some(tm) = self.modified {
            if tm < 253402300800 {
                r.push(("if-modified-since", format_http_date(tm)));
            }
        }
        let ghost r1 = r@;
        if let Some(e) = &self.etag {
            r.push(("if-none-match", crate::datagram::copy_range(e.as_slice(), 0, e.len())));
        }
        let ghost r2 = r@;
        if let Some(tm) = self.not_after {
            let delta = if tm < now {
                0
            } else {
                tm - now
            };
            let mut v: Vec<u8> = vec![109u8, 97, 120, 45, 97, 103, 101, 61];
            let d = decimal_bytes(delta);
            let mut j: usize = 0;
            let ghost v0 = v@;
            while j < d.len()
                invariant
                    j <= d.len(),
                    v@ == v0 + d@.subrange(0, j as int),
                decreases d.len() - j,
            {
                v.push(d[j]);
                assert(d@.subrange(0, j + 1) =~= d@.subrange(0, j as int).push(d@[j as int]));
                assert(v0 + d@.subrange(0, j + 1) =~= (v0 + d@.subrange(0, j as int)).push(d@[j as int]));
                j += 1;
            }
            assert(d@.subrange(0, d.len() as int) =~= d@);
            assert(v0 =~= seq![109u8, 97, 120, 45, 97, 103, 101, 61]);
            r.push(("cache-control", v));
        }
        proof {
            let c = conditional_headers(self@, now);
            assert(r@.len() == c.len());
            assert forall|i: int| 0 <= i < r@.len() implies #[trigger] r@[i].0 == c[i].0 && r@[i].1@ == c[i].1 by {
            }
        }
        r
    }
}

/// The headers of a conditional request, in order, as name and value.
pub open spec fn conditional_headers(i: CacheInfoSpec, now: u64) -> Seq<(&'static str, Seq<u8>)> {
    let a = match i.modified {
        Some(tm) => if tm < 253402300800 {
            seq![("if-modified-since", http_date_text(tm))]
        } else {
            Seq::empty()
        },
        None => Seq::empty(),
    };
    let b = match i.etag {
        Some(e) => seq![("if-none-match", e)],
        None => Seq::empty(),
    };
    let c = match i.not_after {
        Some(tm) => seq![(
            "cache-control",
            seq![109u8, 97, 120, 45, 97, 103, 101, 61] + decimal(if tm < now { 0 } else { (tm - now) as nat }),
        )],
        None => Seq::empty(),
    };
    a + b + c
}

} // verus!
