//! Multi-valued HTTP headers (`a, b=1, c`) and the Cache-Control
//! directives in them.
use vstd::prelude::*;
use crate::errors::{Error, Result};
use crate::mode::bytes_equal;
use crate::util::{lower_bytes, scan_decimal, scan_u64, to_lower};

verus! {

/// Where the scan of one element stands: start of the element (`q`), start
/// of its trailing blanks (`p`), and its first `=` (`d`).
pub struct ScanState {
    pub q: Option<int>,
    pub p: Option<int>,
    pub d: Option<int>,
}

/// Tabs count as blanks.
pub open spec fn norm(c: u8) -> u8 {
    if c == 9 {
        32
    } else {
        c
    }
}

/// Scans `h` from `i` for the element that starts at or after it: leading
/// blanks and commas are skipped, the element ends at the next comma. Gives
/// the final state and the offset where the next scan starts.
pub open spec fn scan_from(h: Seq<u8>, i: int, st: ScanState) -> (ScanState, int)
    decreases h.len() - i,
{
    if i < 0 || i >= h.len() {
        (st, h.len() as int)
    } else {
        let c = norm(h[i]);
        match st.q {
            None => if c == 32 || c == 44 {
                scan_from(h, i + 1, st)
            } else {
                scan_from(h, i + 1, ScanState { q: Some(i), ..st })
            },
            Some(_) => if c == 61 && st.d is None {
                scan_from(h, i + 1, ScanState { d: Some(i), ..st })
            } else if c == 32 {
                scan_from(h, i + 1, ScanState { p: if st.p is Some { st.p } else { Some(i) }, ..st })
            } else if c == 44 {
                (ScanState { p: if st.p is Some { st.p } else { Some(i) }, ..st }, i + 1)
            } else {
                scan_from(h, i + 1, ScanState { p: None, ..st })
            },
        }
    }
}

/// The next element of `h` at or after `pos`: its name, its value after the
/// first `=` (blanks at the end removed; empty where nothing follows the
/// `=` but blanks), and where the next element may start.
pub open spec fn split_spec(h: Seq<u8>, pos: int) -> (Option<(Seq<u8>, Option<Seq<u8>>)>, int) {
    let (st, e) = scan_from(h, pos, ScanState { q: None, p: None, d: None });
    let p = match st.p {
        Some(x) => x,
        None => e,
    };
    match st.q {
        None => (None, e),
        Some(q) => match st.d {
            None => (Some((h.subrange(q, p), None)), e),
            Some(d) => (Some((h.subrange(q, d), Some(if d + 1 <= p { h.subrange(d + 1, p) } else { Seq::empty() }))), e),
        },
    }
}

/// Facts about a scan state that hold along the scan.
pub open spec fn scan_inv(h: Seq<u8>, pos: int, i: int, st: ScanState) -> bool {
    &&& pos <= i <= h.len()
    &&& (st.q is None ==> st.p is None && st.d is None)
    &&& (st.q matches Some(q) ==> pos <= q < i)
    &&& (st.d matches Some(d) ==> st.q->Some_0 < d < i)
    &&& (st.p matches Some(p) ==> st.q->Some_0 < p < i)
}

proof fn lemma_scan_bounds(h: Seq<u8>, pos: int, i: int, st: ScanState)
    requires
        0 <= pos,
        scan_inv(h, pos, i, st),
    ensures
        ({
            let (s2, e) = scan_from(h, i, st);
            &&& (s2.q is None ==> s2.p is None && s2.d is None)
            &&& (s2.q matches Some(q) ==> pos <= q < e && q < h.len())
            &&& (s2.d matches Some(d) ==> s2.q->Some_0 < d < e && d < h.len())
            &&& (s2.p matches Some(p) ==> s2.q->Some_0 < p < e && p <= h.len())
            &&& i <= e <= h.len()
        }),
    decreases h.len() - i,
{
    if i < h.len() {
        let c = norm(h[i]);
        match st.q {
            None => if c == 32 || c == 44 {
                lemma_scan_bounds(h, pos, i + 1, st);
            } else {
                lemma_scan_bounds(h, pos, i + 1, ScanState { q: Some(i), ..st });
            },
            Some(_) => if c == 61 && st.d is None {
                lemma_scan_bounds(h, pos, i + 1, ScanState { d: Some(i), ..st });
            } else if c == 32 {
                lemma_scan_bounds(h, pos, i + 1, ScanState { p: if st.p is Some { st.p } else { Some(i) }, ..st });
            } else if c == 44 {
            } else {
                lemma_scan_bounds(h, pos, i + 1, ScanState { p: None, ..st });
            },
        }
    }
}

/// One element of a multi-valued header: name and optional value.
pub type Element = (Vec<u8>, Option<Vec<u8>>);

pub open spec fn element_view(e: Element) -> (Seq<u8>, Option<Seq<u8>>) {
    (e.0@, match e.1 {
        Some(v) => Some(v@),
        None => None,
    })
}

/// Finds the next element of `h` at or after `pos`, as `split_spec` says.
pub fn split(h: &[u8], pos: usize) -> (r: (Option<Element>, usize))
    requires
        pos <= h.len(),
    ensures
        r.1 == split_spec(h@, pos as int).1,
        match split_spec(h@, pos as int).0 {
            None => r.0 is None,
            Some(t) => r.0 matches Some(x) && element_view(x) == t,
        },
        r.0 is Some ==> r.1 > pos,
        r.1 <= h.len(),
{
    let mut q: Option<usize> = None;
    let mut p: Option<usize> = None;
    let mut d: Option<usize> = None;
    let mut i: usize = pos;
    let mut done = false;
    let ghost init = ScanState { q: None, p: None, d: None };
    while i < h.len() && !done
        invariant
            pos <= i <= h.len(),
            scan_inv(h@, pos as int, i as int, ScanState {
                q: match q { Some(x) => Some(x as int), None => None },
                p: match p { Some(x) => Some(x as int), None => None },
                d: match d { Some(x) => Some(x as int), None => None },
            }),
            !done ==> scan_from(h@, pos as int, init) == scan_from(h@, i as int, ScanState {
                q: match q { Some(x) => Some(x as int), None => None },
                p: match p { Some(x) => Some(x as int), None => None },
                d: match d { Some(x) => Some(x as int), None => None },
            }),
            done ==> scan_from(h@, pos as int, init) == (ScanState {
                q: match q { Some(x) => Some(x as int), None => None },
                p: match p { Some(x) => Some(x as int), None => None },
                d: match d { Some(x) => Some(x as int), None => None },
            }, i as int),
        decreases h.len() - i,
    {
        let c = if h[i] == 9 {
            32u8
        } else {
            h[i]
        };
        if q.is_none() {
            if c != 32 && c != 44 {
                q = Some(i);
            }
        } else {
            if c == 61 && d.is_none() {
                d = Some(i);
            } else if c == 32 {
                if p.is_none() {
                    p = Some(i);
                }
            } else if c == 44 {
                if p.is_none() {
                    p = Some(i);
                }
                done = true;
            } else {
                p = None;
            }
        }
        i += 1;
    }
    let e = i;
    let ghost st = ScanState {
        q: match q { Some(x) => Some(x as int), None => None },
        p: match p { Some(x) => Some(x as int), None => None },
        d: match d { Some(x) => Some(x as int), None => None },
    };
    assert(scan_from(h@, pos as int, init) == (st, e as int));
    let pe = match p {
        Some(x) => x,
        None => e,
    };
    match q {
        None => (None, e),
        Some(qs) => match d {
            None => (Some((crate::datagram::copy_range(h, qs, pe), None)), e),
            Some(ds) => {
                let v = if ds + 1 <= pe {
                    crate::datagram::copy_range(h, ds + 1, pe)
                } else {
                    Vec::new()
                };
                proof {
                    if ds + 1 > pe {
                        assert(v@ =~= Seq::<u8>::empty());
                    }
                }
                (Some((crate::datagram::copy_range(h, qs, ds), Some(v))), e)
            },
        },
    }
}

/// All elements of one header value, in order.
pub open spec fn elements_from(h: Seq<u8>, pos: int) -> Seq<(Seq<u8>, Option<Seq<u8>>)>
    decreases h.len() - pos,
{
    if pos < 0 || pos > h.len() {
        Seq::empty()
    } else {
        match split_spec(h, pos).0 {
            None => Seq::empty(),
            Some(t) => {
                let next = split_spec(h, pos).1;
                if pos < next <= h.len() {
                    seq![t] + elements_from(h, next)
                } else {
                    Seq::empty()
                }
            },
        }
    }
}

/// A Cache-Control directive; ages are in seconds.
#[derive(Clone, Copy, Debug, PartialEq, Eq, Structural)]
pub enum CacheControl {
    MaxAge(u64),
    SMaxAge(u64),
    NoCache,
    MustRevalidate,
    ProxyRevalidate,
    Private,
    Public,
    Immutable,
    Other,
}

/// A number of seconds given in decimal digits.
pub open spec fn seconds_of(v: Option<Seq<u8>>) -> Result<u64> {
    match v {
        None => Err(Error::StringConversion),
        Some(s) => match scan_decimal(s) {
            Ok(n) => Ok(n as u64),
            Err(_) => Err(Error::StringConversion),
        },
    }
}

pub open spec fn with_age(v: Option<Seq<u8>>, smax: bool) -> Result<CacheControl> {
    match seconds_of(v) {
        Ok(n) => Ok(if smax { CacheControl::SMaxAge(n) } else { CacheControl::MaxAge(n) }),
        Err(e) => Err(e),
    }
}

/// The directive that an element names (without regard to case).
pub open spec fn directive_of(key: Seq<u8>, val: Option<Seq<u8>>) -> Result<CacheControl> {
    let k = lower_bytes(key);
    if k == seq![109u8, 97, 120, 45, 97, 103, 101] {
        with_age(val, false)
    } else if k == seq![115u8, 45, 109, 97, 120, 97, 103, 101] {
        with_age(val, true)
    } else if k == seq![110u8, 111, 45, 99, 97, 99, 104, 101] {
        Ok(CacheControl::NoCache)
    } else if k == seq![109u8, 117, 115, 116, 45, 114, 101, 118, 97, 108, 105, 100, 97, 116, 101] {
        Ok(CacheControl::MustRevalidate)
    } else if k == seq![112u8, 114, 111, 120, 121, 45, 114, 101, 118, 97, 108, 105, 100, 97, 116, 101] {
        Ok(CacheControl::ProxyRevalidate)
    } else if k == seq![112u8, 114, 105, 118, 97, 116, 101] {
        Ok(CacheControl::Private)
    } else if k == seq![112u8, 117, 98, 108, 105, 99] {
        Ok(CacheControl::Public)
    } else if k == seq![105u8, 109, 109, 117, 116, 97, 98, 108, 101] {
        Ok(CacheControl::Immutable)
    } else {
        Ok(CacheControl::Other)
    }
}

/// Reads a decimal number of seconds; any other text is refused.
pub fn as_u64(s: &[u8]) -> (r: Result<u64>)
    ensures
        r == seconds_of(Some(s@)),
{
    match scan_u64(s) {
        Ok(v) => Ok(v),
        Err(_) => Err(Error::StringConversion),
    }
}

fn age(val: &Option<Vec<u8>>, smax: bool) -> (r: Result<CacheControl>)
    ensures
        r == with_age(match val { Some(v) => Some(v@), None => None }, smax),
{
    match val {
        None => Err(Error::StringConversion),
        Some(v) => {
            let n = as_u64(v.as_slice())?;
            if smax {
                Ok(CacheControl::SMaxAge(n))
            } else {
                Ok(CacheControl::MaxAge(n))
            }
        },
    }
}

impl CacheControl {
    /// The directive of one element.
    pub fn try_from(key: &[u8], val: &Option<Vec<u8>>) -> (r: Result<CacheControl>)
        ensures
            r == directive_of(key@, match val { Some(v) => Some(v@), None => None }),
    {
        let k = to_lower(key);
        let max_age: [u8; 7] = [109, 97, 120, 45, 97, 103, 101];
        let s_maxage: [u8; 8] = [115, 45, 109, 97, 120, 97, 103, 101];
        let no_cache: [u8; 8] = [110, 111, 45, 99, 97, 99, 104, 101];
        let must: [u8; 15] = [109, 117, 115, 116, 45, 114, 101, 118, 97, 108, 105, 100, 97, 116, 101];
        let proxy: [u8; 16] = [112, 114, 111, 120, 121, 45, 114, 101, 118, 97, 108, 105, 100, 97, 116, 101];
        let private: [u8; 7] = [112, 114, 105, 118, 97, 116, 101];
        let public: [u8; 6] = [112, 117, 98, 108, 105, 99];
        let immutable: [u8; 9] = [105, 109, 109, 117, 116, 97, 98, 108, 101];
        assert(max_age@ =~= seq![109u8, 97, 120, 45, 97, 103, 101]);
        assert(s_maxage@ =~= seq![115u8, 45, 109, 97, 120, 97, 103, 101]);
        assert(no_cache@ =~= seq![110u8, 111, 45, 99, 97, 99, 104, 101]);
        assert(must@ =~= seq![109u8, 117, 115, 116, 45, 114, 101, 118, 97, 108, 105, 100, 97, 116, 101]);
        assert(proxy@ =~= seq![112u8, 114, 111, 120, 121, 45, 114, 101, 118, 97, 108, 105, 100, 97, 116, 101]);
        assert(private@ =~= seq![112u8, 114, 105, 118, 97, 116, 101]);
        assert(public@ =~= seq![112u8, 117, 98, 108, 105, 99]);
        assert(immutable@ =~= seq![105u8, 109, 109, 117, 116, 97, 98, 108, 101]);
        let ks = k.as_slice();
        if bytes_equal(ks, max_age.as_slice()) {
            age(val, false)
        } else if bytes_equal(ks, s_maxage.as_slice()) {
            age(val, true)
        } else if bytes_equal(ks, no_cache.as_slice()) {
            Ok(CacheControl::NoCache)
        } else if bytes_equal(ks, must.as_slice()) {
            Ok(CacheControl::MustRevalidate)
        } else if bytes_equal(ks, proxy.as_slice()) {
            Ok(CacheControl::ProxyRevalidate)
        } else if bytes_equal(ks, private.as_slice()) {
            Ok(CacheControl::Private)
        } else if bytes_equal(ks, public.as_slice()) {
            Ok(CacheControl::Public)
        } else if bytes_equal(ks, immutable.as_slice()) {
            Ok(CacheControl::Immutable)
        } else {
            Ok(CacheControl::Other)
        }
    }
}

/// The elements of all values of a multi-valued header, in order.
pub open spec fn all_elements(values: Seq<Seq<u8>>) -> Seq<(Seq<u8>, Option<Seq<u8>>)>
    decreases values.len(),
{
    if values.len() == 0 {
        Seq::empty()
    } else {
        all_elements(values.drop_last()) + elements_from(values.last(), 0)
    }
}

/// The elements of one header value.
pub fn elements(h: &[u8]) -> (r: Vec<Element>)
    ensures
        r@.map_values(|x: Element| element_view(x)) == elements_from(h@, 0),
{
    let mut r: Vec<Element> = Vec::new();
    let mut pos: usize = 0;
    loop
        invariant
            pos <= h.len(),
            r@.map_values(|x: Element| element_view(x)) + elements_from(h@, pos as int)
                == elements_from(h@, 0),
        decreases h.len() - pos,
    {
        let (t, next) = split(h, pos);
        match t {
            None => {
                assert(elements_from(h@, pos as int) =~= Seq::empty());
                assert(r@.map_values(|x: Element| element_view(x)) + Seq::<(Seq<u8>, Option<Seq<u8>>)>::empty()
                    =~= r@.map_values(|x: Element| element_view(x)));
                return r;
            },
            Some(x) => {
                let ghost tv = element_view(x);
                let ghost before = r@.map_values(|y: Element| element_view(y));
                r.push(x);
                assert(r@.map_values(|y: Element| element_view(y)) =~= before.push(tv));
                assert(elements_from(h@, pos as int) == seq![tv] + elements_from(h@, next as int));
                assert(before + (seq![tv] + elements_from(h@, next as int)) =~= before.push(tv)
                    + elements_from(h@, next as int));
                pos = next;
            },
        }
    }
}

/// The Cache-Control directives of the values of the header, in order;
/// an element whose age is no number gives an error in its place.
pub fn parse_cache_control(values: &Vec<Vec<u8>>) -> (r: Vec<Result<CacheControl>>)
    ensures
        r@.len() == all_elements(values@.map_values(|v: Vec<u8>| v@)).len(),
        forall|i: int|
            0 <= i < r@.len() ==> #[trigger] r@[i] == directive_of(
                all_elements(values@.map_values(|v: Vec<u8>| v@))[i].0,
                all_elements(values@.map_values(|v: Vec<u8>| v@))[i].1,
            ),
{
    let ghost vs = values@.map_values(|v: Vec<u8>| v@);
    let mut r: Vec<Result<CacheControl>> = Vec::new();
    let mut j: usize = 0;
    while j < values.len()
        invariant
            j <= values.len(),
            vs == values@.map_values(|v: Vec<u8>| v@),
            r@.len() == all_elements(vs.subrange(0, j as int)).len(),
            forall|i: int|
                0 <= i < r@.len() ==> #[trigger] r@[i] == directive_of(
                    all_elements(vs.subrange(0, j as int))[i].0,
                    all_elements(vs.subrange(0, j as int))[i].1,
                ),
        decreases values.len() - j,
    {
        let els = elements(values[j].as_slice());
        let ghost prev = all_elements(vs.subrange(0, j as int));
        let ghost ev = els@.map_values(|x: Element| element_view(x));
        assert(vs.subrange(0, j + 1).drop_last() =~= vs.subrange(0, j as int));
        assert(vs.subrange(0, j + 1).last() == values@[j as int]@);
        assert(all_elements(vs.subrange(0, j + 1)) == prev + ev);
        let mut k: usize = 0;
        while k < els.len()
            invariant
                k <= els.len(),
                ev == els@.map_values(|x: Element| element_view(x)),
                r@.len() == prev.len() + k,
                forall|i: int|
                    0 <= i < r@.len() ==> #[trigger] r@[i] == directive_of(
                        (prev + ev)[i].0,
                        (prev + ev)[i].1,
                    ),
            decreases els.len() - k,
        {
            let d = CacheControl::try_from(els[k].0.as_slice(), &els[k].1);
            assert(ev[k as int] == element_view(els@[k as int]));
            r.push(d);
            k += 1;
        }
        j += 1;
    }
    assert(vs.subrange(0, values.len() as int) =~= vs);
    r
}

} // verus!
