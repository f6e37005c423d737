//! Read and write requests: filename, mode and the negotiable options.
use vstd::prelude::*;
use crate::errors::{RequestError, RequestResult};
use crate::mode::{bytes_equal, mode_of, Mode};
use crate::util::{lower_bytes, scan_decimal, scan_u64, to_lower, ScanError};

verus! {

/// The fields of `s` between the bytes `sep`, as `<[u8]>::split` yields
/// them: never empty, and one more field than `s` holds separators.
pub open spec fn split_on(s: Seq<u8>, sep: u8) -> Seq<Seq<u8>>
    decreases s.len(),
{
    if s.len() == 0 {
        seq![Seq::<u8>::empty()]
    } else {
        let prev = split_on(s.drop_last(), sep);
        if s.last() == sep {
            prev.push(Seq::<u8>::empty())
        } else {
            prev.update(prev.len() - 1, prev.last().push(s.last()))
        }
    }
}

/// The fields of `s` between NUL bytes.
pub open spec fn split_fields(s: Seq<u8>) -> Seq<Seq<u8>> {
    split_on(s, 0)
}

pub proof fn lemma_split_fields_nonempty(s: Seq<u8>, sep: u8)
    ensures
        split_on(s, sep).len() >= 1,
    decreases s.len(),
{
    if s.len() > 0 {
        lemma_split_fields_nonempty(s.drop_last(), sep);
    }
}

/// A decimal number that must lie in `[min, max]`.
pub open spec fn ranged_value(s: Seq<u8>, min: int, max: int) -> Result<int, RequestError> {
    match scan_decimal(s) {
        Err(ScanError::BadDigit(c)) => Err(RequestError::BadDigit(c)),
        Err(ScanError::Overflow) => Err(RequestError::NumberOutOfRange),
        Ok(v) => if v < min || v > max {
            Err(RequestError::NumberOutOfRange)
        } else {
            Ok(v)
        },
    }
}

/// Reads the decimal number `s` and checks that it lies in `[min, max]`.
pub fn try_ranged_from(s: &[u8], min: u64, max: u64) -> (r: RequestResult<u64>)
    ensures
        match ranged_value(s@, min as int, max as int) {
            Ok(v) => r == Ok::<u64, RequestError>(v as u64),
            Err(e) => r == Err::<u64, RequestError>(e),
        },
{
    match scan_u64(s) {
        Err(ScanError::BadDigit(c)) => Err(RequestError::BadDigit(c)),
        Err(ScanError::Overflow) => Err(RequestError::NumberOutOfRange),
        Ok(v) => if v < min || v > max {
            Err(RequestError::NumberOutOfRange)
        } else {
            Ok(v)
        },
    }
}

/// Whether the request reads from or writes to the server.
#[derive(Clone, Copy, Debug, PartialEq, Eq, Structural)]
pub enum Dir {
    Read,
    Write,
}

/// The content of a request, as a mathematical value.
pub struct RequestSpec {
    pub filename: Seq<u8>,
    pub mode: Mode,
    pub block_size: Option<u16>,
    pub timeout: Option<u64>,
    pub window_size: Option<u16>,
    pub tsize: Option<u64>,
}

/// A decoded RRQ or WRQ. `timeout` is in seconds.
#[derive(Clone, Debug)]
pub struct Request {
    pub filename: Vec<u8>,
    pub mode: Mode,
    pub block_size: Option<u16>,
    pub timeout: Option<u64>,
    pub window_size: Option<u16>,
    pub tsize: Option<u64>,
}

impl View for Request {
    type V = RequestSpec;

    open spec fn view(&self) -> RequestSpec {
        RequestSpec {
            filename: self.filename@,
            mode: self.mode,
            block_size: self.block_size,
            timeout: self.timeout,
            window_size: self.window_size,
            tsize: self.tsize,
        }
    }
}

pub open spec fn word_blksize() -> Seq<u8> {
    seq![98u8, 108, 107, 115, 105, 122, 101]
}

pub open spec fn word_timeout() -> Seq<u8> {
    seq![116u8, 105, 109, 101, 111, 117, 116]
}

pub open spec fn word_tsize() -> Seq<u8> {
    seq![116u8, 115, 105, 122, 101]
}

pub open spec fn word_windowsize() -> Seq<u8> {
    seq![119u8, 105, 110, 100, 111, 119, 115, 105, 122, 101]
}

/// The largest `tsize` that a request in direction `dir` may carry: a
/// read request asks for the size with 0.
pub open spec fn tsize_max(dir: Dir) -> int {
    match dir {
        Dir::Read => 0,
        Dir::Write => 4_294_967_295,
    }
}

/// Applies one option `name=arg` to `acc`; names are compared without
/// regard to case and unknown ones are ignored.
pub open spec fn apply_option(acc: RequestSpec, name: Seq<u8>, arg: Seq<u8>, dir: Dir) -> Result<
    RequestSpec,
    RequestError,
> {
    let n = lower_bytes(name);
    if n == word_blksize() {
        match ranged_value(arg, 8, 65464) {
            Ok(v) => Ok(RequestSpec { block_size: Some(v as u16), ..acc }),
            Err(e) => Err(e),
        }
    } else if n == word_timeout() {
        match ranged_value(arg, 0, 65535) {
            Ok(v) => Ok(RequestSpec { timeout: Some(v as u64), ..acc }),
            Err(e) => Err(e),
        }
    } else if n == word_tsize() {
        match ranged_value(arg, 0, tsize_max(dir)) {
            Ok(v) => Ok(RequestSpec { tsize: Some(v as u64), ..acc }),
            Err(e) => Err(e),
        }
    } else if n == word_windowsize() {
        match ranged_value(arg, 1, 65535) {
            Ok(v) => Ok(RequestSpec { window_size: Some(v as u16), ..acc }),
            Err(e) => Err(e),
        }
    } else {
        Ok(acc)
    }
}

/// Applies the option pairs `f[i], f[i+1], ...` in order.
pub open spec fn parse_options(f: Seq<Seq<u8>>, i: int, dir: Dir, acc: RequestSpec) -> Result<
    RequestSpec,
    RequestError,
>
    decreases f.len() - i,
{
    if i < 0 || i >= f.len() {
        Ok(acc)
    } else if i + 1 >= f.len() {
        Err(RequestError::MissingArgument)
    } else {
        match apply_option(acc, f[i], f[i + 1], dir) {
            Err(e) => Err(e),
            Ok(a) => parse_options(f, i + 2, dir, a),
        }
    }
}

/// The decoding of a request body (what follows the opcode).
pub open spec fn parse_request(data: Seq<u8>, dir: Dir) -> Result<RequestSpec, RequestError> {
    if data.len() == 0 {
        Err(RequestError::TooShort)
    } else if data.last() != 0 {
        Err(RequestError::MissingZero)
    } else {
        let f = split_fields(data.drop_last());
        if f[0].len() == 0 {
            Err(RequestError::MissingFilename)
        } else if f.len() < 2 {
            Err(RequestError::MissingMode)
        } else {
            match mode_of(f[1]) {
                Err(e) => Err(e),
                Ok(m) => parse_options(
                    f,
                    2,
                    dir,
                    RequestSpec {
                        filename: f[0],
                        mode: m,
                        block_size: None,
                        timeout: None,
                        window_size: None,
                        tsize: None,
                    },
                ),
            }
        }
    }
}

pub open spec fn fields_view(v: Seq<Vec<u8>>) -> Seq<Seq<u8>> {
    v.map_values(|x: Vec<u8>| x@)
}

/// Splits `s` at its NUL bytes.
pub fn split_zero(s: &[u8]) -> (r: Vec<Vec<u8>>)
    ensures
        fields_view(r@) == split_fields(s@),
{
    split_at_byte(s, 0)
}

/// Splits `s` at the bytes `sep`.
pub fn split_at_byte(s: &[u8], sep: u8) -> (r: Vec<Vec<u8>>)
    ensures
        fields_view(r@) == split_on(s@, sep),
{
    let mut fields: Vec<Vec<u8>> = Vec::new();
    let mut cur: Vec<u8> = Vec::new();
    let mut i: usize = 0;
    assert(s@.subrange(0, 0) =~= Seq::<u8>::empty());
    assert(fields_view(fields@).push(cur@) =~= split_on(s@.subrange(0, 0), sep));
    while i < s.len()
        invariant
            i <= s.len(),
            fields_view(fields@).push(cur@) == split_on(s@.subrange(0, i as int), sep),
        decreases s.len() - i,
    {
        let c = s[i];
        let ghost prev = split_on(s@.subrange(0, i as int), sep);
        assert(s@.subrange(0, i + 1).drop_last() =~= s@.subrange(0, i as int));
        if c == sep {
            let done = cur;
            cur = Vec::new();
            fields.push(done);
            assert(fields_view(fields@).push(cur@) =~= prev.push(Seq::<u8>::empty()));
        } else {
            cur.push(c);
            assert(fields_view(fields@).push(cur@) =~= prev.update(
                prev.len() - 1,
                prev.last().push(c),
            ));
        }
        i += 1;
    }
    assert(s@.subrange(0, s.len() as int) =~= s@);
    fields.push(cur);
    fields
}

impl Request {
    pub fn has_options(&self) -> (r: bool)
        ensures
            r == (self.block_size is Some || self.timeout is Some || self.window_size is Some
                || self.tsize is Some),
    {
        self.block_size.is_some() || self.timeout.is_some() || self.window_size.is_some()
            || self.tsize.is_some()
    }

    /// Applies one option to `self`, as `apply_option` describes.
    fn apply(&mut self, name: &[u8], arg: &[u8], dir: Dir) -> (r: RequestResult<()>)
        ensures
            match apply_option(old(self)@, name@, arg@, dir) {
                Ok(a) => r is Ok && final(self)@ == a,
                Err(e) => r == Err::<(), RequestError>(e),
            },
    {
        let n = to_lower(name);
        let blksize: [u8; 7] = [98, 108, 107, 115, 105, 122, 101];
        let timeout: [u8; 7] = [116, 105, 109, 101, 111, 117, 116];
        let tsize: [u8; 5] = [116, 115, 105, 122, 101];
        let windowsize: [u8; 10] = [119, 105, 110, 100, 111, 119, 115, 105, 122, 101];
        assert(blksize@ =~= word_blksize());
        assert(timeout@ =~= word_timeout());
        assert(tsize@ =~= word_tsize());
        assert(windowsize@ =~= word_windowsize());
        if bytes_equal(n.as_slice(), blksize.as_slice()) {
            let v = try_ranged_from(arg, 8, 65464)?;
            self.block_size = Some(v as u16);
        } else if bytes_equal(n.as_slice(), timeout.as_slice()) {
            let v = try_ranged_from(arg, 0, 65535)?;
            self.timeout = Some(v);
        } else if bytes_equal(n.as_slice(), tsize.as_slice()) {
            let max: u64 = match dir {
                Dir::Read => 0,
                Dir::Write => 4_294_967_295,
            };
            let v = try_ranged_from(arg, 0, max)?;
            self.tsize = Some(v);
        } else if bytes_equal(n.as_slice(), windowsize.as_slice()) {
            let v = try_ranged_from(arg, 1, 65535)?;
            self.window_size = Some(v as u16);
        }
        Ok(())
    }

    /// Decodes a request body: `filename\0mode\0(option\0value\0)*`.
    pub fn from_slice(data: &[u8], dir: Dir) -> (r: RequestResult<Request>)
        ensures
            match parse_request(data@, dir) {
                Ok(q) => r is Ok && r->Ok_0@ == q,
                Err(e) => r == Err::<Request, RequestError>(e),
            },
    {
        if data.len() == 0 {
            return Err(RequestError::TooShort);
        }
        if data[data.len() - 1] != 0 {
            return Err(RequestError::MissingZero);
        }
        let body = slice_prefix(data, data.len() - 1);
        assert(body@ =~= data@.drop_last());
        let fields = split_zero(body);
        let ghost f = split_fields(body@);
        proof {
            lemma_split_fields_nonempty(body@, 0);
            assert(fields@[0]@ == f[0]);
        }
        if fields[0].len() == 0 {
            return Err(RequestError::MissingFilename);
        }
        if fields.len() < 2 {
            return Err(RequestError::MissingMode);
        }
        assert(fields@[1]@ == f[1]);
        let mode = Mode::from_bytes(fields[1].as_slice())?;
        let mut res = Request {
            filename: fields[0].clone(),
            mode: mode,
            block_size: None,
            timeout: None,
            window_size: None,
            tsize: None,
        };
        assert(res@ == RequestSpec {
            filename: f[0],
            mode: mode,
            block_size: None,
            timeout: None,
            window_size: None,
            tsize: None,
        });
        assert(parse_request(data@, dir) == parse_options(f, 2, dir, res@));
        let mut i: usize = 2;
        while i < fields.len()
            invariant
                2 <= i,
                fields_view(fields@) == f,
                parse_request(data@, dir) == parse_options(f, i as int, dir, res@),
            decreases fields.len() - i,
        {
            assert(fields@.len() == f.len());
            if i + 1 >= fields.len() {
                assert(parse_options(f, i as int, dir, res@) == Err::<RequestSpec, RequestError>(
                    RequestError::MissingArgument,
                ));
                return Err(RequestError::MissingArgument);
            }
            assert(fields@[i as int]@ == f[i as int]);
            assert(fields@[i + 1]@ == f[i + 1]);
            let ghost before = res@;
            match res.apply(fields[i].as_slice(), fields[i + 1].as_slice(), dir) {
                Err(e) => {
                    assert(parse_options(f, i as int, dir, before) == Err::<RequestSpec, RequestError>(e));
                    return Err(e);
                },
                Ok(()) => {},
            }
            assert(parse_options(f, i as int, dir, before) == parse_options(f, i + 2, dir, res@));
            i += 2;
        }
        assert(parse_options(f, i as int, dir, res@) == Ok::<RequestSpec, RequestError>(res@));
        Ok(res)
    }
}

/// The first `n` bytes of `s`.
pub fn slice_prefix(s: &[u8], n: usize) -> (r: &[u8])
    requires
        n <= s.len(),
    ensures
        r@ == s@.subrange(0, n as int),
{
    vstd::slice::slice_subrange(s, 0, n)
}

} // verus!
