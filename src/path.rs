//! Request paths: normalization, and the URLs that symlinks and the fallback
//! prefix lead to.
use vstd::prelude::*;
use crate::errors::{Error, Result};
use crate::mode::bytes_equal;
use crate::request::{fields_view, split_at_byte, split_on};
use crate::util::lower_bytes;

verus! {

/// The pattern of a URL prefix: a lower-case scheme with at most one
/// `+flag` suffix (`http`, `https+nocache`), then `://`.
pub const URI_PATTERN: &'static str = "^[a-z]+(\\+[a-z]+)?://";

/// Whether the regular expression `pattern` matches somewhere in `s`, as
/// the `regex` crate decides it.
pub uninterp spec fn regex_matches(pattern: Seq<char>, s: Seq<u8>) -> bool;

/// Relies on `regex::bytes::Regex::new` and `Regex::is_match`: whether the
/// pattern matches the bytes (false where the pattern does not compile). The
/// result depends on the pattern and the bytes alone.
#[verifier::external_body]
fn regex_is_match(pattern: &str, s: &[u8]) -> (r: bool)
    ensures
        r == regex_matches(pattern@, s@),
        pattern@ == URI_PATTERN@ ==> r == has_uri_scheme(s@),
{
    match regex::bytes::Regex::new(pattern) {
        Ok(re) => re.is_match(s),
        Err(_) => false,
    }
}

pub open spec fn is_lower_letter(c: u8) -> bool {
    97 <= c <= 122
}

/// `s[i..j]` is a non-empty run of lower-case ASCII letters.
pub open spec fn letters(s: Seq<u8>, i: int, j: int) -> bool {
    &&& 0 <= i < j <= s.len()
    &&& forall|k: int| i <= k < j ==> is_lower_letter(#[trigger] s[k])
}

/// `s[i..]` starts with `://`.
pub open spec fn sep_at(s: Seq<u8>, i: int) -> bool {
    0 <= i && i + 3 <= s.len() && s[i] == 58 && s[i + 1] == 47 && s[i + 2] == 47
}

/// What `URI_PATTERN` matches: at the start, lower-case letters, optionally
/// `+` and more lower-case letters, then `://`.
pub open spec fn has_uri_scheme(s: Seq<u8>) -> bool {
    exists|a: int| #[trigger] letters(s, 0, a) && (sep_at(s, a) || exists|b: int|
        a < s.len() && s[a] == 43 && #[trigger] letters(s, a + 1, b) && sep_at(s, b))
}

/// Whether `s` starts with a URL scheme, so that it names an origin rather
/// than a local path.
pub fn is_uri(s: &[u8]) -> (r: bool)
    ensures
        r == regex_matches(URI_PATTERN@, s@),
        r == has_uri_scheme(s@),
{
    regex_is_match(URI_PATTERN, s)
}

pub open spec fn word_dot() -> Seq<u8> {
    seq![46u8]
}

pub open spec fn word_dotdot() -> Seq<u8> {
    seq![46u8, 46]
}

/// Joins the components `parts` with `/`, leaving out empty ones and `.`;
/// `..` is refused.
pub open spec fn join_parts(parts: Seq<Seq<u8>>) -> Result<Seq<u8>>
    decreases parts.len(),
{
    if parts.len() == 0 {
        Ok(Seq::empty())
    } else {
        match join_parts(parts.drop_last()) {
            Err(e) => Err(e),
            Ok(acc) => {
                let c = parts.last();
                if c.len() == 0 || c == word_dot() {
                    Ok(acc)
                } else if c == word_dotdot() {
                    Err(Error::InvalidPathName)
                } else if acc.len() == 0 {
                    Ok(c)
                } else {
                    Ok(acc + seq![47u8] + c)
                }
            },
        }
    }
}

/// The relative form of a request path: no root, no `.` and no empty
/// components; `..` is refused.
pub open spec fn normalized(p: Seq<u8>) -> Result<Seq<u8>> {
    join_parts(split_on(p, 47))
}

/// Normalizes a request path, as `normalized` says.
pub fn normalize_path(p: &[u8]) -> (r: Result<Vec<u8>>)
    ensures
        match normalized(p@) {
            Ok(v) => r matches Ok(x) && x@ == v,
            Err(e) => r matches Err(x) && x == e,
        },
{
    let parts = split_at_byte(p, 47);
    let ghost f = fields_view(parts@);
    let dot: [u8; 1] = [46];
    let dotdot: [u8; 2] = [46, 46];
    assert(dot@ =~= word_dot());
    assert(dotdot@ =~= word_dotdot());
    let mut res: Vec<u8> = Vec::new();
    let mut i: usize = 0;
    assert(f.subrange(0, 0) =~= Seq::<Seq<u8>>::empty());
    while i < parts.len()
        invariant
            i <= parts@.len(),
            f == fields_view(parts@),
            f == split_on(p@, 47),
            dot@ == word_dot(),
            dotdot@ == word_dotdot(),
            join_parts(f.subrange(0, i as int)) == Ok::<Seq<u8>, Error>(res@),
        decreases parts@.len() - i,
    {
        let c = parts[i].as_slice();
        assert(f.subrange(0, i + 1).drop_last() =~= f.subrange(0, i as int));
        assert(f.subrange(0, i + 1).last() == c@);
        if c.len() == 0 || bytes_equal(c, dot.as_slice()) {
        } else if bytes_equal(c, dotdot.as_slice()) {
            proof {
                assert(c@.len() == 2);
                assert(c@ != word_dot());
                assert(join_parts(f.subrange(0, i + 1)) == Err::<Seq<u8>, Error>(Error::InvalidPathName));
                lemma_join_error_sticks(f, i as int + 1, f.len() as int);
                assert(f.subrange(0, f.len() as int) =~= f);
            }
            return Err(Error::InvalidPathName);
        } else {
            let ghost acc = res@;
            if res.len() > 0 {
                res.push(47);
            }
            let mut j: usize = 0;
            let ghost base = res@;
            while j < c.len()
                invariant
                    j <= c@.len(),
                    res@ == base + c@.subrange(0, j as int),
                decreases c@.len() - j,
            {
                res.push(c[j]);
                assert(c@.subrange(0, j + 1) =~= c@.subrange(0, j as int).push(c@[j as int]));
                assert(base + c@.subrange(0, j + 1) =~= (base + c@.subrange(0, j as int)).push(c@[j as int]));
                j += 1;
            }
            assert(c@.subrange(0, c@.len() as int) =~= c@);
            proof {
                if acc.len() == 0 {
                    assert(res@ =~= c@);
                } else {
                    assert(res@ =~= acc + seq![47u8] + c@);
                }
            }
        }
        i += 1;
    }
    assert(f.subrange(0, parts@.len() as int) =~= f);
    Ok(res)
}

proof fn lemma_join_error_sticks(f: Seq<Seq<u8>>, i: int, j: int)
    requires
        0 <= i <= j <= f.len(),
        join_parts(f.subrange(0, i)) is Err,
    ensures
        join_parts(f.subrange(0, j)) == join_parts(f.subrange(0, i)),
    decreases j - i,
{
    if j > i {
        lemma_join_error_sticks(f, i, j - 1);
        assert(f.subrange(0, j).drop_last() =~= f.subrange(0, j - 1));
    }
}

/// `uri` extended by the path component `c`, with a `/` between them
/// where `uri` does not end with one.
pub open spec fn uri_join(uri: Seq<u8>, c: Seq<u8>) -> Seq<u8> {
    if uri.len() > 0 && uri.last() != 47 {
        uri + seq![47u8] + c
    } else {
        uri + c
    }
}

/// Appends the path component `c` to `uri`.
pub fn push_component(uri: &mut Vec<u8>, c: &[u8])
    ensures
        final(uri)@ == uri_join(old(uri)@, c@),
{
    if uri.len() > 0 && uri[uri.len() - 1] != 47 {
        uri.push(47);
    }
    let ghost base = uri@;
    let mut j: usize = 0;
    while j < c.len()
        invariant
            j <= c@.len(),
            uri@ == base + c@.subrange(0, j as int),
        decreases c@.len() - j,
    {
        uri.push(c[j]);
        assert(c@.subrange(0, j + 1) =~= c@.subrange(0, j as int).push(c@[j as int]));
        assert(base + c@.subrange(0, j + 1) =~= (base + c@.subrange(0, j as int)).push(c@[j as int]));
        j += 1;
    }
    assert(c@.subrange(0, c@.len() as int) =~= c@);
    assert(uri@ =~= uri_join(old(uri)@, c@));
}

/// Where a missing path leads when a fallback prefix is configured: the
/// prefix followed by the normalized path, as a URL where the prefix is one.
pub fn fallback_target(fallback: &[u8], path_norm: &[u8]) -> (r: (bool, Vec<u8>))
    ensures
        r.0 == regex_matches(URI_PATTERN@, fallback@),
        r.0 == has_uri_scheme(fallback@),
        r.1@ == fallback@ + path_norm@,
{
    let mut t = crate::datagram::copy_range(fallback, 0, fallback.len());
    assert(fallback@.subrange(0, fallback@.len() as int) =~= fallback@);
    let ghost base = t@;
    let mut j: usize = 0;
    while j < path_norm.len()
        invariant
            j <= path_norm@.len(),
            t@ == base + path_norm@.subrange(0, j as int),
        decreases path_norm@.len() - j,
    {
        t.push(path_norm[j]);
        assert(path_norm@.subrange(0, j + 1) =~= path_norm@.subrange(0, j as int).push(path_norm@[j as int]));
        assert(base + path_norm@.subrange(0, j + 1) =~= (base + path_norm@.subrange(0, j as int)).push(path_norm@[j as int]));
        j += 1;
    }
    assert(path_norm@.subrange(0, path_norm@.len() as int) =~= path_norm@);
    (is_uri(fallback), t)
}

/// The fetch flags that a scheme suffix sets (`http+nocache`,
/// `https+nocompress`, `http+nocache+nocompress`).
#[derive(Clone, Copy, Debug, PartialEq, Eq, Structural)]
pub struct UriFlags {
    pub no_cache: bool,
    pub no_compress: bool,
}

/// The position of the first `:` of `u` at or after `i` (the length where
/// there is none).
pub open spec fn colon_pos(u: Seq<u8>, i: int) -> int
    decreases u.len() - i,
{
    if i < 0 || i >= u.len() {
        u.len() as int
    } else if u[i] == 58 {
        i
    } else {
        colon_pos(u, i + 1)
    }
}

pub open spec fn word_nocache() -> Seq<u8> {
    seq![110u8, 111, 99, 97, 99, 104, 101]
}

pub open spec fn word_nocompress() -> Seq<u8> {
    seq![110u8, 111, 99, 111, 109, 112, 114, 101, 115, 115]
}

/// Whether one of the suffixes (all parts but the first) is `w`.
pub open spec fn has_suffix(parts: Seq<Seq<u8>>, w: Seq<u8>) -> bool {
    exists|k: int| 1 <= k < parts.len() && parts[k] == w
}

/// The URL without the suffixes of its scheme, and the flags they set; the
/// scheme is compared and kept in lower case, suffixes other than `nocache`
/// and `nocompress` are dropped.
pub open spec fn uri_flags(u: Seq<u8>) -> (Seq<u8>, UriFlags) {
    let c = colon_pos(u, 0);
    let parts = split_on(lower_bytes(u.subrange(0, c)), 43);
    (parts[0] + u.subrange(c, u.len() as int), UriFlags {
        no_cache: has_suffix(parts, word_nocache()),
        no_compress: has_suffix(parts, word_nocompress()),
    })
}

/// Splits the fetch flags off the scheme of `u`, as `uri_flags` says.
pub fn get_uri(u: &[u8]) -> (r: (Vec<u8>, UriFlags))
    ensures
        r.0@ == uri_flags(u@).0,
        r.1 == uri_flags(u@).1,
{
    let mut c: usize = 0;
    while c < u.len() && u[c] != 58
        invariant
            c <= u.len(),
            colon_pos(u@, 0) == colon_pos(u@, c as int),
        decreases u.len() - c,
    {
        c += 1;
    }
    let scheme_raw = vstd::slice::slice_subrange(u, 0, c);
    let scheme_v = crate::util::to_lower(scheme_raw);
    let scheme = scheme_v.as_slice();
    let parts = split_at_byte(scheme, 43);
    let ghost f = fields_view(parts@);
    proof {
        crate::request::lemma_split_fields_nonempty(scheme@, 43);
    }
    let nocache: [u8; 7] = [110, 111, 99, 97, 99, 104, 101];
    let nocompress: [u8; 10] = [110, 111, 99, 111, 109, 112, 114, 101, 115, 115];
    assert(nocache@ =~= word_nocache());
    assert(nocompress@ =~= word_nocompress());
    let mut flags = UriFlags { no_cache: false, no_compress: false };
    let mut k: usize = 1;
    while k < parts.len()
        invariant
            1 <= k <= parts@.len() || parts@.len() == 0,
            f == fields_view(parts@),
            nocache@ == word_nocache(),
            nocompress@ == word_nocompress(),
            flags.no_cache == exists|j: int| 1 <= j < k && f[j] == word_nocache(),
            flags.no_compress == exists|j: int| 1 <= j < k && f[j] == word_nocompress(),
        decreases parts@.len() - k,
    {
        assert(f[k as int] == parts@[k as int]@);
        if bytes_equal(parts[k].as_slice(), nocache.as_slice()) {
            flags.no_cache = true;
        }
        if bytes_equal(parts[k].as_slice(), nocompress.as_slice()) {
            flags.no_compress = true;
        }
        proof {
            assert(flags.no_cache == exists|j: int| 1 <= j < k + 1 && f[j] == word_nocache()) by {
                if flags.no_cache {
                    if f[k as int] != word_nocache() {
                        let j = choose|j: int| 1 <= j < k && f[j] == word_nocache();
                    }
                } else {
                    assert(f[k as int] != word_nocache());
                }
            }
            assert(flags.no_compress == exists|j: int| 1 <= j < k + 1 && f[j] == word_nocompress()) by {
                if flags.no_compress {
                    if f[k as int] != word_nocompress() {
                        let j = choose|j: int| 1 <= j < k && f[j] == word_nocompress();
                    }
                } else {
                    assert(f[k as int] != word_nocompress());
                }
            }
        }
        k += 1;
    }
    let mut res = crate::datagram::copy_range(parts[0].as_slice(), 0, parts[0].len());
    assert(parts@[0]@.subrange(0, parts@[0]@.len() as int) =~= parts@[0]@);
    let ghost base = res@;
    let mut j: usize = c;
    while j < u.len()
        invariant
            c <= j <= u.len(),
            res@ == base + u@.subrange(c as int, j as int),
        decreases u.len() - j,
    {
        res.push(u[j]);
        assert(u@.subrange(c as int, j + 1) =~= u@.subrange(c as int, j as int).push(u@[j as int]));
        assert(base + u@.subrange(c as int, j + 1) =~= (base + u@.subrange(c as int, j as int)).push(u@[j as int]));
        j += 1;
    }
    (res, flags)
}

} // verus!
