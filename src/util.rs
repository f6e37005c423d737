//! Byte-string helpers shared by the TFTP and HTTP parsers.
use vstd::prelude::*;

verus! {

/// ASCII lower-casing of one byte.
pub open spec fn lower_byte(c: u8) -> u8 {
    if 65 <= c && c <= 90 {
        (c + 32) as u8
    } else {
        c
    }
}

/// ASCII lower-casing of a byte string.
pub open spec fn lower_bytes(s: Seq<u8>) -> Seq<u8> {
    s.map_values(|c: u8| lower_byte(c))
}

pub open spec fn is_digit(c: u8) -> bool {
    48 <= c && c <= 57
}

/// Reads the decimal digits of `s` from left to right and stops at the first
/// failure: a byte that is no digit, or a value that leaves the range of `u64`.
pub open spec fn scan_decimal(s: Seq<u8>) -> Result<int, ScanError>
    decreases s.len(),
{
    if s.len() == 0 {
        Ok(0)
    } else {
        match scan_decimal(s.drop_last()) {
            Err(e) => Err(e),
            Ok(v) => {
                let c = s.last();
                if !is_digit(c) {
                    Err(ScanError::BadDigit(c))
                } else if v * 10 + (c - 48) > u64::MAX as int {
                    Err(ScanError::Overflow)
                } else {
                    Ok(v * 10 + (c - 48))
                }
            }
        }
    }
}

/// Why a decimal number could not be read.
#[derive(Clone, Copy, Debug, PartialEq, Eq, Structural)]
pub enum ScanError {
    BadDigit(u8),
    Overflow,
}

/// Returns `s` with the ASCII letters `A`-`Z` lowered.
pub fn to_lower(s: &[u8]) -> (r: Vec<u8>)
    ensures
        r@ == lower_bytes(s@),
{
    let mut res: Vec<u8> = Vec::with_capacity(s.len());
    let mut i: usize = 0;
    while i < s.len()
        invariant
            i <= s.len(),
            res@ == lower_bytes(s@.subrange(0, i as int)),
        decreases s.len() - i,
    {
        let c = s[i];
        let l = if 65 <= c && c <= 90 {
            c + 32
        } else {
            c
        };
        res.push(l);
        proof {
            assert(lower_bytes(s@.subrange(0, i + 1)) =~= lower_bytes(s@.subrange(0, i as int)).push(
                lower_byte(c),
            ));
        }
        i += 1;
    }
    assert(s@.subrange(0, s.len() as int) =~= s@);
    res
}

/// Reads `s` as a decimal number, as `scan_decimal` describes.
pub fn scan_u64(s: &[u8]) -> (r: Result<u64, ScanError>)
    ensures
        match r {
            Ok(v) => scan_decimal(s@) == Ok::<int, ScanError>(v as int),
            Err(e) => scan_decimal(s@) == Err::<int, ScanError>(e),
        },
{
    let mut tmp: u64 = 0;
    let mut i: usize = 0;
    while i < s.len()
        invariant
            i <= s.len(),
            scan_decimal(s@.subrange(0, i as int)) == Ok::<int, ScanError>(tmp as int),
        decreases s.len() - i,
    {
        let c = s[i];
        assert(s@.subrange(0, i + 1).drop_last() =~= s@.subrange(0, i as int));
        if c < 48 || c > 57 {
            proof {
                lemma_scan_stops(s@, i as int);
            }
            return Err(ScanError::BadDigit(c));
        }
        let d = (c - 48) as u64;
        if tmp > (u64::MAX - d) / 10 {
            proof {
                lemma_scan_stops(s@, i as int);
            }
            return Err(ScanError::Overflow);
        }
        tmp = tmp * 10 + d;
        i += 1;
    }
    assert(s@.subrange(0, s.len() as int) =~= s@);
    Ok(tmp)
}

/// Once the scan of a prefix fails, the scan of every longer prefix fails
/// the same way.
proof fn lemma_scan_error_sticks(s: Seq<u8>, i: int, j: int)
    requires
        0 <= i <= j <= s.len(),
        scan_decimal(s.subrange(0, i)) is Err,
    ensures
        scan_decimal(s.subrange(0, j)) == scan_decimal(s.subrange(0, i)),
    decreases j - i,
{
    if j > i {
        lemma_scan_error_sticks(s, i, j - 1);
        assert(s.subrange(0, j).drop_last() =~= s.subrange(0, j - 1));
    }
}

proof fn lemma_scan_stops(s: Seq<u8>, i: int)
    requires
        0 <= i < s.len(),
        scan_decimal(s.subrange(0, i + 1)) is Err,
    ensures
        scan_decimal(s) == scan_decimal(s.subrange(0, i + 1)),
{
    lemma_scan_error_sticks(s, i + 1, s.len() as int);
    assert(s.subrange(0, s.len() as int) =~= s);
}

} // verus!
