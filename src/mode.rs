//! The transfer mode of a request.
use vstd::prelude::*;
use crate::errors::RequestError;
use crate::util::{lower_bytes, to_lower};

verus! {

#[derive(Clone, Copy, Debug, PartialEq, Eq, Structural)]
pub enum Mode {
    NetAscii,
    Octet,
    Mail,
}

pub open spec fn word_netascii() -> Seq<u8> {
    seq![110u8, 101, 116, 97, 115, 99, 105, 105]
}

pub open spec fn word_octet() -> Seq<u8> {
    seq![111u8, 99, 116, 101, 116]
}

pub open spec fn word_binary() -> Seq<u8> {
    seq![98u8, 105, 110, 97, 114, 121]
}

pub open spec fn word_mail() -> Seq<u8> {
    seq![109u8, 97, 105, 108]
}

/// The mode that a mode field names, compared without regard to case;
/// `binary` is the old name of `octet`.
pub open spec fn mode_of(s: Seq<u8>) -> Result<Mode, RequestError> {
    let l = lower_bytes(s);
    if l == word_netascii() {
        Ok(Mode::NetAscii)
    } else if l == word_octet() || l == word_binary() {
        Ok(Mode::Octet)
    } else if l == word_mail() {
        Ok(Mode::Mail)
    } else {
        Err(RequestError::BadMode)
    }
}

/// Whether two byte strings are equal.
pub fn bytes_equal(a: &[u8], b: &[u8]) -> (r: bool)
    ensures
        r == (a@ == b@),
{
    if a.len() != b.len() {
        return false;
    }
    let mut i: usize = 0;
    while i < a.len()
        invariant
            a.len() == b.len(),
            i <= a.len(),
            a@.subrange(0, i as int) == b@.subrange(0, i as int),
        decreases a.len() - i,
    {
        if a[i] != b[i] {
            assert(a@[i as int] != b@[i as int]);
            return false;
        }
        assert(a@.subrange(0, i + 1) =~= a@.subrange(0, i as int).push(a@[i as int]));
        assert(b@.subrange(0, i + 1) =~= b@.subrange(0, i as int).push(b@[i as int]));
        i += 1;
    }
    assert(a@ =~= a@.subrange(0, i as int));
    assert(b@ =~= b@.subrange(0, i as int));
    true
}

impl Mode {
    /// Decodes a mode field.
    pub fn from_bytes(s: &[u8]) -> (r: Result<Mode, RequestError>)
        ensures
            r == mode_of(s@),
    {
        let l = to_lower(s);
        let netascii: [u8; 8] = [110, 101, 116, 97, 115, 99, 105, 105];
        let octet: [u8; 5] = [111, 99, 116, 101, 116];
        let binary: [u8; 6] = [98, 105, 110, 97, 114, 121];
        let mail: [u8; 4] = [109, 97, 105, 108];
        assert(netascii@ =~= word_netascii());
        assert(octet@ =~= word_octet());
        assert(binary@ =~= word_binary());
        assert(mail@ =~= word_mail());
        if bytes_equal(l.as_slice(), netascii.as_slice()) {
            Ok(Mode::NetAscii)
        } else if bytes_equal(l.as_slice(), octet.as_slice()) || bytes_equal(
            l.as_slice(),
            binary.as_slice(),
        ) {
            Ok(Mode::Octet)
        } else if bytes_equal(l.as_slice(), mail.as_slice()) {
            Ok(Mode::Mail)
        } else {
            Err(RequestError::BadMode)
        }
    }

    pub fn is_octet(&self) -> (r: bool)
        ensures
            r == (*self == Mode::Octet),
    {
        match self {
            Mode::Octet => true,
            _ => false,
        }
    }
}

} // verus!
