//! TFTP block numbers: 16-bit counters that wrap around.
use vstd::prelude::*;

verus! {

/// The size of the sequence space.
pub open spec fn seq_modulus() -> int {
    0x10000
}

/// `a - b` modulo 2^16.
pub open spec fn wrap_diff(a: u16, b: u16) -> int {
    (a as int - b as int) % seq_modulus()
}

/// `a` lies strictly before `b` on the half circle that starts at `a`.
pub open spec fn seq_before(a: u16, b: u16) -> bool {
    let d = wrap_diff(b, a);
    d != 0 && 2 * d < 0xffff
}

/// A block number of a transfer; arithmetic on it wraps modulo 2^16.
#[derive(Clone, Copy, Debug, Default, PartialEq, Eq, Structural)]
pub struct SequenceId(pub u16);

impl SequenceId {
    pub fn new(v: u16) -> (r: Self)
        ensures
            r.0 == v,
    {
        SequenceId(v)
    }

    /// `self - other` modulo 2^16.
    pub fn delta(self, other: Self) -> (r: u16)
        ensures
            r as int == wrap_diff(self.0, other.0),
    {
        let r = self.0.wrapping_sub(other.0);
        proof {
            let a = self.0 as int;
            let b = other.0 as int;
            if a >= b {
                assert((a - b) % 0x10000 == a - b);
            } else {
                assert((a - b) % 0x10000 == a - b + 0x10000) by {
                    assert(a - b + 0x10000 >= 0);
                    assert(a - b + 0x10000 < 0x10000);
                }
            }
        }
        r
    }

    /// The successor `n` steps further, modulo 2^16.
    pub fn plus(self, n: u16) -> (r: Self)
        ensures
            r.0 as int == (self.0 as int + n as int) % seq_modulus(),
    {
        SequenceId(self.0.wrapping_add(n))
    }

    pub fn as_u16(self) -> (r: u16)
        ensures
            r == self.0,
    {
        self.0
    }

    /// The big-endian encoding.
    pub fn as_slice(self) -> (r: [u8; 2])
        ensures
            r@ == seq![(self.0 / 256) as u8, (self.0 % 256) as u8],
    {
        let r = [self.as_u8_hi(), self.as_u8_lo()];
        assert(r@ =~= seq![(self.0 / 256) as u8, (self.0 % 256) as u8]);
        r
    }

    pub fn as_u8_hi(self) -> (r: u8)
        ensures
            r as int == self.0 / 256,
    {
        (self.0 / 256) as u8
    }

    pub fn as_u8_lo(self) -> (r: u8)
        ensures
            r as int == self.0 % 256,
    {
        (self.0 % 256) as u8
    }

    /// Whether `self` lies before `other` on the half circle.
    pub fn is_before(self, other: Self) -> (r: bool)
        ensures
            r == seq_before(self.0, other.0),
    {
        let d = other.delta(self) as u32;
        d != 0 && 2 * d < 0xffff
    }
}

/// The order of block numbers: `a < b` when `b - a` (mod 2^16) is in `(0, 2^15)`.
pub open spec fn seq_partial_cmp(a: u16, b: u16) -> Option<std::cmp::Ordering> {
    if a == b {
        Some(std::cmp::Ordering::Equal)
    } else if seq_before(a, b) {
        Some(std::cmp::Ordering::Less)
    } else {
        Some(std::cmp::Ordering::Greater)
    }
}

impl PartialOrd for SequenceId {
    fn partial_cmp(&self, other: &SequenceId) -> (r: Option<std::cmp::Ordering>) {
        let d = other.delta(*self) as u32;
        if d == 0 {
            Some(std::cmp::Ordering::Equal)
        } else if 2 * d < 0xffff {
            Some(std::cmp::Ordering::Less)
        } else {
            Some(std::cmp::Ordering::Greater)
        }
    }
}

impl vstd::std_specs::cmp::PartialOrdSpecImpl for SequenceId {
    open spec fn obeys_partial_cmp_spec() -> bool {
        true
    }

    open spec fn partial_cmp_spec(&self, other: &SequenceId) -> Option<std::cmp::Ordering> {
        seq_partial_cmp(self.0, other.0)
    }
}

impl std::ops::Add<u16> for SequenceId {
    type Output = SequenceId;

    fn add(self, rhs: u16) -> (r: SequenceId) {
        self.plus(rhs)
    }
}

impl vstd::std_specs::ops::AddSpecImpl<u16> for SequenceId {
    open spec fn obeys_add_spec() -> bool {
        true
    }

    open spec fn add_req(self, rhs: u16) -> bool {
        true
    }

    open spec fn add_spec(self, rhs: u16) -> SequenceId {
        SequenceId(((self.0 as int + rhs as int) % seq_modulus()) as u16)
    }
}

/// Stepping `n < 2^15` blocks forward and measuring the distance back gives `n`,
/// and for `n > 0` the new number lies after the old one.
pub proof fn lemma_step_delta(a: u16, n: u16)
    requires
        n < 0x8000,
    ensures
        wrap_diff(((a as int + n as int) % seq_modulus()) as u16, a) == n as int,
        n > 0 ==> seq_before(a, ((a as int + n as int) % seq_modulus()) as u16),
{
    let s = a as int + n as int;
    if s < 0x10000 {
        assert(s % 0x10000 == s);
        assert((s - a as int) % 0x10000 == n as int);
    } else {
        assert(s % 0x10000 == s - 0x10000);
        assert((s - 0x10000 - a as int) % 0x10000 == n as int) by {
            assert(s - 0x10000 - a as int == n as int - 0x10000);
        }
    }
}

} // verus!
