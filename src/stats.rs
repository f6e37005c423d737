//! Per-session counters.
use vstd::prelude::*;

verus! {

#[derive(Clone, Copy, Debug, PartialEq, Eq, Structural)]
pub enum Direction {
    Wrq,
    Rrq,
}

impl Direction {
    pub fn as_arrow(&self) -> (r: &'static str)
        ensures
            r@ == match self {
                Direction::Wrq => "<="@,
                Direction::Rrq => "=>"@,
            },
    {
        match self {
            Direction::Wrq => "<=",
            Direction::Rrq => "=>",
        }
    }
}

/// What a session did: sizes in bytes.
#[derive(Clone, Debug)]
pub struct Stats {
    pub direction: Direction,
    pub filesize: u64,
    pub xmitsz: u64,
    pub retries: u32,
    pub wastedsz: u64,
    pub num_timeouts: u32,
    pub window_size: u16,
    pub block_size: u16,
    pub filename: String,
    pub remote_ip: String,
    pub local_ip: String,
    pub is_complete: bool,
}

impl Stats {
    /// Counters at zero for a session in direction `direction`.
    pub fn new(direction: Direction) -> (r: Stats)
        ensures
            r.direction == direction,
            r.filesize == 0,
            r.xmitsz == 0,
            r.retries == 0,
            r.wastedsz == 0,
            r.num_timeouts == 0,
            r.window_size == 0,
            r.block_size == 0,
            r.filename@.len() == 0,
            r.remote_ip@.len() == 0,
            r.local_ip@.len() == 0,
            !r.is_complete,
    {
        Stats {
            direction,
            filesize: 0,
            xmitsz: 0,
            retries: 0,
            wastedsz: 0,
            num_timeouts: 0,
            window_size: 0,
            block_size: 0,
            filename: String::new(),
            remote_ip: String::new(),
            local_ip: String::new(),
            is_complete: false,
        }
    }

    /// Whether anything was sent twice or went missing.
    pub fn has_errors(&self) -> (r: bool)
        ensures
            r == (self.filesize != self.xmitsz || self.retries != 0 || self.wastedsz != 0
                || self.num_timeouts != 0),
    {
        self.filesize != self.xmitsz || self.retries != 0 || self.wastedsz != 0
            || self.num_timeouts != 0
    }
}

} // verus!
