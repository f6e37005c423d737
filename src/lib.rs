//! A TFTP server core: wire codec, transfer window, session decisions and an
//! HTTP-backed content cache.
pub mod bucket;
pub mod cache;
pub mod cache_control;
pub mod cache_info;
pub mod datagram;
pub mod errors;
pub mod fetcher;
pub mod mode;
pub mod oack;
pub mod path;
pub mod registry;
pub mod request;
pub mod sequence_id;
pub mod session;
pub mod stats;
pub mod time;
pub mod util;
pub mod xfer;

pub use errors::{Error, RequestError, RequestResult, Result};
pub use mode::Mode;
pub use sequence_id::SequenceId;
