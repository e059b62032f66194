use vstd::prelude::*;

pub mod args;
pub mod bufcache;
pub mod disktest;
pub mod error;
pub mod format;
pub mod generator;
pub mod hasher;
pub mod kdf;
pub mod rawio;
pub mod seed;
pub mod stream;
pub mod stream_aggregator;
pub mod util;

pub use crate::disktest::{Disktest, DisktestQuiet};
pub use crate::error::{Error, ErrorKind};
pub use crate::format::{prettybytes, Hhmmss};
pub use crate::rawio::{MemRawIo, RawIoOsIntf, RawIoResult};
pub use crate::stream::DtStreamType;
pub use crate::util::{fold, parsebytes};

verus! {

} // verus!
