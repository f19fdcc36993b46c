use vstd::prelude::*;

verus! {

/// Why a system could not be started.
#[derive(Debug)]
pub enum Error {
    ThreadPoolTooSmall { required: usize, available: usize },
    InvalidServerAddress(String),
    ServerBindFailed(u16),
}

} // verus!
