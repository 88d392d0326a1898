//! The server's startup configuration: the address it listens on.
//!
//! Reading the configuration file and decoding it belong to the unverified
//! edge of a program; this crate only holds the resulting plain values.
use vstd::prelude::*;

verus! {

/// The listen address, as a configuration file supplies it.
#[derive(Debug, Clone)]
pub struct Conf {
    pub ip: String,
    pub port: u32,
}

} // verus!
