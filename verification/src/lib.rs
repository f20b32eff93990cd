//! Nonolith Connect: a server for source-measure units on USB.

pub mod capture;
pub mod command;
pub mod config;
pub mod delivery;
pub mod device;
pub mod digits;
pub mod effect;
pub mod float;
pub mod form;
pub mod jsonutil;
pub mod laws;
pub mod listener;
pub mod messages;
pub mod net;
pub mod rest;
pub mod source;
pub mod state;
pub mod streaming;
pub mod text;
pub mod usb;
pub mod wire;
pub mod ws;

use vstd::prelude::*;

verus! {

/// The version of the protocols.
pub const SERVER_VERSION: &'static str = "1.3";

/// What the program was built from: the revision that the build named, if it
/// named one.
pub fn server_git_version(named: Option<&'static str>) -> (r: &'static str)
    ensures
        r@ == (match named {
            Some(v) => v@,
            None => "unknown"@,
        }),
{
    match named {
        Some(v) => v,
        None => "unknown",
    }
}

} // verus!
