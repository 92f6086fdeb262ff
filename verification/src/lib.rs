//! Verified core of a push-to-talk speech-to-text client: the recording state
//! machine and the decisions its controller takes, the sample bookkeeping of
//! the audio capture, the WAV encoding of a recording, the interface status,
//! and the stub devices.
pub mod app_state;
pub mod audio;
pub mod commands;
pub mod hotkey;
pub mod http;
pub mod text_injector;
pub mod wav;

use vstd::prelude::*;

verus! {

/// The greeting the interface answers a name with.
pub open spec fn greeting(name: Seq<char>) -> Seq<char> {
    "Hello, "@ + name + "! You've been greeted from Rust!"@
}

/// Greets `name`.
pub fn greet(name: &str) -> (r: String)
    ensures
        r@ == greeting(name@),
{
    String::from_str("Hello, ").concat(name).concat("! You've been greeted from Rust!")
}

} // verus!
