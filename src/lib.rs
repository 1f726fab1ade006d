//! A localhost forward proxy that routes each request directly or through an
//! upstream proxy, as a proxy auto-configuration script decides.
//!
//! - `preamble`: reading an HTTP request preamble off a byte stream, and
//!   writing one back.
//! - `suggestion`: the answers of a proxy auto-configuration script.
//! - `wpad`: discovery of the script, and the resolver that answers each
//!   request from it.
//! - `handler`: where a connection goes and what is sent each way first.
//! - `ringbuffer`: a wrapping buffer for copying between two streams.
//! - `text`: searching and splitting sequences.

pub mod handler;
pub mod preamble;
pub mod ringbuffer;
pub mod suggestion;
pub mod text;
pub mod wpad;
