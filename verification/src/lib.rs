//! A dynamic gRPC client library.
//!
//! The crate models Protobuf schemas as plain data, resolves symbols through a
//! verified descriptor pool, drives the server-reflection import closure as a
//! state machine, and plans dynamic calls (unary, server-streaming,
//! client-streaming, bidirectional) from JSON bodies and header lists.

use vstd::prelude::*;

pub mod client;
pub mod codec;
pub mod descriptor;
pub mod dispatch;
pub mod docgen;
pub mod echo;
pub mod format;
pub mod metadata;
pub mod json;
pub mod parse;
pub mod reflection;
pub mod status;
pub mod text;

verus! {

} // verus!
