//! Verified core of a gRPC GUI client: the window's services and tabs and
//! what each command does to them, the saved form of the window, the
//! decisions taken while connecting, sending and receiving, the request
//! metadata and authorization hook, and the decoding of protobuf messages
//! into JSON values.
use vstd::prelude::*;

pub mod method_kind;
pub mod uri;
pub mod request;
pub mod body;
pub mod json;
pub mod wire;
pub mod tab;
pub mod text;
pub mod ty;
pub mod decode_buf;
pub mod format;
pub mod decode;
pub mod well_known;
pub mod address;
pub mod channel;
pub mod connection;
pub mod grpc;
pub mod error;
pub mod descriptor;
pub mod stream;
pub mod metadata;
pub mod auth;
pub mod client;
pub mod config;
pub mod sidebar;
pub mod app_state;
pub mod session;
pub mod reflection;
pub mod compile;
pub mod file_set;
pub mod address_bar;
pub mod tabs_data;
pub mod stream_item;
pub mod pool;
pub mod decode_laws;

verus! {

} // verus!
