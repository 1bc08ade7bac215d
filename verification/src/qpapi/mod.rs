//! The QueryPie API: the gRPC-Web protocol and the decisions and decoding
//! around each call.
pub mod grpcweb;
pub mod sql;
pub mod catalog;
pub mod session;
