//! Verified gRPC-web framing and reading-status rules of the Sakuin command-line client.

pub mod text;
pub mod grpc_web;
pub mod status;
pub mod cli;
