//! The decisions of the BentOS guest exec agent, verified: TLV framing, the protobuf messages it
//! carries, launching a child, the session protocol and the command line.

pub mod conversation;
pub mod env;
pub mod exec;
pub mod failure;
pub mod listener;
pub mod options;
pub mod proto;
pub mod protobuf;
pub mod session;
pub mod steps;
pub mod text;
pub mod wire;
