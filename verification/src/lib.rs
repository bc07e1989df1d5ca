//! Decision logic of the SHV RPC command line client.

pub mod burst;
pub mod call;
pub mod chainpack;
pub mod cpon;
pub mod direct;
pub mod endpoint;
pub mod number;
pub mod opts;
pub mod output;
pub mod pending;
pub mod session;
pub mod socket;
pub mod text;
pub mod tunnel;
pub mod walk;
pub mod wire;
