//! On-device software-update agent.
//!
//! The library holds the verified core of the agent: package identities and
//! the on-disk layout derived from them (`package`), the per-package transfer
//! state with chunk assembly and checksum verification (`persistence`), the
//! table of active transfers with timeout eviction (`transfers`), the message
//! types exchanged with the backend (`message`), the JSON-RPC routing and the
//! per-service state transitions (`handler`), and the coordinator that turns
//! notifications into outbound actions (`main_loop`).

pub mod handler;
pub mod main_loop;
pub mod message;
pub mod package;
pub mod persistence;
pub mod transfers;
