//! Verified core of the Crucible testing toolkit for Soroban contracts.

pub mod approx;
pub mod assertions;
pub mod auth_tree;
pub mod call_graph;
pub mod checkpoint;
pub mod clock;
pub mod cost;
pub mod crypto;
pub mod env;
pub mod event_topic_match;
pub mod fixture_graph;
pub mod governance;
pub mod profiler;
pub mod proxy;
pub mod quickcheck;
pub mod sim;
pub mod soroban;
pub mod state;
pub mod storage_size;
pub mod text;
pub mod time;
pub mod trace_events;
pub mod treasury;
pub mod zk;
pub mod zk_verifier;

pub use self::time as time_helpers;
