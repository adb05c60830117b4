//! Coordination and checkpoint rules of the distributed training runtime.

pub mod clock;
pub mod error;
pub mod outside;
pub mod text;
pub mod text_laws;
pub mod types;
pub mod table;
pub mod pool;
pub mod hash;
pub mod lease;
pub mod lease_laws;
pub mod barrier;
pub mod barrier_laws;
pub mod membership;
pub mod membership_laws;
pub mod config;
pub mod coordinator;
pub mod storage;
pub mod layout;
pub mod chunker;
pub mod manifest;
pub mod checkpoint;
pub mod commit;
pub mod commit_laws;
pub mod recover;
pub mod cache;
pub mod io_engine;
pub mod status;
pub mod state;
pub mod runtime_svc;
pub mod checkpoint_svc;
pub mod checkpoint_svc_laws;
pub mod data_svc;
pub mod metrics;
pub mod cli;
