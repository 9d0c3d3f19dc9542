//! Authorization for content-addressed storage: key fingerprints, keyspace
//! documents and their version chains, access grants, file ownership and
//! capability tokens.

pub mod capability;
pub mod canonical;
pub mod capability_wire;
pub mod error;
pub mod fingerprint;
pub mod grant;
pub mod keyspace;
pub mod keyspace_store;
pub mod nesting;
pub mod ownership;
pub mod rows;
