//! A level-triggered reconciliation controller core for copying fields
//! between two key-value secret objects.
//!
//! The library holds the verified logic: the diff engine that computes the
//! minimal update set, the reconciler's decision steps, the fixed-cadence
//! requeue policy, the schema-version preflight check, and the requeue
//! interval parser. All cluster I/O lives outside the library and hands it
//! plain values.
pub mod controller;
pub mod crd;
pub mod diff;
pub mod duration;
pub mod patch;
pub mod secret_data;
