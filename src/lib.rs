//! A registry of users, each stored under a unique identity together with an
//! account identifier and a balance in e8s.
//!
//! `BackendState` owns the records. Its model is a finite map from identity
//! to `AccountEntry`; `add_or_update_user` inserts or replaces one entry and
//! `get_all_users` hands out copies of every record, in no promised order.

pub mod user;
pub mod registry;
pub mod laws;
