//! Client accounts that are credited and debited under a credit limit.
//!
//! A request is checked (`validation`), applied to the balance of its
//! account (`models`, `ledger`) by a course of steps against a store
//! (`mutator`), and answered (`boundary`). A statement shows a balance with
//! the latest transactions of its account (`statement`). `memory` keeps
//! accounts without a database, `contention` serves many transactions at once
//! on one account, and `serial` says what that comes to.

pub mod boundary;
pub mod clock;
pub mod config;
pub mod contention;
pub mod decimal;
pub mod ledger;
pub mod memory;
pub mod models;
pub mod mutator;
pub mod persistence;
pub mod procedure;
pub mod serial;
pub mod statement;
pub mod validation;
