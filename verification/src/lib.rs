//! Membership accounting for a small club: a ledger primitive that posts
//! monetary movements to member accounts, a fee engine that derives the
//! monthly fees a member owes, and an import engine that reconciles incoming
//! bank transactions against member accounts under split, overflow and
//! duplicate-guard rules.
//!
//! Monetary amounts are integer cents throughout; dates are plain
//! year/month/day values.

pub mod accounting;
pub mod bank_import;
pub mod cli_args;
pub mod dates;
pub mod import;
pub mod language;
pub mod ledger;
pub mod member_fees;
pub mod members;
pub mod store;
pub mod text;
pub mod transactions;
