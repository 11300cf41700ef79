//! Shared expenses with friends: a store of users and payments whose balances
//! are derived from the payments alone, the state of the application and the
//! messages that change it, and the text shown for payments and balances.
//! Amounts are whole cents.

pub mod amount;
pub mod db;
pub mod messages;
pub mod app;
pub mod update;
pub mod display;
