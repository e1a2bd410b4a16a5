//! An accounting ledger: users with balances, companies with their funders,
//! and the expense, income and document records that refer to them.

pub mod auth;
pub mod clock;
pub mod error;
pub mod file_system;
pub mod ids;
pub mod text;
pub mod table;
pub mod models;
pub mod response;
pub mod store;
pub mod laws;
