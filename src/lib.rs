//! Order placement and stock reservation for a distributor's shop backend.
//!
//! - `ledger`: the priced listings of products and their remaining stock.
//! - `discount`: which discount a listing carries at the time of an order.
//! - `directory`: the shops orders are placed for and the users who place them.
//! - `order`: orders, their lines, and what an order's total is.
//! - `store`: placing an order as one all-or-nothing step.
//! - `laws`: what holds of every placement and every run of placements.
//! - `query`: reading orders and order lines back, filtered and paged.
//! - `listing`: the paged list requests of the other screens.
//! - `auth`, `header`: sign-in, the bearer header and the token's subject.

pub mod ledger;
pub mod directory;
pub mod discount;
pub mod order;
pub mod store;
pub mod laws;
pub mod query;
pub mod listing;
pub mod auth;
pub mod header;
