//! Request routing: a tree of routers whose filters are tried against a
//! request and its path, yielding the middleware chain and the handler of
//! the first matching leaf.

pub mod text;
pub mod request;
pub mod path_state;
pub mod filter;
pub mod handler;
pub mod router;
pub mod listing;
pub mod foreign;
pub mod pattern;
pub mod path_filter;
pub mod laws;
