//! Link and address reports of netlink read into the router's model, and a
//! cache of interface names and indexes.

pub mod cache;
pub mod link;
pub mod route;
