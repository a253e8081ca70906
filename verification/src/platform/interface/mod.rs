//! The interface manager: what it keeps of each link and interface, and how
//! netlink's reports and periodic scans update it.

pub mod model;
pub mod database;
pub mod listener;
pub mod reconcile;
pub mod worker;
