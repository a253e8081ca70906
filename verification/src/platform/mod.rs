//! The router on Linux: the interface manager that tracks network links and
//! interfaces from netlink, and the handling of netlink's framing.

pub mod interface;
pub mod netlink;
pub mod instance;
