//! The router's model: its configuration and the status it reports.

pub mod address_value;
pub mod config;
pub mod status;
pub mod routing;
pub mod layout;
pub mod utils;

pub use config::{
    IpAddress, IpAddressType, NetworkInterface, NetworkLink, NetworkLinkType, RouteSource, Router,
    StaticRoute, Vrf, VrfTable,
};
pub use status::{NetworkInterfaceStatus, NetworkLinkOperationalState, NetworkLinkStatus};
