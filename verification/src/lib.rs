//! A network router's packet formats, configuration model and interface bookkeeping.

pub mod text;
pub mod common;
pub mod net;
pub mod proto_common;
pub mod proto_ip;
pub mod ospfv2;
pub mod collections;
pub mod ordering;
pub mod model;
pub mod platform;
pub mod netlink;
pub mod speaker;
