pub mod xdp_ingress;

pub use xdp_ingress::{PacketView, XdpIngress};
