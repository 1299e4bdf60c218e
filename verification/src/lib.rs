pub mod bpf;
pub mod config;
pub mod desktop;
pub mod error;
pub mod handler;
pub mod json;
pub mod net;
pub mod packet;
pub mod proto;
pub mod proxy;
pub mod scan;
pub mod sniffer;
pub mod text;
pub mod xray;
pub mod xray_config;
