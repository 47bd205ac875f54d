//! Network, DNS and command-line decisions of the Floppa VPN command-line client.

pub mod text;
pub mod net;
pub mod probe;
pub mod vless;
pub mod dns;
pub mod cli;
