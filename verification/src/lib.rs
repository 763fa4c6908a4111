//! Direct-server routing and signed device messages.
//!
//! `direct_server` decides which hosts are reached past any tunnel and through which interfaces,
//! `socket_client` which way a connection takes, and `masterdesk_security` and `relay_ticket` sign
//! and verify the messages between devices, servers and relays. The laws that span several
//! functions stand beside them or in the modules named after them.
pub mod address;
pub mod bytes;
pub mod case_laws;
pub mod clock;
pub mod config;
pub mod direct_laws;
pub mod direct_server;
pub mod interface_laws;
pub mod ipv6_laws;
pub mod list_laws;
pub mod masterdesk_security;
pub mod message_laws;
pub mod payload_laws;
pub mod port_laws;
pub mod ports;
pub mod relay_ticket;
pub mod route_error;
pub mod routing_laws;
pub mod socket_client;
pub mod socket_text;
pub mod sodium;
pub mod text;
pub mod wire;
