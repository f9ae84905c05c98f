//! TCP tunnelling over the Dahua peer-to-peer protocol: the protocol's rules, without its sockets.
pub mod accept;
pub mod buffer;
pub mod buffer_laws;
pub mod bytes;
pub mod channel;
pub mod clients;
pub mod config;
pub mod error;
pub mod fdlog;
pub mod fields;
pub mod health;
pub mod jitter_laws;
pub mod metrics;
pub mod operation_laws;
pub mod options;
pub mod probe;
pub mod random;
pub mod realm_laws;
pub mod realms;
pub mod report_laws;
pub mod routing_laws;
pub mod run;
pub mod seq_order;
pub mod shutdown;
pub mod sorted_keys;
pub mod supervisor;
pub mod text;
pub mod text_laws;
pub mod time;
pub mod traffic_laws;
pub mod transport;
pub mod tunnel;
