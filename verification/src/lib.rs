//! A small policy-enforcing DNS front-end: wire codec, rule engine, request
//! handling and the decision logic of the resolver and of the UDP peer manager.

pub mod buffer;
pub mod clock;
pub mod config;
pub mod error;
pub mod handler;
pub mod header;
pub mod logs;
pub mod name;
pub mod packet;
pub mod peers;
pub mod query_type;
pub mod question;
pub mod record;
pub mod resolver;
pub mod result_code;
pub mod round_trip;
pub mod rules;
pub mod text;
pub mod udp_serv;
