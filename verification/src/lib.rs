//! Peer-to-peer pipes and tunnels over QUIC, and the UDP relay that
//! introduces the peers: the decisions, parsers and state of the program,
//! verified. Sockets, processes, TLS and the asynchronous runtime live in the
//! application around this library.
pub mod clock;
pub mod net;
pub mod table;
pub mod text;
pub mod room;
pub mod rooms;
pub mod hex;
pub mod seqs;
pub mod number;
pub mod config;
pub mod env;
pub mod links;
pub mod pending;
pub mod packet;
pub mod packet_laws;
pub mod model;
pub mod relay;
pub mod relay_laws;
pub mod relay_progress;
pub mod rate_laws;
pub mod relay_state;
pub mod drop_log;
pub mod exchange;
pub mod flags;
pub mod cli;
pub mod command;
pub mod plan;
pub mod command_laws;
pub mod flag_laws;
mod random;
pub mod transport;
pub mod session;
pub mod session_laws;
pub mod wire_laws;
pub mod resolver;
pub mod address_laws;
pub mod tunnel_request;
pub mod request_laws;
pub mod ascii;
pub mod tunnel_config;
pub mod tunnel_allow;
pub mod tunnel;
pub mod tunnel_laws;
pub mod tunnel_log;
pub mod role;
pub mod copy;
pub mod pool;
pub mod stdin_reader;
pub mod cert;
pub mod options;
pub mod pipe;
pub mod exec;
pub mod exec_run;
pub mod punch;
pub mod setting_laws;
pub mod connect;
pub mod logger;
pub mod stats;
pub mod outcome_laws;
pub mod text_laws;
