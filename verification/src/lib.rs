//! Core of a multi-user, multi-group chat server: session and authentication
//! management, a line-framed text command protocol, encrypted message storage
//! with deterministic per-chat keys, and the routing decisions of the
//! real-time fan-out plane.
pub mod client_model;
pub mod crypto;
pub mod dispatch;
pub mod envelope;
pub mod groups;
pub mod lex;
pub mod message_parser;
pub mod messaging;
pub mod model;
pub mod realtime;
pub mod session;
pub mod textnum;
pub mod users;
