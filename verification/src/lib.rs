//! The wire-protocol core of a small HTTP/1.1 server.
//!
//! The crate holds what such a server decides, and nothing that it does to
//! the outside: a program around it reads and writes the streams and the
//! files, and asks the crate what they mean and what comes next.
//!
//! - `message`: requests and responses.
//! - `request`: the parser, from the bytes of a message to a request.
//! - `response`: the serializer, from a response to its bytes.
//! - `routes` and `router`: the route table and the dispatch of a request.
//! - `worker`: the life of one connection, as a state machine.
//! - `pool`: the schedule of a pool of workers.
//! - `laws` and `reading`: what holds of these together.
//! - `text` and `decimal`: bytes as text and as numbers.

pub mod decimal;
pub mod laws;
pub mod message;
pub mod pool;
pub mod reading;
pub mod request;
pub mod response;
pub mod router;
pub mod routes;
pub mod text;
pub mod worker;
