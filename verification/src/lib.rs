//! A small HTTP/1.1 server core: a request parser that works line by line,
//! and the bookkeeping of a fixed-size worker pool.
//!
//! Everything in this crate is verified. Sockets and threads live with the
//! caller, which feeds lines to the parser and runs the jobs the pool hands out.

pub mod error;
pub mod grammar;
pub mod headers;
pub mod history;
pub mod method;
pub mod parser;
pub mod pool;
pub mod request;
pub mod response;
pub mod text;

pub use crate::error::ParseRequestError;
pub use crate::method::{Method, ParseMethodError};
pub use crate::parser::{Progress, RequestParser};
pub use crate::pool::{JobOutcome, PoolError, Step, WorkerPool, WorkerState};
pub use crate::request::Request;
