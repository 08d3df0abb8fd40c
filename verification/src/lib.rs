//! Unbounded first-in, first-out queues for any number of producers and
//! consumers, and the programs that were built around them.
//!
//! The queues:
//! - [`queue`]: what every queue does, and what follows from it for any run
//!   of producers and consumers;
//! - [`blocking`]: the queue that one lock guards;
//! - [`non_blocking`]: the queue without a lock, as a state machine of atomic
//!   accesses;
//! - [`interleaving`]: any number of threads on the queue without a lock,
//!   their accesses in any order, and what holds of every such run.
//!
//! Around them:
//! - [`text`], [`lines`], [`dict`]: texts as sequences of characters, and a
//!   table with texts as keys;
//! - [`search`]: the search for a pattern in the lines of a file;
//! - [`http`], [`pair`], [`request`], [`context`], [`combinations`],
//!   [`wire`], [`intake`], [`web_server`]: a small web server, from the
//!   bytes of a request to the text of the answer;
//! - [`multipart`], [`multipart_parser`], [`upload`], [`stats`]: uploaded
//!   files and what is counted in them;
//! - [`crawl`]: the bookkeeping of a search through linked pages;
//! - [`tasks`]: the shares of work that a number of tasks take.

pub mod blocking;
pub mod combinations;
pub mod context;
pub mod crawl;
pub mod dict;
pub mod http;
pub mod intake;
pub mod interleaving;
pub mod lines;
pub mod multipart;
pub mod multipart_parser;
pub mod non_blocking;
pub mod pair;
pub mod queue;
pub mod request;
pub mod search;
pub mod stats;
pub mod tasks;
pub mod text;
pub mod upload;
pub mod web_server;
pub mod wire;
