//! DNS wire protocol and iterative resolution, with machine-checked contracts.
//!
//! The crate encodes and decodes DNS messages (names with backward-pointer
//! compression, header, questions, resource records) and drives iterative
//! resolution as an explicit state machine that never touches a socket: the
//! caller sends the queries the machine asks for and feeds back what happened.
//!
//! Every executable function carries a contract over a mathematical model of
//! its data: a name is a sequence of labels, a buffer a sequence of bytes, a
//! message a record of sequences. The modules whose names end in `_laws` hold
//! what follows from the contracts for all inputs: round trips, the effect of
//! compression, the fate of truncated buffers and of pointer loops, and the
//! bounds within which every resolution ends.
//!
//! - [`error`]: the failure reasons.
//! - [`wire`]: big-endian integers.
//! - [`name`], [`name_laws`]: domain names, their text and their wire form.
//! - [`header`], [`question`], [`record`]: the parts of a message.
//! - [`message`], [`message_laws`]: whole messages.
//! - [`query`]: the query that asks one question.
//! - [`random`]: query ids from a seeded generator of the `rand` crate, taken
//!   on trust.
//! - [`outcome`]: what a response means for a lookup.
//! - [`resolver`], [`resolver_laws`]: the state machine of a resolution.

pub mod error;
pub mod header;
pub mod message;
pub mod message_laws;
pub mod name;
pub mod name_laws;
pub mod outcome;
pub mod query;
pub mod question;
pub mod random;
pub mod record;
pub mod resolver;
pub mod resolver_laws;
pub mod wire;
