//! A DNS message codec and the decision logic of a stub resolver.
//!
//! `binary` holds the byte sink and the byte cursor, `resource` and `message`
//! the data model and its wire format, `resolver` the nameserver list and the
//! steps of one resolution. `roundtrip` proves that what `message` writes it
//! also reads. `query` holds a query over names that are fixed when the
//! program is built, `answer` an answer with a payload of the caller's type.
//!
//! Nothing here opens a file or a socket: the caller reads the resolver
//! configuration, carries out the exchanges that the resolver asks for, and
//! hands back what they brought.

#![allow(unused_imports)]

pub mod answer;
pub mod binary;
pub mod message;
pub mod query;
pub mod resolver;
pub mod resource;
pub mod roundtrip;
