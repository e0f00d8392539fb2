//! The query execution core of an edge database node, and the thin services
//! that sit beside it.
//!
//! A statement is compiled into a plan ([`lexer`], [`plan`]). A plan can be
//! kept under a name for later ([`plan_cache`]). An execution of a plan
//! ([`coordinator`]) is a machine that is driven step by step: it asks for
//! rows of its source, emits frames ([`frame`]) into a bounded result stream
//! ([`stream`]), and finishes. The requests in flight, and whether one was
//! asked to stop, are kept in a registry ([`registry`]). The query service
//! ([`query`]) ties these together and gives every request an identifier of
//! its own ([`ident`]).
//!
//! Nothing in this crate waits, reads a clock or talks to a network. Whoever
//! serves callers does that, and hands the crate plain values.
//!
//! The data, index, search and analytics services ([`kv`], [`index`],
//! [`search`], [`analytics`]) hold nothing yet; they say so in what they
//! answer.

pub mod ack;
pub mod analytics;
pub mod coordinator;
pub mod endpoint;
pub mod frame;
pub mod ident;
pub mod index;
pub mod kv;
pub mod lexer;
pub mod plan;
pub mod plan_cache;
pub mod query;
pub mod registry;
pub mod search;
pub mod stream;
pub mod text;
