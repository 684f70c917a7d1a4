//! Write-path core of a multi-tenant time-series database router.
//!
//! A write is admitted ([`admission`]), read and checked against the
//! guardrails of its namespace ([`line_protocol`], [`batch`], [`catalog`],
//! [`validator`]), planned over the endpoints that are known and healthy
//! ([`registry`], [`health`], [`prober`], [`plan`]), sent to each planned
//! endpoint and summed up to one outcome ([`dispatch`], [`outcome`]).
//! [`router`] puts these steps in order and [`config`] holds the values
//! that steer them. [`window`] is the query side's `difference` function.
//!
//! The library decides and counts; it makes no call and reads no clock.
//! Times are ticks that the caller hands in, and the results of calls
//! are reported to it.

pub mod admission;
pub mod batch;
pub mod bytes;
pub mod catalog;
pub mod catalog_laws;
pub mod config;
pub mod dispatch;
pub mod error;
pub mod health;
pub mod line_protocol;
pub mod names;
pub mod outcome;
pub mod plan;
pub mod prober;
pub mod registry;
pub mod router;
pub mod search;
pub mod validator;
pub mod window;
