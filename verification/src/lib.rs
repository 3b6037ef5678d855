//! A scheduling library for bilateral appointment invitations.
//!
//! One user proposes a set of candidate calendar dates to a friend; the
//! friend accepts exactly one of them, and the accepted date becomes an
//! exclusive claim (a busy day) on both participants' calendars.  The
//! scheduling engine owns the invitation lifecycle (create, accept,
//! decline, cancel) and maintains the cross-entity invariants; the
//! calendar aggregator composes read-only per-user views over a range of
//! days.

pub mod auth;
pub mod calendar;
pub mod clock;
pub mod date;
pub mod engine;
pub mod error;
pub mod friends;
pub mod model;
pub mod requests;
pub mod responses;
pub mod sort;
pub mod store;

use vstd::prelude::*;

verus! {

} // verus!
