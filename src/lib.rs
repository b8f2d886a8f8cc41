//! Status reports of amateur satellites: time-bucketed report histories with
//! merge and retention, consensus status resolution, the decisions of the
//! recurring jobs (cadence, retries, expiry sweep), a per-submitter rate
//! limiter, and the validators and texts around them.

use vstd::prelude::*;

pub mod board;
pub mod catalog;
pub mod config;
pub mod files;
pub mod gate;
pub mod i18n;
pub mod message;
pub mod pending;
pub mod query;
pub mod registry;
pub mod resolver;
pub mod response;
pub mod scheduler;
pub mod status;
pub mod store;
pub mod submit;
pub mod sweep;
pub mod text;
pub mod validate;

verus! {

} // verus!
