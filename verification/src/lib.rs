//! Admission-control primitives: rate limiters that decide, for each request
//! to acquire a number of units, whether it is admitted.
//!
//! Each limiter is a small state machine over a capacity, what is in use, and
//! time. `token_bucket`, `fixed_window_counter`, `sliding_window_counter` and
//! `sliding_window_log` hold one limiter each, with a form for a single owner
//! and a form behind a lock for callers that share it; `limiter` names the
//! capability that they all offer.
//!
//! A limiter is specified over a mathematical value and explicit times: what
//! a refresh and a request do at a time `now` is a function of the value and
//! of `now`, and the operations that take the time as an argument compute
//! exactly that. The operations of the capability read the clock in `clock`
//! and do the same for the time it gives. `timeline` holds the queue of
//! admission times that the two sliding windows share. Beside the
//! definitions stand the laws that they obey: the bound on what is in use,
//! the bound on what is granted over time, that a refresh is idempotent, and
//! that capacity comes back once the time is up.

pub mod clock;
pub mod fixed_window_counter;
pub mod limiter;
pub mod sliding_window_counter;
pub mod sliding_window_log;
pub mod timeline;
pub mod token_bucket;
