//! The cooperative cancellation token a request carries, and the wall clock it is measured by.

use std::sync::atomic::AtomicBool;
use std::sync::Arc;
use std::time::{Duration, Instant};
use vstd::prelude::*;

verus! {


#[verifier::external_type_specification]
#[verifier::external_body]
pub struct ExInstant(Instant);

/// A shared flag: every clone of a token observes one cancellation.
#[derive(Debug)]
pub struct CancellationToken {
    flag: Arc<AtomicBool>,
}

impl CancellationToken {
    pub fn new() -> (t: CancellationToken) {
        CancellationToken { flag: Arc::new(AtomicBool::new(false)) }
    }

    /// Requests cancellation of every request that holds a clone of this token.
    pub fn cancel(&self) {
        self.flag.store(true, std::sync::atomic::Ordering::SeqCst);
    }

    /// Whether cancellation was requested. Another holder of the token may request it at any
    /// moment, so nothing is promised about the answer.
    pub fn is_cancelled(&self) -> (b: bool) {
        self.flag.load(std::sync::atomic::Ordering::SeqCst)
    }

    /// Another handle on the same flag.
    pub fn share(&self) -> (t: CancellationToken)
        ensures
            t == *self,
    {
        CancellationToken { flag: arc_share(&self.flag) }
    }
}

impl Clone for CancellationToken {
    fn clone(&self) -> (t: CancellationToken) {
        self.share()
    }
}

/// Another handle on the same allocation (`Arc::clone`).
///
/// Trusted: the contract claims that the new handle points at the value the given one points
/// at, which is what `Arc::clone` documents (it shares the allocation and copies nothing).
#[verifier::external_body]
pub fn arc_share<T>(shared: &Arc<T>) -> (r: Arc<T>)
    ensures
        r == *shared,
{
    Arc::clone(shared)
}

/// The current instant (`Instant::now`). The clock is the machine's, so nothing is stated.
#[verifier::external_body]
pub fn instant_now() -> (i: Instant) {
    Instant::now()
}

/// The time elapsed since `started` (`Instant::elapsed`). The clock is the machine's, so
/// nothing is stated about it.
#[verifier::external_body]
fn elapsed_since(started: &Instant) -> (d: Duration) {
    started.elapsed()
}

/// The whole milliseconds of a duration (`Duration::as_millis`). Nothing is stated, since a
/// duration is opaque here.
#[verifier::external_body]
fn whole_millis(d: &Duration) -> (m: u128) {
    d.as_millis()
}

/// Whole milliseconds elapsed since `started`, saturated to `u64`: a figure past `u64::MAX`
/// reads as `u64::MAX`, any other as it is.
pub fn millis_since(started: &Instant) -> (m: u64) {
    let elapsed = elapsed_since(started);
    saturate_millis(whole_millis(&elapsed))
}

/// A millisecond figure saturated to `u64`.
pub fn saturate_millis(millis: u128) -> (m: u64)
    ensures
        millis <= u64::MAX ==> m == millis,
        millis > u64::MAX ==> m == u64::MAX,
{
    if millis > u64::MAX as u128 {
        u64::MAX
    } else {
        millis as u64
    }
}

} // verus!
