//! The benchmark harness: time a supplied extractor a fixed number of
//! times on the monotonic clock and hand back the summed nanoseconds, plus
//! the two report lines of the final output.  The clock readings are
//! trusted; the iteration loop, the summation and the report formatting
//! are verified.

use vstd::prelude::*;

use crate::digits::{dec_digits, push_dec};

verus! {

/// How many times the harness invokes the function it measures.
pub const ITERATIONS: usize = 1000;

#[verifier::external_type_specification]
#[verifier::external_body]
pub struct ExInstant(std::time::Instant);

/// Relies on `std::time::Instant::now`: reads the monotonic clock; the
/// reading depends on when the call happens, so nothing is assumed of it.
#[verifier::external_body]
fn instant_now() -> std::time::Instant {
    std::time::Instant::now()
}

/// Relies on `std::time::Instant::elapsed`: the time since `start`; the
/// result depends on the clock, so nothing is assumed of it.
#[verifier::external_body]
fn instant_elapsed(start: &std::time::Instant) -> core::time::Duration {
    start.elapsed()
}

/// Relies on `core::time::Duration::as_nanos`: the duration expressed in
/// nanoseconds.
#[verifier::external_body]
fn duration_as_nanos(d: &core::time::Duration) -> u128 {
    d.as_nanos()
}

/// Invokes `f` exactly `ITERATIONS` times, timing each call on the
/// monotonic clock, and yields the summed elapsed nanoseconds (saturating
/// at the largest representable sum).  The samples depend on the clock, so
/// no more is promised of the total; the caller divides by `ITERATIONS`
/// for the mean, which is then never negative.
pub fn measure_total_nanos<F: Fn() -> u64>(f: &F) -> (total: u128)
    requires
        call_requires(*f, ()),
{
    let mut total: u128 = 0;
    let mut i: usize = 0;
    while i < ITERATIONS
        invariant
            i <= ITERATIONS,
            call_requires(*f, ()),
        decreases ITERATIONS - i,
    {
        let start = instant_now();
        let _ = f();
        let d = instant_elapsed(&start);
        let ns = duration_as_nanos(&d);
        total = if total <= u128::MAX - ns {
            total + ns
        } else {
            u128::MAX
        };
        i = i + 1;
    }
    total
}

/// The header line of the report.
pub fn report_header() -> (r: String)
    ensures
        r@ == "Size,Custom,Whole"@,
{
    String::from_str("Size,Custom,Whole")
}

/// The data line of the report: the requested size and the two mean
/// latencies, comma-separated.
pub fn report_line(size: u64, custom_mean: &str, whole_mean: &str) -> (r: String)
    ensures
        r@ == dec_digits(size as nat) + ","@ + custom_mean@ + ","@ + whole_mean@,
{
    let mut out = String::new();
    push_dec(&mut out, size);
    out.append(",");
    out.append(custom_mean);
    out.append(",");
    out.append(whole_mean);
    proof {
        assert(out@ =~= dec_digits(size as nat) + ","@ + custom_mean@ + ","@ + whole_mean@);
    }
    out
}

} // verus!
