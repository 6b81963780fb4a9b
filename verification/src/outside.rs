//! Trusted declarations of the outside items the engine relies on: the
//! standard library's message channels and string equality, the `stopwatch`
//! crate's clock, and the `rand` crate's thread-local generator. Each wrapper
//! states only what the relied-on item's source or documentation shows.
use vstd::prelude::*;

use rand::Rng;

verus! {

#[verifier::external_type_specification]
#[verifier::external_body]
#[verifier::reject_recursive_types(T)]
pub struct ExSender<T>(std::sync::mpsc::Sender<T>);

#[verifier::external_type_specification]
#[verifier::external_body]
#[verifier::reject_recursive_types(T)]
pub struct ExReceiver<T>(std::sync::mpsc::Receiver<T>);

#[verifier::external_type_specification]
#[verifier::external_body]
pub struct ExStopwatch(stopwatch::Stopwatch);

#[verifier::external_type_specification]
#[verifier::external_body]
pub struct ExThreadRng(rand::rngs::ThreadRng);

/// Relies on std::sync::mpsc::Sender::send: hands the message to the channel
/// without blocking; reports only whether the receiving end had disconnected.
#[verifier::external_body]
pub fn channel_send<T>(channel: &std::sync::mpsc::Sender<T>, message: T) -> (failed: bool) {
    channel.send(message).is_err()
}

/// Relies on std::sync::mpsc::Receiver::try_recv: returns a pending message
/// without blocking, or nothing when the queue is empty or disconnected.
/// Which message arrives, if any, depends on the other components.
#[verifier::external_body]
pub fn channel_try_recv<T>(channel: &std::sync::mpsc::Receiver<T>) -> (message: Option<T>) {
    channel.try_recv().ok()
}

/// Relies on str's PartialEq: two string slices are equal exactly when they
/// hold the same sequence of characters.
#[verifier::external_body]
pub fn str_eq(a: &str, b: &str) -> (r: bool)
    ensures
        r == (a@ == b@),
{
    a == b
}

/// Relies on stopwatch::Stopwatch::new: a fresh, stopped watch.
#[verifier::external_body]
pub fn stopwatch_new() -> stopwatch::Stopwatch {
    stopwatch::Stopwatch::new()
}

/// Relies on stopwatch::Stopwatch::start: the watch starts measuring time.
#[verifier::external_body]
pub fn stopwatch_start(sw: &mut stopwatch::Stopwatch) {
    sw.start()
}

/// Relies on stopwatch::Stopwatch::stop: the watch stops measuring time.
#[verifier::external_body]
pub fn stopwatch_stop(sw: &mut stopwatch::Stopwatch) {
    sw.stop()
}

/// Relies on stopwatch::Stopwatch::reset: the watch is stopped and its
/// elapsed time cleared.
#[verifier::external_body]
pub fn stopwatch_reset(sw: &mut stopwatch::Stopwatch) {
    sw.reset()
}

/// Relies on stopwatch::Stopwatch::restart: the elapsed time is cleared and
/// the watch starts measuring again.
#[verifier::external_body]
pub fn stopwatch_restart(sw: &mut stopwatch::Stopwatch) {
    sw.restart()
}

/// Relies on stopwatch::Stopwatch::is_running: whether the watch is started.
#[verifier::external_body]
pub fn stopwatch_is_running(sw: &stopwatch::Stopwatch) -> bool {
    sw.is_running()
}

/// Relies on stopwatch::Stopwatch::elapsed_ms: the measured time so far, in
/// milliseconds. The value depends on the real clock, so nothing is promised
/// of it.
#[verifier::external_body]
pub fn stopwatch_elapsed_ms(sw: &stopwatch::Stopwatch) -> i64 {
    sw.elapsed_ms()
}

/// Relies on rand::thread_rng: a handle to the thread-local generator.
#[verifier::external_body]
pub fn new_thread_rng() -> rand::rngs::ThreadRng {
    rand::thread_rng()
}

/// Relies on rand::Rng::gen_range on the half-open range `0..bound`: a value
/// uniformly drawn from that range, so always below `bound`. It panics on an
/// empty range, which `bound > 0` rules out.
#[verifier::external_body]
pub fn rng_below(rng: &mut rand::rngs::ThreadRng, bound: usize) -> (r: usize)
    requires
        bound > 0,
    ensures
        r < bound,
{
    rng.gen_range(0..bound)
}

} // verus!
