//! Calls that may panic on malformed data.

use vstd::prelude::*;

verus! {

/// `rayon::ThreadPool::spawn` in a pool of one thread with a
/// `rayon::ThreadPoolBuilder::panic_handler`: the call runs on a thread
/// of its own, and what it returns comes back, or nothing when it
/// panics. Where the system grants no thread, the call runs in place.
#[verifier::external_body]
pub(crate) fn guarded<T: Send + 'static, F: FnOnce() -> T + Send + 'static>(call: F) -> Option<T> {
    let (send, receive) = std::sync::mpsc::channel();
    match rayon::ThreadPoolBuilder::new().num_threads(1).panic_handler(|_| {}).build() {
        Ok(pool) => {
            pool.spawn(move || {
                let _ = send.send(call());
            });
            receive.recv().ok()
        },
        Err(_) => Some(call()),
    }
}

} // verus!
