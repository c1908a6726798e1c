//! Handing work to the session's tokio runtime.

use std::future::Future;

use tokio::runtime::Runtime;
use vstd::prelude::*;

verus! {

#[verifier::external_type_specification]
#[verifier::external_body]
pub struct ExRuntime(Runtime);

/// `Runtime::spawn`: queues `future` on the runtime's worker threads. The
/// join handle is dropped, so the task runs detached.
#[verifier::external_body]
fn runtime_spawn<F>(rt: &Runtime, future: F) where F: Future<Output = ()> + Send + 'static {
    let _ = rt.spawn(future);
}

/// Spawns `future` on `runtime`. A no-op once the runtime has been torn
/// down (`None`), which only happens while the module is being unloaded.
pub fn spawn<F>(runtime: Option<&Runtime>, future: F) where F: Future<Output = ()> + Send + 'static {
    match runtime {
        Some(rt) => runtime_spawn(rt, future),
        None => {},
    }
}

} // verus!
