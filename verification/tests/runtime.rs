use std::sync::atomic::{AtomicBool, Ordering};
use std::sync::Arc;

use gmod_buttplug::runtime::spawn;

#[test]
fn spawn_runs_on_the_runtime() {
    let rt = tokio::runtime::Builder::new_multi_thread()
        .worker_threads(1)
        .enable_all()
        .build()
        .unwrap();
    let (tx, rx) = std::sync::mpsc::channel();
    spawn(Some(&rt), async move {
        let _ = tx.send(7u8);
    });
    assert_eq!(rx.recv_timeout(std::time::Duration::from_secs(5)), Ok(7));
}

#[test]
fn spawn_without_runtime_is_a_no_op() {
    let ran = Arc::new(AtomicBool::new(false));
    let flag = ran.clone();
    spawn(None, async move {
        flag.store(true, Ordering::SeqCst);
    });
    assert!(!ran.load(Ordering::SeqCst));
}
