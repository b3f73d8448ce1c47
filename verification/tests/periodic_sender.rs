use crust::periodic_sender::PeriodicSender;
use std::sync::mpsc;

#[test]
fn set_payload_and_stop_reach_the_thread() {
    crossbeam::scope(|scope| {
        let (exit_tx, exit_rx) = mpsc::channel::<()>();
        let (payload_tx, payload_rx) = mpsc::channel::<Vec<u8>>();
        let guard = scope.spawn(move || {
            let _ = exit_rx.recv();
            let got = payload_rx.try_recv().ok();
            assert_eq!(got, Some(vec![7, 7]));
        });
        let sender = PeriodicSender::from_parts(exit_tx, guard, payload_tx);
        sender.set_payload(vec![7, 7]);
        assert!(sender.stop());
    });
}

#[test]
fn set_payload_to_a_dead_thread_is_ignored() {
    crossbeam::scope(|scope| {
        let (exit_tx, exit_rx) = mpsc::channel::<()>();
        let (payload_tx, payload_rx) = mpsc::channel::<u8>();
        drop(payload_rx);
        drop(exit_rx);
        let guard = scope.spawn(move || {});
        let sender = PeriodicSender::from_parts(exit_tx, guard, payload_tx);
        sender.set_payload(1);
        assert!(!sender.stop());
    });
}

#[test]
fn dropping_the_handle_stops_the_thread() {
    crossbeam::scope(|scope| {
        let (exit_tx, exit_rx) = mpsc::channel::<()>();
        let (payload_tx, _payload_rx) = mpsc::channel::<u8>();
        let (done_tx, done_rx) = mpsc::channel::<bool>();
        let guard = scope.spawn(move || {
            let _ = done_tx.send(exit_rx.recv().is_ok());
        });
        let sender = PeriodicSender::from_parts(exit_tx, guard, payload_tx);
        drop(sender);
        assert_eq!(done_rx.recv(), Ok(true));
    });
}
