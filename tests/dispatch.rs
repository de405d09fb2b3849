use web_server::dispatch::{AcceptEvent, DispatchAction, Dispatcher};

#[test]
fn capped_loop_counts_every_accept() {
    let mut d = Dispatcher::new(Some(4));
    let events = [AcceptEvent::Connection, AcceptEvent::Failed, AcceptEvent::Connection, AcceptEvent::Connection];
    let mut actions = Vec::new();
    for e in events {
        assert!(d.wants_more());
        actions.push(d.on_accept(e));
    }
    assert!(!d.wants_more());
    assert_eq!(
        actions,
        vec![DispatchAction::Submit, DispatchAction::Skip, DispatchAction::Submit, DispatchAction::Submit]
    );
}

#[test]
fn zero_cap_accepts_nothing() {
    assert!(!Dispatcher::new(Some(0)).wants_more());
}

#[test]
fn uncapped_loop_keeps_accepting() {
    let mut d = Dispatcher::new(None);
    for _ in 0..1000 {
        assert!(d.wants_more());
        d.on_accept(AcceptEvent::Failed);
    }
    assert!(d.wants_more());
}
