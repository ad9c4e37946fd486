use magenta::Handle;
use magenta::HandleBase;
use magenta::Kernel;
use magenta::MX_CHANNEL_PEER_CLOSED;
use magenta::MX_CHANNEL_READABLE;
use magenta::Status;
use magenta::WaitSet;
use magenta::WaitSetResult;
use magenta::channel::Channel;
use magenta::channel::ChannelOpts;

#[test]
fn waitset_duplicate_cookie_and_unknown_remove() {
    let mut k = Kernel::new();
    let ws = WaitSet::create(&mut k).unwrap();
    let (p1, p2) = Channel::create(&mut k, ChannelOpts::Normal).unwrap();

    assert!(ws.add(&mut k, &p1, MX_CHANNEL_READABLE, 7).is_ok());
    // A cookie already registered is refused, and the registration it
    // clashed with stays in place.
    assert_eq!(
        ws.add(&mut k, &p2, MX_CHANNEL_READABLE, 7),
        Err(Status(magenta::ERR_ALREADY_EXISTS))
    );
    // Removing an unregistered cookie is a distinguished failure that
    // leaves other registrations untouched.
    assert_eq!(ws.remove(&mut k, 8), Err(Status(magenta::ERR_NOT_FOUND)));
    assert!(ws.remove(&mut k, 7).is_ok());
    assert_eq!(ws.remove(&mut k, 7), Err(Status(magenta::ERR_NOT_FOUND)));
}

#[test]
fn waitset_wait_reports_ready_cookies() {
    let mut k = Kernel::new();
    let ws = WaitSet::create(&mut k).unwrap();
    let (p1, p2) = Channel::create(&mut k, ChannelOpts::Normal).unwrap();
    assert!(ws.add(&mut k, &p2, MX_CHANNEL_READABLE, 42).is_ok());

    // Nothing readable yet: the deadline elapses.
    let mut results: Vec<WaitSetResult> = Vec::new();
    assert_eq!(ws.wait(&k, 1000, &mut results), Err(Status(magenta::ERR_TIMED_OUT)));
    assert_eq!(results.len(), 0);

    // After a write the watched endpoint is readable.
    let mut empty: Vec<Handle> = vec![];
    assert!(p1.write(&mut k, b"ping", &mut empty, 0).is_ok());
    let max = ws.wait(&k, 1000, &mut results).unwrap();
    assert_eq!(max, 1);
    assert_eq!(results.len(), 1);
    assert_eq!(results[0].cookie(), 42);
    assert_eq!(results[0].wait_result(), Status(magenta::NO_ERROR));
    assert!(results[0].signals_state().satisfied() & MX_CHANNEL_READABLE != 0);
}

#[test]
fn waitset_wait_observes_peer_closed() {
    let mut k = Kernel::new();
    let ws = WaitSet::create(&mut k).unwrap();
    let (p1, p2) = Channel::create(&mut k, ChannelOpts::Normal).unwrap();
    assert!(ws.add(&mut k, &p2, MX_CHANNEL_PEER_CLOSED, 5).is_ok());

    p1.into_handle().close(&mut k);
    let mut results: Vec<WaitSetResult> = Vec::new();
    assert_eq!(ws.wait(&k, 0, &mut results).unwrap(), 1);
    assert_eq!(results[0].cookie(), 5);
    assert!(results[0].signals_state().satisfied() & MX_CHANNEL_PEER_CLOSED != 0);
}
