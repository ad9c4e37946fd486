use magenta::Handle;
use magenta::HandleBase;
use magenta::Kernel;
use magenta::Status;
use magenta::Vmo;
use magenta::channel::Channel;
use magenta::channel::ChannelOpts;
use magenta::channel::MessageBuf;
use magenta::ensure_capacity;
use magenta::into_result;
use magenta::size_to_u32_sat;

#[test]
fn size_to_u32_sat_clamps() {
    assert_eq!(size_to_u32_sat(0), 0);
    assert_eq!(size_to_u32_sat(5), 5);
    assert_eq!(size_to_u32_sat(u32::MAX as usize), u32::MAX);
    assert_eq!(size_to_u32_sat(u32::MAX as usize + 1), u32::MAX);
}

#[test]
fn ensure_capacity_keeps_contents() {
    let mut v: Vec<u8> = vec![1, 2, 3];
    ensure_capacity(&mut v, 100);
    assert!(v.capacity() >= 100);
    assert_eq!(v, vec![1, 2, 3]);
    ensure_capacity(&mut v, 1);
    assert_eq!(v, vec![1, 2, 3]);
}

#[test]
fn into_result_classifies_status() {
    assert_eq!(into_result(0, || 7u32), Ok(7));
    assert_eq!(into_result(3, || 7u32), Ok(7));
    assert_eq!(into_result::<u32, _>(magenta::ERR_BAD_HANDLE, || 7u32), Err(Status(-12)));
}

#[test]
fn grown_buffer_reads_without_probe_failure() {
    let mut k = Kernel::new();
    let (p1, p2) = Channel::create(&mut k, ChannelOpts::Normal).unwrap();
    let mut empty: Vec<Handle> = vec![];
    assert!(p1.write(&mut k, b"hello", &mut empty, 0).is_ok());

    let mut buf = MessageBuf::new();
    buf.ensure_capacity_bytes(5);
    buf.ensure_capacity_handles(0);
    assert_eq!(p2.read_raw(&mut k, 0, &mut buf), Ok(Ok(())));
    assert_eq!(buf.bytes(), b"hello");
}

#[test]
fn raw_handle_round_trip_keeps_ownership() {
    let mut k = Kernel::new();
    let vmo = Vmo::create(&mut k, 4).unwrap();
    let raw = vmo.into_handle().into_raw();
    assert!(k.is_valid_handle(raw));
    let revived = Vmo::from_handle(Handle::from_raw(raw));
    assert_eq!(revived.get_size(&k).unwrap(), 4);
    revived.into_handle().close(&mut k);
    assert!(!k.is_valid_handle(raw));
}

#[test]
fn signals_state_getters() {
    let mut k = Kernel::new();
    let (p1, p2) = Channel::create(&mut k, ChannelOpts::Normal).unwrap();
    let mut empty: Vec<Handle> = vec![];
    assert!(p1.write(&mut k, b"x", &mut empty, 0).is_ok());
    let state = p2.wait(&k, magenta::MX_CHANNEL_READABLE, 0).unwrap();
    assert!(state.satisfied() & magenta::MX_CHANNEL_READABLE != 0);
    assert!(state.satisfiable() & magenta::MX_CHANNEL_WRITABLE != 0);
}

#[test]
fn wait_outcomes() {
    let mut k = Kernel::new();
    let (p1, p2) = Channel::create(&mut k, ChannelOpts::Normal).unwrap();
    // Nothing readable and the peer still open: the deadline elapses.
    assert_eq!(
        p2.wait(&k, magenta::MX_CHANNEL_READABLE, 10),
        Err(Status(magenta::ERR_TIMED_OUT))
    );
    // With the peer gone and nothing queued, readability can never be
    // satisfied any more.
    p1.into_handle().close(&mut k);
    assert_eq!(
        p2.wait(&k, magenta::MX_CHANNEL_READABLE, 10),
        Err(Status(magenta::ERR_BAD_STATE))
    );
}

#[test]
fn default_channel_opts_is_normal() {
    let opts: ChannelOpts = Default::default();
    assert!(matches!(opts, ChannelOpts::Normal));
}
