use magenta::Handle;
use magenta::HandleBase;
use magenta::Kernel;
use magenta::MX_RIGHT_READ;
use magenta::MX_RIGHT_SAME_RIGHTS;
use magenta::Status;
use magenta::Vmo;
use magenta::channel::Channel;
use magenta::channel::ChannelOpts;
use magenta::channel::MessageBuf;

#[test]
fn channel_basic() {
    let mut k = Kernel::new();
    let (p1, p2) = Channel::create(&mut k, ChannelOpts::Normal).unwrap();

    let mut empty: Vec<Handle> = vec![];
    assert!(p1.write(&mut k, b"hello", &mut empty, 0).is_ok());

    let mut buf = MessageBuf::new();
    assert!(p2.read(&mut k, 0, &mut buf).is_ok());
    assert_eq!(buf.bytes(), b"hello");
}

#[test]
fn channel_read_raw_too_small() {
    let mut k = Kernel::new();
    let (p1, p2) = Channel::create(&mut k, ChannelOpts::Normal).unwrap();

    let mut empty: Vec<Handle> = vec![];
    assert!(p1.write(&mut k, b"hello", &mut empty, 0).is_ok());

    let mut buf = MessageBuf::new();
    let result = p2.read_raw(&mut k, 0, &mut buf);
    assert_eq!(result, Err((5, 0)));
    assert_eq!(buf.bytes(), b"");
}

#[test]
fn channel_send_handle() {
    let hello_length: usize = 5;

    let mut k = Kernel::new();

    // Create a pair of channels and a virtual memory object.
    let (p1, p2) = Channel::create(&mut k, ChannelOpts::Normal).unwrap();
    let vmo = Vmo::create(&mut k, hello_length as u64).unwrap();

    // Duplicate the virtual memory object and send it down the channel.
    let duplicate_vmo_handle = vmo.duplicate(&mut k, MX_RIGHT_SAME_RIGHTS).unwrap().into_handle();
    let mut handles_to_send: Vec<Handle> = vec![duplicate_vmo_handle];
    assert!(p1.write(&mut k, b"", &mut handles_to_send, 0).is_ok());

    // Read the handle from the receiving channel.
    let mut buf = MessageBuf::new();
    assert!(p2.read(&mut k, 0, &mut buf).is_ok());
    assert_eq!(buf.n_handles(), 1);
    // Take the handle from the buffer.
    let received_handle = buf.take_handle(0).unwrap();
    // Should not affect number of handles.
    assert_eq!(buf.n_handles(), 1);
    // Trying to take it again should fail.
    assert!(buf.take_handle(0).is_none());

    // Now to test that we got the right handle, try writing something to it...
    let received_vmo = Vmo::from_handle(received_handle);
    assert_eq!(received_vmo.write(&mut k, b"hello", 0).unwrap(), hello_length);

    // ... and reading it back from the original VMO.
    let mut read_vec = vec![0; hello_length];
    assert_eq!(vmo.read(&k, &mut read_vec, 0).unwrap(), hello_length);
    assert_eq!(read_vec, b"hello");
}

#[test]
fn channel_too_small_then_retry_same_payload() {
    let mut k = Kernel::new();
    let (p1, p2) = Channel::create(&mut k, ChannelOpts::Normal).unwrap();

    let mut empty: Vec<Handle> = vec![];
    assert!(p1.write(&mut k, b"hello", &mut empty, 0).is_ok());

    let mut buf = MessageBuf::new();
    assert_eq!(p2.read_raw(&mut k, 0, &mut buf), Err((5, 0)));
    // The probe did not discard the message: a correctly sized retry
    // still delivers it.
    assert!(p2.read(&mut k, 0, &mut buf).is_ok());
    assert_eq!(buf.bytes(), b"hello");
}

#[test]
fn channel_write_failure_keeps_handles() {
    let mut k = Kernel::new();
    let (p1, p2) = Channel::create(&mut k, ChannelOpts::Normal).unwrap();
    // Close the receiving endpoint: writes must now fail.
    p2.into_handle().close(&mut k);

    let vmo = Vmo::create(&mut k, 4).unwrap();
    let payload = vmo.duplicate(&mut k, MX_RIGHT_SAME_RIGHTS).unwrap().into_handle();
    let mut handles: Vec<Handle> = vec![payload];
    let result = p1.write(&mut k, b"x", &mut handles, 0);
    assert_eq!(result, Err(Status(magenta::ERR_REMOTE_CLOSED)));
    // The collection is unchanged and the handle is still usable.
    assert_eq!(handles.len(), 1);
    let kept = Vmo::from_handle(handles.pop().unwrap());
    assert_eq!(kept.write(&mut k, b"ab", 0).unwrap(), 2);
}

#[test]
fn channel_write_success_empties_handles() {
    let mut k = Kernel::new();
    let (p1, _p2) = Channel::create(&mut k, ChannelOpts::Normal).unwrap();
    let vmo = Vmo::create(&mut k, 4).unwrap();
    let payload = vmo.duplicate(&mut k, MX_RIGHT_SAME_RIGHTS).unwrap().into_handle();
    let mut handles: Vec<Handle> = vec![payload];
    assert!(p1.write(&mut k, b"m", &mut handles, 0).is_ok());
    assert_eq!(handles.len(), 0);
}

#[test]
fn channel_read_empty_should_wait_then_remote_closed() {
    let mut k = Kernel::new();
    let (p1, p2) = Channel::create(&mut k, ChannelOpts::Normal).unwrap();
    let mut buf = MessageBuf::new();
    assert_eq!(p2.read(&mut k, 0, &mut buf), Err(Status(magenta::ERR_SHOULD_WAIT)));
    p1.into_handle().close(&mut k);
    assert_eq!(p2.read(&mut k, 0, &mut buf), Err(Status(magenta::ERR_REMOTE_CLOSED)));
}

#[test]
fn reduced_rights_duplicate_cannot_write() {
    let mut k = Kernel::new();
    let vmo = Vmo::create(&mut k, 8).unwrap();
    // A duplicate restricted to reading fails a privileged operation the
    // original handle can perform.
    let readonly = vmo.duplicate(&mut k, MX_RIGHT_READ).unwrap();
    assert_eq!(readonly.write(&mut k, b"no", 0), Err(Status(magenta::ERR_ACCESS_DENIED)));
    assert_eq!(vmo.write(&mut k, b"ok", 0).unwrap(), 2);
    let mut out = vec![0; 2];
    assert_eq!(readonly.read(&k, &mut out, 0).unwrap(), 2);
    assert_eq!(out, b"ok");
}

#[test]
fn reset_closes_only_untaken_handles() {
    let mut k = Kernel::new();
    let (p1, p2) = Channel::create(&mut k, ChannelOpts::Normal).unwrap();
    let vmo = Vmo::create(&mut k, 4).unwrap();
    let d1 = vmo.duplicate(&mut k, MX_RIGHT_SAME_RIGHTS).unwrap().into_handle();
    let d2 = vmo.duplicate(&mut k, MX_RIGHT_SAME_RIGHTS).unwrap().into_handle();
    let mut handles: Vec<Handle> = vec![d1, d2];
    assert!(p1.write(&mut k, b"", &mut handles, 0).is_ok());

    let mut buf = MessageBuf::new();
    assert!(p2.read(&mut k, 0, &mut buf).is_ok());
    assert_eq!(buf.n_handles(), 2);
    let taken = buf.take_handle(0).unwrap();
    let taken_raw = taken.raw_handle();

    // Resetting closes exactly the untaken slot: the taken handle stays
    // live and usable, the other slot is gone.
    buf.reset_handles(&mut k);
    assert!(k.is_valid_handle(taken_raw));
    assert!(buf.take_handle(0).is_none());
    assert!(buf.take_handle(1).is_none());
    let still_usable = Vmo::from_handle(taken);
    assert_eq!(still_usable.write(&mut k, b"ok", 0).unwrap(), 2);
}
