use magenta::Handle;
use magenta::HandleBase;
use magenta::Kernel;
use magenta::MX_FLAG_REPLY_PIPE;
use magenta::MessageBuf;
use magenta::MessagePipe;
use magenta::Status;
use magenta::Vmo;
use magenta::current_time;
use magenta::nanosleep;

#[test]
fn time_increases() {
    let mut k = Kernel::new();
    let time1 = current_time(&mut k);
    let time2 = current_time(&mut k);
    assert!(time2 > time1);
}

#[test]
fn sleep() {
    let mut k = Kernel::new();
    let sleep_ns = 1_000_000; // 1ms
    let time1 = current_time(&mut k);
    nanosleep(&mut k, sleep_ns);
    let time2 = current_time(&mut k);
    assert!(time2 > time1 + sleep_ns);
}

#[test]
fn vmo_size() {
    let mut k = Kernel::new();
    let size = 16 * 1024 * 1024;
    let vmo = Vmo::create(&mut k, size).unwrap();
    assert_eq!(size as u64, vmo.get_size(&k).unwrap());
}

#[test]
fn vmo_read_write() {
    let mut k = Kernel::new();
    let mut vec1 = vec![0; 16];
    let vmo = Vmo::create(&mut k, vec1.len() as u64).unwrap();
    vmo.write(&mut k, b"abcdef", 0).unwrap();
    assert_eq!(16, vmo.read(&k, &mut vec1, 0).unwrap());
    assert_eq!(b"abcdef", &vec1[0..6]);
    vmo.write(&mut k, b"123", 2).unwrap();
    assert_eq!(16, vmo.read(&k, &mut vec1, 0).unwrap());
    assert_eq!(b"ab123f", &vec1[0..6]);
    assert_eq!(15, vmo.read(&k, &mut vec1, 1).unwrap());
    assert_eq!(b"b123f", &vec1[0..5]);
}

#[test]
fn vmo_overlapping_writes_in_byte_order() {
    let mut k = Kernel::new();
    let vmo = Vmo::create(&mut k, 16).unwrap();
    assert_eq!(6, vmo.write(&mut k, b"abcdef", 0).unwrap());
    assert_eq!(3, vmo.write(&mut k, b"123", 2).unwrap());
    let mut all = vec![0xaa; 16];
    assert_eq!(16, vmo.read(&k, &mut all, 0).unwrap());
    let mut expected = b"ab123f".to_vec();
    expected.extend_from_slice(&[0; 10]);
    assert_eq!(all, expected);
}

#[test]
fn vmo_write_past_end_is_out_of_range() {
    let mut k = Kernel::new();
    let vmo = Vmo::create(&mut k, 4).unwrap();
    assert_eq!(vmo.write(&mut k, b"zz", 5), Err(Status(magenta::ERR_OUT_OF_RANGE)));
    assert_eq!(vmo.set_size(&mut k, 8), Ok(()));
    assert_eq!(vmo.get_size(&k).unwrap(), 8);
    assert_eq!(vmo.write(&mut k, b"zz", 5).unwrap(), 2);
}

#[test]
fn message_pipe_reply_basic() {
    let mut k = Kernel::new();
    let (p1, p2) = MessagePipe::create(&mut k, 0).unwrap();

    // Don't need to test trying to include self-handle, ownership forbids it
    let mut empty: Vec<Handle> = vec![];
    let (p1, _status) = p1.write_reply(&mut k, b"hello", &mut empty, 0).err().unwrap();
    assert!(p1.write(&mut k, b"hello", &mut empty, 0).is_ok());
    let (p2, _status) = p2.write_reply(&mut k, b"hello", &mut empty, 0).err().unwrap();
    assert!(p2.write(&mut k, b"hello", &mut empty, 0).is_ok());

    let (p1, p2) = MessagePipe::create(&mut k, MX_FLAG_REPLY_PIPE).unwrap();
    let (p1, _status) = p1.write_reply(&mut k, b"hello", &mut empty, 0).err().unwrap();
    assert!(p1.write(&mut k, b"hello", &mut empty, 0).is_ok());
    assert!(p2.write(&mut k, b"hello", &mut empty, 0).is_err());
    assert!(p2.write_reply(&mut k, b"hello", &mut empty, 0).is_ok());
}

#[test]
fn message_pipe_round_trip_and_handle_iter() {
    let mut k = Kernel::new();
    let (p1, p2) = MessagePipe::create(&mut k, 0).unwrap();
    let vmo = Vmo::create(&mut k, 5).unwrap();
    let dup = vmo.duplicate(&mut k, magenta::MX_RIGHT_SAME_RIGHTS).unwrap().into_handle();
    let mut handles: Vec<Handle> = vec![dup];
    assert!(p1.write(&mut k, b"hello", &mut handles, 0).is_ok());
    assert_eq!(handles.len(), 0);

    let mut buf = MessageBuf::new();
    assert!(p2.read(&mut k, 0, &mut buf).is_ok());
    assert_eq!(buf.bytes(), b"hello");
    assert_eq!(buf.n_handles(), 1);

    let mut iter = buf.handles();
    assert_eq!(iter.size_hint(), (1, Some(1)));
    let received = iter.next().unwrap();
    assert!(iter.next().is_none());
    assert_eq!(iter.size_hint(), (0, Some(0)));

    let received_vmo = Vmo::from_handle(received);
    assert_eq!(received_vmo.write(&mut k, b"hello", 0).unwrap(), 5);
    let mut back = vec![0; 5];
    assert_eq!(vmo.read(&k, &mut back, 0).unwrap(), 5);
    assert_eq!(back, b"hello");
}

#[test]
fn handle_drop_then_use_is_bad_handle() {
    let mut k = Kernel::new();
    let vmo = Vmo::create(&mut k, 4).unwrap();
    let raw = vmo.raw_handle();
    magenta::handle_drop(&mut k, raw);
    assert!(!k.is_valid_handle(raw));
    assert_eq!(vmo.get_size(&k), Err(Status(magenta::ERR_BAD_HANDLE)));
}
