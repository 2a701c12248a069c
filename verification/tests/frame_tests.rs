use std::io::Cursor;
use school_sanctioned_gambling::frame::{frame, header_len, length_header, FrameError, MessageProto, S2D, DEFAULT_SIZE_LIMIT};

#[test]
fn a_sent_message_is_received_whole() {
    let mut sender = MessageProto::new(Vec::<u8>::new(), 100);
    assert!(sender.send(b"hello").is_ok());
    assert!(sender.send(b"").is_ok());
    let bytes = sender.get_ref().clone();
    assert_eq!(&bytes[..8], &[5, 0, 0, 0, 0, 0, 0, 0]);
    let mut receiver = MessageProto::new(Cursor::new(bytes), 100);
    assert_eq!(receiver.recv().ok(), Some(b"hello".to_vec()));
    assert_eq!(receiver.recv().ok(), Some(Vec::new()));
    assert!(matches!(receiver.recv(), Err(FrameError::Io(_))));
}

#[test]
fn a_message_over_the_limit_is_refused() {
    let mut sender = MessageProto::new(Vec::<u8>::new(), 100);
    assert!(sender.send(&[7u8; 20]).is_ok());
    let mut receiver = MessageProto::new(Cursor::new(sender.get_ref().clone()), 10);
    assert!(matches!(receiver.recv(), Err(FrameError::TooBig(20))));
}

#[test]
fn the_size_limit_can_be_changed() {
    let mut p = MessageProto::new(Vec::<u8>::new(), 10);
    assert_eq!(p.set_size_limit(20), 10);
    assert_eq!(p.set_size_limit(30), 20);
    let d = MessageProto::from_stream(Vec::<u8>::new());
    drop(d);
    assert_eq!(DEFAULT_SIZE_LIMIT, 6 * 1024 * 1024);
}

#[test]
fn headers_are_little_endian() {
    let h = length_header(0x0102030405060708);
    assert_eq!(h, vec![8, 7, 6, 5, 4, 3, 2, 1]);
    assert!(matches!(header_len(&length_header(300), 1000), Ok(300)));
    assert!(matches!(header_len(&length_header(300), 299), Err(FrameError::TooBig(300))));
}

#[test]
fn async_layer_checks_lengths() {
    let mut s = S2D::new(0u8, 64);
    assert!(matches!(s.accept_len(64), Ok(64)));
    assert!(matches!(s.accept_len(65), Err(FrameError::TooBig(65))));
    assert_eq!(s.set_size_limit(128), 64);
    assert!(matches!(s.accept_len(65), Ok(65)));
    *s.get_mut() = 3;
    assert_eq!(*s.get_ref(), 3);
    let d = S2D::from_stream(1u8);
    assert!(matches!(d.accept_len(6 * 1024 * 1024 + 1), Err(FrameError::TooBig(_))));
}

#[test]
fn the_stream_can_be_reached() {
    let mut p = MessageProto::new(vec![1u8], 10);
    p.as_mut().push(2);
    assert_eq!(p.as_ref(), &vec![1u8, 2]);
    let mut s = S2D::new(5u32, 10);
    *s.as_mut() += 1;
    assert_eq!(*s.as_ref(), 6);
}

#[test]
fn the_size_limit_does_not_restrict_sending() {
    let mut p = MessageProto::new(Vec::<u8>::new(), 0);
    assert!(p.send(&[1u8, 2]).is_ok());
    assert_eq!(*p.as_ref(), vec![2u8, 0, 0, 0, 0, 0, 0, 0, 1, 2]);
    assert_eq!(frame(&[9u8, 8, 7]), vec![3u8, 0, 0, 0, 0, 0, 0, 0, 9, 8, 7]);
    assert_eq!(frame(&[]), vec![0u8; 8]);
}
