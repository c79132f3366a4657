use bytes::Bytes;
use ncmc_lib::stream::{DecryptStream, EncryptSink, Progress};
use ncmc_lib::Key;

fn key() -> Key {
    Key::from_key_data(&[1, 2, 3, 4, 5])
}

const FIRST: [u8; 8] = [39, 121, 221, 80, 221, 26, 2, 229];

#[test]
fn decrypt_stream_transforms_chunks() {
    let mut stream = DecryptStream::new('s', key());
    let zeros = [0u8; 8];
    for (data, expected) in [
        (&zeros[..3], &FIRST[..3]),
        (&zeros[..0], &FIRST[..0]),
        (&zeros[..5], &FIRST[3..]),
    ] {
        match stream.finish_poll::<()>(Progress::Ready(Some(Ok(data)))) {
            Progress::Ready(Some(Ok(chunk))) => assert_eq!(chunk, expected),
            other => panic!("unexpected: {:?}", other),
        }
    }
    assert_eq!(*stream.inner_mut(), 's');
    assert_eq!(stream.into_inner(), 's');
}

#[test]
fn decrypt_stream_passes_the_rest_on() {
    let mut stream = DecryptStream::new((), key());
    assert!(matches!(stream.finish_poll::<u8>(Progress::Pending), Progress::Pending));
    assert!(matches!(stream.finish_poll::<u8>(Progress::Ready(None)), Progress::Ready(None)));
    assert!(matches!(
        stream.finish_poll(Progress::Ready(Some(Err(5u8)))),
        Progress::Ready(Some(Err(5)))
    ));
    match stream.finish_poll::<()>(Progress::Ready(Some(Ok(&[0, 0])))) {
        Progress::Ready(Some(Ok(chunk))) => assert_eq!(chunk, &FIRST[..2]),
        other => panic!("unexpected: {:?}", other),
    }
}

#[test]
fn sink_and_stream_undo_each_other() {
    let mut sink = EncryptSink::new(8u8, key());
    let mut stream = DecryptStream::new((), key());
    for text in ["first", "", "second chunk"] {
        let sent = sink.begin_send(Bytes::copy_from_slice(text.as_bytes()));
        assert!(text.is_empty() || sent != text.as_bytes());
        match stream.finish_poll::<()>(Progress::Ready(Some(Ok(&sent)))) {
            Progress::Ready(Some(Ok(chunk))) => assert_eq!(chunk, text.as_bytes()),
            other => panic!("unexpected: {:?}", other),
        }
    }
    assert_eq!(*sink.inner_mut(), 8);
    assert_eq!(sink.into_inner(), 8);
}
