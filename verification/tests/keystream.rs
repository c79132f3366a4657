use ncmc_lib::key::build_keybox;
use ncmc_lib::{CipherReader, CipherWriter, Key};

const FIRST: [u8; 16] = [
    39, 121, 221, 80, 221, 26, 2, 229, 56, 231, 33, 72, 206, 90, 253, 76,
];

#[test]
fn keybox_of_a_short_key() {
    let cells = build_keybox(&[1, 2, 3, 4, 5]);
    assert_eq!(cells.len(), 256);
    assert_eq!(
        cells[..16],
        [1, 3, 8, 201, 21, 27, 35, 67, 242, 145, 207, 89, 92, 109, 31, 144]
    );
    assert_eq!(cells[252..], [193, 9, 186, 88]);
}

#[test]
fn keybox_is_a_permutation() {
    for key in [vec![0u8], vec![255, 255], (0..=255).collect::<Vec<u8>>()] {
        let mut cells = build_keybox(&key);
        cells.sort();
        assert_eq!(cells, (0..=255).collect::<Vec<u8>>());
    }
}

#[test]
fn keystream_bytes() {
    let mut key = Key::from_key_data(&[1, 2, 3, 4, 5]);
    for expected in FIRST {
        assert_eq!(key.next(), Some(expected));
    }
    let mut key = Key::from_key_data(&(0u8..=200).collect::<Vec<u8>>());
    let mut zeros = [0u8; 8];
    key.apply(&mut zeros);
    assert_eq!(zeros, [248, 148, 252, 30, 48, 3, 88, 198]);
}

#[test]
fn keystream_has_period_256() {
    let mut key = Key::from_key_data(&[7, 7, 1]);
    let mut zeros = [0u8; 600];
    key.apply(&mut zeros);
    assert_eq!(zeros[..256], zeros[256..512]);
    assert_eq!(zeros[512..], zeros[..88]);
}

#[test]
fn applying_twice_restores() {
    let mut once = Key::from_key_data(b"secret");
    let mut twice = once.clone();
    let data: Vec<u8> = (0..1000u32).map(|i| (i * 3) as u8).collect();
    let mut buf = data.clone();
    once.apply(&mut buf);
    assert_ne!(buf, data);
    twice.apply(&mut buf);
    assert_eq!(buf, data);
}

#[test]
fn applying_in_chunks_is_applying_at_once() {
    let key = Key::from_key_data(b"chunky");
    let mut whole = vec![5u8; 777];
    key.clone().apply(&mut whole);
    let mut parts = vec![5u8; 777];
    let mut running = key.clone();
    for chunk in parts.chunks_mut(100) {
        running.apply(chunk);
    }
    running.apply(&mut []);
    assert_eq!(parts, whole);
}

#[test]
fn reader_transforms_only_what_was_read() {
    let mut reader = CipherReader::new("source", Key::from_key_data(&[1, 2, 3, 4, 5]));
    let mut buf = [0u8; 6];
    reader.finish_read(&mut buf, 4);
    assert_eq!(buf, [39, 121, 221, 80, 0, 0]);
    reader.finish_read(&mut buf[4..], 0);
    reader.finish_read(&mut buf[4..], 2);
    assert_eq!(buf, FIRST[..6]);
    assert_eq!(*reader.inner_mut(), "source");
    *reader.inner_mut() = "other";
    assert_eq!(reader.into_inner(), "other");
}

#[test]
fn short_write_rewinds_the_keystream() {
    let mut writer = CipherWriter::new(3u8, Key::from_key_data(&[1, 2, 3, 4, 5]));
    let (start, bytes) = writer.begin_write(&[0u8; 10]);
    assert_eq!(start, 0);
    assert_eq!(bytes, FIRST[..10]);
    writer.finish_write(start, 3);
    let (start, bytes) = writer.begin_write(&[0u8; 4]);
    assert_eq!(start, 3);
    assert_eq!(bytes, FIRST[3..7]);
    writer.finish_write(start, 4);
    let (start, _) = writer.begin_write(&vec![0u8; 700]);
    writer.finish_write(start, 256 + 1);
    let (start, bytes) = writer.begin_write(&[0u8; 4]);
    assert_eq!(start, 8);
    assert_eq!(bytes, FIRST[8..12]);
    assert_eq!(writer.into_inner(), 3);
}

#[test]
fn failed_write_is_undone() {
    let mut writer = CipherWriter::new(7u8, Key::from_key_data(&[1, 2, 3, 4, 5]));
    let (start, _) = writer.begin_write(&[0u8; 3]);
    assert_eq!(writer.settle_write::<()>(start, Ok(3)), Ok(3));
    let (start, _) = writer.begin_write(&[0u8; 10]);
    assert_eq!(writer.settle_write(start, Err("interrupted")), Err("interrupted"));
    let (start, bytes) = writer.begin_write(&[0u8; 4]);
    assert_eq!(start, 3);
    assert_eq!(bytes, FIRST[3..7]);
    assert_eq!(writer.settle_write::<()>(start, Ok(1)), Ok(1));
    let (start, bytes) = writer.begin_write(&[0u8; 2]);
    assert_eq!(start, 4);
    assert_eq!(bytes, FIRST[4..6]);
    assert_eq!(writer.into_inner(), 7);
}
