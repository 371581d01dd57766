use mcserver::buffer::{BufferError, BufferReader, BUFFER_SIZE};

fn array_of(bytes: &[u8]) -> [u8; BUFFER_SIZE] {
    let mut a = [0u8; BUFFER_SIZE];
    a[..bytes.len()].copy_from_slice(bytes);
    a
}

#[test]
fn new_buffer_is_empty() {
    let mut buf = BufferReader::new();
    assert!(buf.unread().is_empty());
    assert_eq!(buf.read_byte(), None);
}

#[test]
fn from_list_and_read_bytes() {
    let mut buf = BufferReader::from_list(array_of(&[1, 2, 3]), 3);
    assert_eq!(buf.unread(), &[1, 2, 3]);
    assert_eq!(buf.read_byte(), Some(1));
    assert_eq!(buf.read_byte(), Some(2));
    assert_eq!(buf.unread(), &[3]);
    assert_eq!(buf.read_byte(), Some(3));
    assert_eq!(buf.read_byte(), None);
}

#[test]
fn append_then_read_back() {
    let mut buf = BufferReader::new();
    assert_eq!(buf.append(array_of(&[10, 20, 30, 40]), 3), Ok(()));
    assert_eq!(buf.unread(), &[10, 20, 30]);
    assert_eq!(buf.append(array_of(&[50]), 1), Ok(()));
    assert_eq!(buf.unread(), &[10, 20, 30, 50]);
    buf.advance(2);
    assert_eq!(buf.unread(), &[30, 50]);
}

#[test]
fn append_compacts_when_needed() {
    let mut buf = BufferReader::new();
    assert_eq!(buf.append([7u8; BUFFER_SIZE], 2000), Ok(()));
    buf.advance(1990);
    assert_eq!(buf.unread().len(), 10);
    assert_eq!(buf.append(array_of(&[1, 2, 3]), 100), Ok(()));
    assert_eq!(buf.unread().len(), 110);
    assert_eq!(&buf.unread()[..10], &[7u8; 10]);
    assert_eq!(&buf.unread()[10..13], &[1, 2, 3]);
}

#[test]
fn append_too_big_is_refused() {
    let mut buf = BufferReader::new();
    assert_eq!(buf.append([1u8; BUFFER_SIZE], 2000), Ok(()));
    assert_eq!(buf.append([2u8; BUFFER_SIZE], 49), Err(BufferError::SourceTooBig));
    assert_eq!(buf.unread().len(), 2000);
    assert_eq!(buf.append([2u8; BUFFER_SIZE], 48), Ok(()));
    assert_eq!(buf.unread().len(), BUFFER_SIZE);
}

#[test]
fn full_capacity_append() {
    let mut buf = BufferReader::new();
    assert_eq!(buf.append([3u8; BUFFER_SIZE], BUFFER_SIZE), Ok(()));
    assert_eq!(buf.unread().len(), BUFFER_SIZE);
    assert_eq!(buf.append([3u8; BUFFER_SIZE], 1), Err(BufferError::SourceTooBig));
}

#[test]
fn set_filled_len_rewinds() {
    let mut buf = BufferReader::from_list(array_of(&[4, 5, 6]), 3);
    assert_eq!(buf.read_byte(), Some(4));
    buf.set_filled_len(2);
    assert_eq!(buf.unread(), &[4, 5]);
}
