use irc_core::buffer::{FullError, MessageBuffer, MAX_BUFFER_SIZE, MAX_MSG_SIZE};

#[test]
fn new_buffer_is_empty_with_message_capacity() {
    let b = MessageBuffer::new();
    assert_eq!(b.len(), 0);
    assert!(b.is_empty());
    assert_eq!(b.capacity(), 512);
    assert_eq!(MAX_MSG_SIZE, 512);
    assert_eq!(MAX_BUFFER_SIZE, 4096);
}

#[test]
fn append_bytes_then_copy_gives_the_bytes() {
    let mut b = MessageBuffer::new();
    assert_eq!(b.append_bytes(b"hello"), Ok(()));
    assert_eq!(b.append_bytes(b" world"), Ok(()));
    let mut dst = [0u8; 16];
    let n = b.copy(&mut dst);
    assert_eq!(n, 11);
    assert_eq!(&dst[..n], b"hello world");
    assert_eq!(&dst[n..], &[0u8; 5]);
    assert_eq!(b.len(), 11);
    assert_eq!(b.to_vec(), b"hello world".to_vec());
}

#[test]
fn copy_into_short_array_copies_what_fits() {
    let mut b = MessageBuffer::new();
    b.append_bytes(b"abcdef").unwrap();
    let mut dst = [9u8; 4];
    assert_eq!(b.copy(&mut dst), 4);
    assert_eq!(&dst, b"abcd");
}

#[test]
fn append_fills_to_capacity_and_one_more_byte_fails() {
    let mut b = MessageBuffer::new();
    let full = vec![b'x'; 512];
    assert_eq!(b.append_bytes(&full), Ok(()));
    assert_eq!(b.len(), 512);
    assert_eq!(b.append_bytes(b"y"), Err(FullError));
    assert_eq!(b.len(), 512);
    assert_eq!(b.to_vec(), full);
}

#[test]
fn append_too_long_leaves_buffer_unchanged() {
    let mut b = MessageBuffer::with_capacity(4);
    b.append_bytes(b"ab").unwrap();
    assert_eq!(b.append_bytes(b"cde"), Err(FullError));
    assert_eq!(b.to_vec(), b"ab".to_vec());
    assert_eq!(b.append_str("cd"), Ok(()));
    assert_eq!(b.to_vec(), b"abcd".to_vec());
}

#[test]
fn append_str_appends_utf8_bytes() {
    let mut b = MessageBuffer::new();
    b.append_str("é!").unwrap();
    assert_eq!(b.to_vec(), vec![0xc3, 0xa9, b'!']);
}

#[test]
fn has_delim_needs_cr_then_lf() {
    let mut b = MessageBuffer::new();
    assert!(!b.has_delim());
    b.append_bytes(b"abc\r").unwrap();
    assert!(!b.has_delim());
    assert_eq!(b.find_delim(), None);
    b.append_bytes(b"\n").unwrap();
    assert!(b.has_delim());
    assert_eq!(b.find_delim(), Some(3));
    let mut c = MessageBuffer::new();
    c.append_bytes(b"a\nb\rc").unwrap();
    assert!(!c.has_delim());
}

#[test]
fn extract_line_takes_first_line_and_shifts_rest() {
    let mut b = MessageBuffer::new();
    b.append_bytes(b"NICK alice\r\nUSER a 0 * :Alice\r\npart").unwrap();
    assert_eq!(b.extract_line(), "NICK alice");
    assert_eq!(b.to_vec(), b"USER a 0 * :Alice\r\npart".to_vec());
    assert_eq!(b.extract_line(), "USER a 0 * :Alice");
    assert_eq!(b.to_vec(), b"part".to_vec());
    assert!(!b.has_delim());
}

#[test]
fn extract_line_of_empty_line_is_empty() {
    let mut b = MessageBuffer::new();
    b.append_bytes(b"\r\nx").unwrap();
    assert_eq!(b.extract_line(), "");
    assert_eq!(b.to_vec(), b"x".to_vec());
}

#[test]
fn extract_line_decodes_lossily() {
    let mut b = MessageBuffer::new();
    b.append_bytes(&[b'a', 0xff, b'b', 13, 10]).unwrap();
    assert_eq!(b.extract_line(), "a\u{fffd}b");
    assert!(b.is_empty());
}

#[test]
fn shift_bytes_to_start_removes_prefix() {
    let mut b = MessageBuffer::new();
    b.append_bytes(b"abcdef").unwrap();
    b.shift_bytes_to_start(2);
    assert_eq!(b.to_vec(), b"cdef".to_vec());
    b.shift_bytes_to_start(0);
    assert_eq!(b.to_vec(), b"cdef".to_vec());
    b.shift_bytes_to_start(4);
    assert!(b.is_empty());
    assert_eq!(b.capacity(), 512);
}

#[test]
fn clear_empties_the_buffer() {
    let mut b = MessageBuffer::new();
    b.append_bytes(b"abc").unwrap();
    b.clear();
    assert!(b.is_empty());
    b.append_bytes(b"z").unwrap();
    assert_eq!(b.to_vec(), b"z".to_vec());
}
