use generals::shared::packet::FrameError;
use generals::shared::{read_len_prefixed, write_len_prefixed};

#[test]
fn a_frame_is_the_length_and_then_the_bytes() {
    let mut out = vec![0xEE];
    assert_eq!(write_len_prefixed(&mut out, &[7, 9]), Ok(()));
    assert_eq!(out, vec![0xEE, 0, 0, 0, 2, 7, 9]);
    assert_eq!(write_len_prefixed(&mut out, &[]), Ok(()));
    assert_eq!(out, vec![0xEE, 0, 0, 0, 2, 7, 9, 0, 0, 0, 0]);
}

#[test]
fn the_length_is_written_most_significant_byte_first() {
    let message = vec![0xABu8; 0x0001_0203];
    let mut out = Vec::new();
    assert_eq!(write_len_prefixed(&mut out, &message), Ok(()));
    assert_eq!(&out[..4], &[0x00, 0x01, 0x02, 0x03]);
    assert_eq!(out.len(), 4 + 0x0001_0203);
    assert_eq!(read_len_prefixed(&out), Ok(message));
}

#[test]
fn a_frame_reads_back_and_leaves_the_rest() {
    let mut out = Vec::new();
    write_len_prefixed(&mut out, b"hello").unwrap();
    write_len_prefixed(&mut out, b"you").unwrap();
    let first = read_len_prefixed(&out).unwrap();
    assert_eq!(first, b"hello".to_vec());
    let second = read_len_prefixed(&out[4 + first.len()..]).unwrap();
    assert_eq!(second, b"you".to_vec());
    assert_eq!(read_len_prefixed(&[0, 0, 0, 0]), Ok(vec![]));
    assert_eq!(read_len_prefixed(&[0, 0, 1, 0][..]).err(), Some(FrameError::UnexpectedEof));
}

#[test]
fn a_cut_frame_is_an_unexpected_end() {
    assert_eq!(read_len_prefixed(&[]), Err(FrameError::UnexpectedEof));
    assert_eq!(read_len_prefixed(&[0, 0, 0]), Err(FrameError::UnexpectedEof));
    assert_eq!(read_len_prefixed(&[0, 0, 0, 3, 1, 2]), Err(FrameError::UnexpectedEof));
    assert_eq!(read_len_prefixed(&[255, 255, 255, 255, 1]), Err(FrameError::UnexpectedEof));
    assert_eq!(read_len_prefixed(&[0, 0, 0, 3, 1, 2, 3]), Ok(vec![1, 2, 3]));
}

#[test]
fn the_header_tells_the_length_of_the_message() {
    assert_eq!(generals::shared::packet::frame_len(&[0, 0, 1, 2]), Some(258));
    assert_eq!(generals::shared::packet::frame_len(&[255, 255, 255, 255, 9]), Some(0xFFFF_FFFF));
    assert_eq!(generals::shared::packet::frame_len(&[1, 2, 3]), None);
}
