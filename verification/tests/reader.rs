use caduceus::reader::ByteReader;

#[test]
fn new_reader_starts_at_zero() {
    let r = ByteReader::new(vec![1, 2, 3]);
    assert_eq!(r.position(), 0);
    assert_eq!(r.remaining(), 3);
}

#[test]
fn read_u8_walks_the_stream() {
    let mut r = ByteReader::new(vec![0x6e, 0xff]);
    assert_eq!(r.read_u8(), Some(0x6e));
    assert_eq!(r.position(), 1);
    assert_eq!(r.read_u8(), Some(0xff));
    assert_eq!(r.position(), 2);
    assert_eq!(r.read_u8(), None);
    assert_eq!(r.position(), 2);
    assert_eq!(r.remaining(), 0);
}

#[test]
fn read_exact_takes_the_next_bytes() {
    let mut r = ByteReader::new(vec![10, 20, 30, 40, 50]);
    assert_eq!(r.read_exact(2), Some(vec![10, 20]));
    assert_eq!(r.position(), 2);
    assert_eq!(r.read_exact(0), Some(vec![]));
    assert_eq!(r.position(), 2);
    assert_eq!(r.read_exact(3), Some(vec![30, 40, 50]));
    assert_eq!(r.position(), 5);
    assert_eq!(r.read_exact(0), Some(vec![]));
}

#[test]
fn read_exact_past_the_end_reads_nothing() {
    let mut r = ByteReader::new(vec![10, 20, 30]);
    assert_eq!(r.read_exact(4), None);
    assert_eq!(r.position(), 0);
    assert_eq!(r.read_exact(usize::MAX), None);
    assert_eq!(r.position(), 0);
    assert_eq!(r.read_exact(3), Some(vec![10, 20, 30]));
}

#[test]
fn read_be_u32_is_big_endian() {
    let mut r = ByteReader::new(vec![0x01, 0x02, 0x03, 0x04, 0xff, 0xff, 0xff, 0xff]);
    assert_eq!(r.read_be_u32(), Some(0x0102_0304));
    assert_eq!(r.position(), 4);
    assert_eq!(r.read_be_u32(), Some(u32::MAX));
    assert_eq!(r.position(), 8);
    assert_eq!(r.read_be_u32(), None);
}

#[test]
fn read_be_u32_needs_four_bytes() {
    let mut r = ByteReader::new(vec![0x01, 0x02, 0x03]);
    assert_eq!(r.read_be_u32(), None);
    assert_eq!(r.position(), 0);
}

#[test]
fn read_be_i32_is_twos_complement() {
    let mut bytes = vec![0xff, 0xff, 0xff, 0xff];
    bytes.extend_from_slice(&[0x80, 0x00, 0x00, 0x00]);
    bytes.extend_from_slice(&[0x7f, 0xff, 0xff, 0xff]);
    bytes.extend_from_slice(&[0xff, 0xff, 0xff, 0xfe]);
    bytes.extend_from_slice(&[0x00, 0x00, 0x01, 0x00]);
    let mut r = ByteReader::new(bytes);
    assert_eq!(r.read_be_i32(), Some(-1));
    assert_eq!(r.read_be_i32(), Some(i32::MIN));
    assert_eq!(r.read_be_i32(), Some(i32::MAX));
    assert_eq!(r.read_be_i32(), Some(-2));
    assert_eq!(r.read_be_i32(), Some(256));
    assert_eq!(r.read_be_i32(), None);
    assert_eq!(r.position(), 20);
}

#[test]
fn read_be_u64_is_big_endian() {
    let mut r = ByteReader::new(vec![0x01, 0x23, 0x45, 0x67, 0x89, 0xab, 0xcd, 0xef, 0x00]);
    assert_eq!(r.read_be_u64(), Some(0x0123_4567_89ab_cdef));
    assert_eq!(r.position(), 8);
    assert_eq!(r.read_be_u64(), None);
    assert_eq!(r.position(), 8);
    assert_eq!(r.remaining(), 1);
}

#[test]
fn read_be_u64_needs_eight_bytes() {
    for len in 0..8usize {
        let mut r = ByteReader::new(vec![0xaa; len]);
        assert_eq!(r.read_be_u64(), None);
        assert_eq!(r.position(), 0);
    }
}

#[test]
fn reads_agree_with_std() {
    let values: [u32; 6] = [0, 1, 0xff, 0x1234_5678, 0x8000_0000, u32::MAX];
    for v in values {
        let mut r = ByteReader::new(v.to_be_bytes().to_vec());
        assert_eq!(r.read_be_u32(), Some(v));
        let mut r = ByteReader::new(v.to_be_bytes().to_vec());
        assert_eq!(r.read_be_i32(), Some(v as i32));
    }
    let wide: [u64; 4] = [0, 1, 0x0001_0000_0000_0000, u64::MAX];
    for v in wide {
        let mut r = ByteReader::new(v.to_be_bytes().to_vec());
        assert_eq!(r.read_be_u64(), Some(v));
    }
}
