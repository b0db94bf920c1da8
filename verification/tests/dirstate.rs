use caduceus::dirstate::{Dirstate, DirstateEntry, DirstateError};
use caduceus::error::Field;
use caduceus::reader::ByteReader;

fn hashes() -> Vec<u8> {
    let mut out = vec![0x11; 20];
    out.extend(vec![0x22; 20]);
    out
}

fn entry_bytes(state: u8, mode: u32, size: u32, mtime: u32, name: &[u8]) -> Vec<u8> {
    let mut out = vec![state];
    out.extend_from_slice(&mode.to_be_bytes());
    out.extend_from_slice(&size.to_be_bytes());
    out.extend_from_slice(&mtime.to_be_bytes());
    out.extend_from_slice(&(name.len() as u32).to_be_bytes());
    out.extend_from_slice(name);
    out
}

fn table() -> Vec<u8> {
    let mut bytes = hashes();
    bytes.extend(entry_bytes(b'n', 0o100644, 1234, 1_400_000_000, b"src/main.rs"));
    bytes.extend(entry_bytes(b'a', 0o100755, 0, 0xffff_ffff, b"run.sh"));
    bytes
}

fn decode(bytes: Vec<u8>) -> Result<Dirstate, DirstateError> {
    let mut reader = ByteReader::new(bytes);
    Dirstate::from_reader(&mut reader)
}

fn entry(state: u8, mode: u32, mtime: u32) -> DirstateEntry {
    DirstateEntry { state, mode, size: 0, mtime, namelen: 1, name: vec![b'f'] }
}

#[test]
fn hashes_alone_are_an_empty_table() {
    let d = decode(hashes()).unwrap();
    assert_eq!(d.fphash, vec![0x11; 20]);
    assert_eq!(d.sphash, vec![0x22; 20]);
    assert!(d.entries.is_empty());
    assert!(d.is_wf());
}

#[test]
fn entries_are_read_in_stream_order() {
    let d = decode(table()).unwrap();
    assert_eq!(d.fphash, vec![0x11; 20]);
    assert_eq!(d.sphash, vec![0x22; 20]);
    assert_eq!(d.entries.len(), 2);
    let a = &d.entries[0];
    assert_eq!(a.state, b'n');
    assert_eq!(a.mode, 0o100644);
    assert_eq!(a.size, 1234);
    assert_eq!(a.mtime, 1_400_000_000);
    assert_eq!(a.namelen, 11);
    assert_eq!(a.name, b"src/main.rs".to_vec());
    let b = &d.entries[1];
    assert_eq!(b.state, b'a');
    assert_eq!(b.mode, 0o100755);
    assert_eq!(b.size, 0);
    assert_eq!(b.mtime, 0xffff_ffff);
    assert_eq!(b.namelen, 6);
    assert_eq!(b.name, b"run.sh".to_vec());
    assert!(d.is_wf());
}

#[test]
fn dirstate_reader_ends_behind_the_last_entry() {
    let bytes = table();
    let len = bytes.len();
    let mut reader = ByteReader::new(bytes);
    assert!(Dirstate::from_reader(&mut reader).is_ok());
    assert_eq!(reader.position(), len);
}

#[test]
fn a_short_first_hash_is_an_error() {
    for len in 0..20usize {
        let mut reader = ByteReader::new(vec![0x11; len]);
        let e = Dirstate::from_reader(&mut reader).unwrap_err();
        assert_eq!(e.cause.field, Field::Parent1Hash);
        assert_eq!(e.cause.position, 0);
        assert_eq!(reader.position(), 0);
        assert!(e.partial.fphash.is_empty());
        assert!(e.partial.sphash.is_empty());
        assert!(e.partial.entries.is_empty());
    }
}

#[test]
fn a_short_second_hash_is_an_error() {
    for len in 20..40usize {
        let mut reader = ByteReader::new(hashes()[..len].to_vec());
        let e = Dirstate::from_reader(&mut reader).unwrap_err();
        assert_eq!(e.cause.field, Field::Parent2Hash);
        assert_eq!(e.cause.position, 20);
        assert_eq!(reader.position(), 20);
        assert_eq!(e.partial.fphash, vec![0x11; 20]);
        assert!(e.partial.sphash.is_empty());
        assert!(e.partial.entries.is_empty());
    }
}

#[test]
fn each_missing_entry_field_is_named() {
    let mut bytes = hashes();
    bytes.extend(entry_bytes(b'm', 0o644, 7, 9, b"a/b/c"));
    let cases: [(usize, Field, usize); 10] = [
        (41, Field::Mode, 41),
        (44, Field::Mode, 41),
        (45, Field::Size, 45),
        (48, Field::Size, 45),
        (49, Field::Mtime, 49),
        (52, Field::Mtime, 49),
        (53, Field::NameLength, 53),
        (56, Field::NameLength, 53),
        (57, Field::Name, 57),
        (61, Field::Name, 57),
    ];
    for (cut, field, position) in cases {
        let mut reader = ByteReader::new(bytes[..cut].to_vec());
        let e = Dirstate::from_reader(&mut reader).unwrap_err();
        assert_eq!(e.cause.field, field, "cut at {}", cut);
        assert_eq!(e.cause.position, position, "cut at {}", cut);
        assert_eq!(reader.position(), position);
        assert_eq!(e.partial.fphash, vec![0x11; 20]);
        assert_eq!(e.partial.sphash, vec![0x22; 20]);
        assert!(e.partial.entries.is_empty());
    }
}

#[test]
fn a_cut_inside_an_entry_is_an_error() {
    let bytes = table();
    let first_end = 40 + 17 + 11;
    for cut in 40..bytes.len() {
        let result = decode(bytes[..cut].to_vec());
        let at_boundary = cut == 40 || cut == first_end;
        match result {
            Ok(d) => {
                assert!(at_boundary, "cut at {}", cut);
                assert_eq!(d.entries.len(), if cut == 40 { 0 } else { 1 });
            }
            Err(e) => {
                assert!(!at_boundary, "cut at {}", cut);
                assert_eq!(e.partial.entries.len(), if cut < first_end { 0 } else { 1 });
                for kept in &e.partial.entries {
                    assert_eq!(kept.name, b"src/main.rs".to_vec());
                }
                assert!(e.cause.position <= cut);
            }
        }
    }
}

#[test]
fn names_are_raw_bytes() {
    let mut bytes = hashes();
    bytes.extend(entry_bytes(b'n', 0, 0, 0, &[0xff, 0x00, 0xc3, 0x28]));
    bytes.extend(entry_bytes(b'r', 0, 0, 0, b""));
    let d = decode(bytes).unwrap();
    assert_eq!(d.entries[0].name, vec![0xff, 0x00, 0xc3, 0x28]);
    assert_eq!(d.entries[1].name, Vec::<u8>::new());
    assert_eq!(d.entries[1].namelen, 0);
}

#[test]
fn duplicate_names_are_kept() {
    let mut bytes = hashes();
    bytes.extend(entry_bytes(b'n', 1, 2, 3, b"same"));
    bytes.extend(entry_bytes(b'r', 4, 5, 6, b"same"));
    bytes.extend(entry_bytes(b'a', 7, 8, 9, b"other"));
    let d = decode(bytes).unwrap();
    assert_eq!(d.entries.len(), 3);
    assert_eq!(d.entries[0].name, b"same".to_vec());
    assert_eq!(d.entries[1].name, b"same".to_vec());
    assert_eq!(d.entries[1].state, b'r');
    assert_eq!(d.entries[2].name, b"other".to_vec());
}

#[test]
fn all_ones_mtime_is_unset() {
    assert!(entry(b'n', 0, 0xffff_ffff).mtime_is_unset());
    assert_eq!(entry(b'n', 0, 0xffff_ffff).timestamp(), None);
    assert_eq!(0xffff_ffffu32 as i32, -1);
}

#[test]
fn other_mtimes_are_timestamps() {
    let values: [u32; 5] = [0, 1, 1_400_000_000, 0x8000_0000, 0xffff_fffe];
    for v in values {
        assert!(!entry(b'n', 0, v).mtime_is_unset());
        assert_eq!(entry(b'n', 0, v).timestamp(), Some(v as i64));
    }
    assert_eq!(entry(b'n', 0, 0xffff_fffe).timestamp(), Some(4_294_967_294));
}

#[test]
fn permissions_are_the_low_nine_bits() {
    assert_eq!(entry(b'n', 0o100644, 0).permissions(), 0o644);
    assert_eq!(entry(b'n', 0o100755, 0).permissions(), 0o755);
    assert_eq!(entry(b'n', 0xffff_ffff, 0).permissions(), 0o777);
    assert_eq!(entry(b'n', 0o1000, 0).permissions(), 0);
    assert_eq!(entry(b'n', 0, 0).permissions(), 0);
}

#[test]
fn state_codes_are_ascii_characters() {
    assert_eq!(entry(b'n', 0, 0).state_char(), Some('n'));
    assert_eq!(entry(b'a', 0, 0).state_char(), Some('a'));
    assert_eq!(entry(b'r', 0, 0).state_char(), Some('r'));
    assert_eq!(entry(b'm', 0, 0).state_char(), Some('m'));
    assert_eq!(entry(0, 0, 0).state_char(), Some('\0'));
    assert_eq!(entry(0x7f, 0, 0).state_char(), Some('\u{7f}'));
}

#[test]
fn other_state_codes_have_no_character() {
    assert_eq!(entry(0x80, 0, 0).state_char(), None);
    assert_eq!(entry(0xe9, 0, 0).state_char(), None);
    assert_eq!(entry(0xff, 0, 0).state_char(), None);
}

#[test]
fn entry_well_formedness_is_checked() {
    let mut d = decode(table()).unwrap();
    assert!(d.is_wf());
    d.entries[0].namelen = 3;
    assert!(!d.entries[0].is_wf());
    assert!(!d.is_wf());
    d.entries[0].namelen = 11;
    assert!(d.is_wf());
    d.fphash.push(0);
    assert!(!d.is_wf());
}

#[test]
fn dirstate_decoding_starts_at_the_cursor() {
    let mut bytes = vec![9, 9];
    bytes.extend(table());
    let mut reader = ByteReader::new(bytes);
    assert_eq!(reader.read_exact(2), Some(vec![9, 9]));
    let d = Dirstate::from_reader(&mut reader).unwrap();
    assert_eq!(d.entries.len(), 2);
    assert_eq!(d.fphash, vec![0x11; 20]);
}
