use std::cmp::Ordering;

use caduceus::dirstate::{Dirstate, DirstateEntry};
use caduceus::names::name_le_bytes;
use caduceus::sorting::name_order;

fn named(name: &[u8], size: u32) -> DirstateEntry {
    DirstateEntry {
        state: b'n',
        mode: 0o644,
        size,
        mtime: 0,
        namelen: name.len() as u32,
        name: name.to_vec(),
    }
}

fn table(names: &[&[u8]]) -> Dirstate {
    let entries = names.iter().enumerate().map(|(i, n)| named(n, i as u32)).collect();
    Dirstate { fphash: vec![1; 20], sphash: vec![2; 20], entries }
}

fn names_and_sizes(d: &Dirstate) -> Vec<(Vec<u8>, u32)> {
    d.entries.iter().map(|e| (e.name.clone(), e.size)).collect()
}

#[test]
fn a_name_stands_before_what_it_opens() {
    assert!(name_le_bytes(b"", b""));
    assert!(name_le_bytes(b"", b"a"));
    assert!(!name_le_bytes(b"a", b""));
    assert!(name_le_bytes(b"ab", b"abc"));
    assert!(!name_le_bytes(b"abc", b"ab"));
    assert!(name_le_bytes(b"abc", b"abc"));
}

#[test]
fn the_first_byte_that_differs_decides() {
    assert!(name_le_bytes(b"abc", b"abd"));
    assert!(!name_le_bytes(b"abd", b"abc"));
    assert!(name_le_bytes(b"a/z", b"ab"));
    assert!(name_le_bytes(b"Z", b"a"));
    assert!(name_le_bytes(&[0x7f], &[0x80]));
    assert!(!name_le_bytes(&[0xff], &[0x00, 0xff]));
    assert!(name_le_bytes(b"abcz", b"abd"));
}

#[test]
fn name_le_agrees_with_the_order_of_slices() {
    let names: [&[u8]; 8] = [b"", b"a", b"ab", b"b", b"a/b", &[0xff], &[0x00], b"abc"];
    for a in names {
        for b in names {
            assert_eq!(name_le_bytes(a, b), a <= b);
        }
    }
}

#[test]
fn name_order_tells_three_ways() {
    assert_eq!(name_order(&named(b"a", 0), &named(b"b", 0)), Ordering::Less);
    assert_eq!(name_order(&named(b"b", 0), &named(b"a", 0)), Ordering::Greater);
    assert_eq!(name_order(&named(b"same", 1), &named(b"same", 2)), Ordering::Equal);
    assert_eq!(name_order(&named(b"ab", 0), &named(b"abc", 0)), Ordering::Less);
    assert_eq!(name_order(&named(b"", 0), &named(b"", 0)), Ordering::Equal);
}

#[test]
fn name_order_agrees_with_the_order_of_slices() {
    let names: [&[u8]; 7] = [b"", b"a", b"ab", b"b", b"a/b", &[0xff], &[0x00]];
    for a in names {
        for b in names {
            assert_eq!(name_order(&named(a, 0), &named(b, 0)), a.cmp(b));
        }
    }
}

#[test]
fn sort_by_name_orders_the_entries() {
    let mut d = table(&[b"src/main.rs", b"README", b"src/lib.rs", b"Cargo.toml", b"src"]);
    d.sort_by_name();
    let got: Vec<Vec<u8>> = d.entries.iter().map(|e| e.name.clone()).collect();
    let want: Vec<Vec<u8>> = vec![
        b"Cargo.toml".to_vec(),
        b"README".to_vec(),
        b"src".to_vec(),
        b"src/lib.rs".to_vec(),
        b"src/main.rs".to_vec(),
    ];
    assert_eq!(got, want);
    assert_eq!(d.fphash, vec![1; 20]);
    assert_eq!(d.sphash, vec![2; 20]);
    assert!(d.is_wf());
}

#[test]
fn sort_by_name_keeps_each_entry_whole() {
    let mut d = table(&[b"b", b"a"]);
    d.entries[0].state = b'r';
    d.entries[0].mode = 0o755;
    d.entries[0].mtime = 77;
    d.sort_by_name();
    assert_eq!(d.entries[1].name, b"b".to_vec());
    assert_eq!(d.entries[1].state, b'r');
    assert_eq!(d.entries[1].mode, 0o755);
    assert_eq!(d.entries[1].mtime, 77);
    assert_eq!(d.entries[1].size, 0);
    assert_eq!(d.entries[0].name, b"a".to_vec());
    assert_eq!(d.entries[0].size, 1);
}

#[test]
fn sort_by_name_keeps_the_order_of_equal_names() {
    let mut d = table(&[b"x", b"dup", b"a", b"dup", b"x", b"dup"]);
    d.sort_by_name();
    let want: Vec<(Vec<u8>, u32)> = vec![
        (b"a".to_vec(), 2),
        (b"dup".to_vec(), 1),
        (b"dup".to_vec(), 3),
        (b"dup".to_vec(), 5),
        (b"x".to_vec(), 0),
        (b"x".to_vec(), 4),
    ];
    assert_eq!(names_and_sizes(&d), want);
}

#[test]
fn sort_by_name_of_nothing_and_of_one() {
    let mut d = table(&[]);
    d.sort_by_name();
    assert!(d.entries.is_empty());
    let mut d = table(&[b"only"]);
    d.sort_by_name();
    assert_eq!(names_and_sizes(&d), vec![(b"only".to_vec(), 0)]);
}

#[test]
fn sort_by_name_sorts_bytes_not_text() {
    let mut d = table(&[&[0xc3, 0xa9], b"z", &[0xff, 0x00], b"Z", &[0x00]]);
    d.sort_by_name();
    let got: Vec<Vec<u8>> = d.entries.iter().map(|e| e.name.clone()).collect();
    let want: Vec<Vec<u8>> =
        vec![vec![0x00], b"Z".to_vec(), b"z".to_vec(), vec![0xc3, 0xa9], vec![0xff, 0x00]];
    assert_eq!(got, want);
}
