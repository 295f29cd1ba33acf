use redox_drivers::ahci::path::{disk_listing, parse_usize_range, trim_slashes_range};
use redox_drivers::ahci::scheme::{DiskRequest, DiskScheme, FileStat, ReadStep};

const ENOENT: i32 = 2;
const EBADF: i32 = 9;
const EACCES: i32 = 13;
const EISDIR: i32 = 21;
const EINVAL: i32 = 22;
const O_DIRECTORY: usize = 0x1000_0000;
const O_STAT: usize = 0x2000_0000;
const SEEK_SET: usize = 0;
const SEEK_CUR: usize = 1;
const SEEK_END: usize = 2;

fn scheme() -> DiskScheme {
    DiskScheme::new(vec![4096, 1 << 20, 512 * 3])
}

#[test]
fn trims_slashes() {
    assert_eq!(trim_slashes_range(b"//12/"), (2, 4));
    assert_eq!(trim_slashes_range(b"///"), (3, 3));
    assert_eq!(trim_slashes_range(b""), (0, 0));
    assert_eq!(trim_slashes_range(b"a/b"), (0, 3));
}

#[test]
fn parses_indices() {
    assert_eq!(parse_usize_range(b"42", 0, 2), Some(42));
    assert_eq!(parse_usize_range(b"+7", 0, 2), Some(7));
    assert_eq!(parse_usize_range(b"007", 0, 3), Some(7));
    assert_eq!(parse_usize_range(b"+", 0, 1), None);
    assert_eq!(parse_usize_range(b"", 0, 0), None);
    assert_eq!(parse_usize_range(b"-1", 0, 2), None);
    assert_eq!(parse_usize_range(b"1a", 0, 2), None);
    assert_eq!(parse_usize_range(b"x15y", 1, 3), Some(15));
    let max = usize::MAX.to_string();
    assert_eq!(parse_usize_range(max.as_bytes(), 0, max.len()), Some(usize::MAX));
    let over = format!("{}0", usize::MAX);
    assert_eq!(parse_usize_range(over.as_bytes(), 0, over.len()), None);
}

#[test]
fn lists_disks() {
    assert_eq!(disk_listing(0), b"".to_vec());
    assert_eq!(disk_listing(3), b"0\n1\n2\n".to_vec());
    let twelve = disk_listing(12);
    assert_eq!(twelve, b"0\n1\n2\n3\n4\n5\n6\n7\n8\n9\n10\n11\n".to_vec());
}

#[test]
fn open_requires_root() {
    let mut s = scheme();
    assert_eq!(s.open(b"0", 0, 1000, 0), Err(EACCES));
    assert_eq!(s.open(b"/", O_STAT, 1, 0), Err(EACCES));
}

#[test]
fn open_root_listing() {
    let mut s = scheme();
    assert_eq!(s.open(b"", 0, 0, 0), Err(EISDIR));
    assert_eq!(s.open(b"/", O_DIRECTORY, 0, 0), Ok(0));
    assert_eq!(s.open(b"//", O_STAT, 0, 0), Ok(1));
    let mut buf = [0u8; 16];
    assert_eq!(s.read(0, &mut buf), Ok(ReadStep::Copied(6)));
    assert_eq!(&buf[..6], b"0\n1\n2\n");
    assert_eq!(s.read(0, &mut buf), Ok(ReadStep::Copied(0)));
    assert_eq!(s.fstat(1), Ok(FileStat { mode: 0x4000, size: 6 }));
}

#[test]
fn open_disks() {
    let mut s = scheme();
    assert_eq!(s.open(b"1", 0, 0, 0), Ok(0));
    assert_eq!(s.open(b"/2/", 0, 0, 0), Ok(1));
    assert_eq!(s.open(b"3", 0, 0, 0), Err(ENOENT));
    assert_eq!(s.open(b"disk", 0, 0, 0), Err(ENOENT));
    assert_eq!(s.open(&[0xFF, 0xFE], 0, 0, 0), Err(ENOENT));
    assert_eq!(s.open(b"2", 0, 0, 0), Ok(2));
    assert_eq!(s.fstat(0), Ok(FileStat { mode: 0x8000, size: 1 << 20 }));
    assert_eq!(s.fstat(7), Err(EBADF));
}

#[test]
fn small_reads_of_listing() {
    let mut s = scheme();
    let id = s.open(b"", O_STAT, 0, 0).unwrap();
    let mut buf = [9u8; 4];
    assert_eq!(s.read(id, &mut buf), Ok(ReadStep::Copied(4)));
    assert_eq!(&buf, b"0\n1\n");
    assert_eq!(s.read(id, &mut buf), Ok(ReadStep::Copied(2)));
    assert_eq!(&buf, b"2\n1\n");
    assert_eq!(s.read(99, &mut buf), Err(EBADF));
}

#[test]
fn disk_reads_and_writes() {
    let mut s = scheme();
    let id = s.open(b"1", 0, 0, 0).unwrap();
    let mut buf = [0u8; 512];
    assert_eq!(s.read(id, &mut buf), Ok(ReadStep::Disk(DiskRequest { disk: 1, block: 0 })));
    assert_eq!(s.complete_disk_io(id, 512), Ok(512));
    assert_eq!(s.offset(id), Some(512));
    assert_eq!(s.write(id, &buf), Ok(DiskRequest { disk: 1, block: 1 }));
    assert_eq!(s.complete_disk_io(id, 1000), Ok(1000));
    assert_eq!(s.write(id, &buf), Ok(DiskRequest { disk: 1, block: 2 }));
    let list = s.open(b"", O_DIRECTORY, 0, 0).unwrap();
    assert_eq!(s.write(list, &buf), Err(EBADF));
    assert_eq!(s.complete_disk_io(list, 1), Err(EBADF));
    assert_eq!(s.write(42, &buf), Err(EBADF));
}

#[test]
fn seeks() {
    let mut s = scheme();
    let list = s.open(b"", O_DIRECTORY, 0, 0).unwrap();
    assert_eq!(s.seek(list, 4, SEEK_SET), Ok(4));
    assert_eq!(s.seek(list, 100, SEEK_SET), Ok(6));
    assert_eq!(s.seek(list, (-2isize) as usize, SEEK_CUR), Ok(4));
    assert_eq!(s.seek(list, (-10isize) as usize, SEEK_CUR), Ok(0));
    assert_eq!(s.seek(list, (-1isize) as usize, SEEK_END), Ok(5));
    assert_eq!(s.seek(list, 3, SEEK_END), Ok(6));
    assert_eq!(s.seek(list, 0, 7), Err(EINVAL));
    assert_eq!(s.offset(list), Some(6));
    let disk = s.open(b"2", 0, 0, 0).unwrap();
    assert_eq!(s.seek(disk, 0, SEEK_END), Ok(1536));
    assert_eq!(s.seek(disk, 10, SEEK_CUR), Ok(1536));
    assert_eq!(s.seek(disk, 700, SEEK_SET), Ok(700));
    assert_eq!(s.write(disk, &[]), Ok(DiskRequest { disk: 2, block: 1 }));
    assert_eq!(s.seek(77, 0, SEEK_SET), Err(EBADF));
}

#[test]
fn seek_overflow_is_detected() {
    let mut s = scheme();
    let list = s.open(b"", O_DIRECTORY, 0, 0).unwrap();
    assert_eq!(s.seek(list, 3, SEEK_SET), Ok(3));
    assert!(s.seek_overflows(list, isize::MAX as usize, SEEK_CUR));
    assert!(!s.seek_overflows(list, isize::MAX as usize, SEEK_SET));
    assert!(!s.seek_overflows(list, 5, SEEK_CUR));
    assert!(!s.seek_overflows(1234, isize::MAX as usize, SEEK_CUR));
}

#[test]
fn dup_and_close() {
    let mut s = scheme();
    let list = s.open(b"", O_DIRECTORY, 0, 0).unwrap();
    assert_eq!(s.seek(list, 2, SEEK_SET), Ok(2));
    let copy = s.dup(list, b"").unwrap();
    assert_eq!(copy, 1);
    assert_eq!(s.offset(copy), Some(2));
    assert_eq!(s.close(copy), Ok(0));
    assert_eq!(s.close(copy), Err(EBADF));
    assert_eq!(s.dup(copy, b""), Err(EBADF));
    assert_eq!(s.offset(list), Some(2));
    let mut buf = [0u8; 8];
    assert_eq!(s.read(list, &mut buf), Ok(ReadStep::Copied(4)));
    assert_eq!(&buf[..4], b"1\n2\n");
}

#[test]
fn fpath_writes_scheme_name() {
    let s = scheme();
    let mut buf = [0u8; 8];
    assert_eq!(s.fpath(0, &mut buf), Ok(5));
    assert_eq!(&buf, b"disk:\0\0\0");
    let mut short = [7u8; 3];
    assert_eq!(s.fpath(3, &mut short), Ok(3));
    assert_eq!(&short, b"dis");
}

#[test]
fn every_listed_name_opens_its_disk() {
    let mut s = scheme();
    let root = s.open(b"/", O_STAT, 0, 0).unwrap();
    let mut buf = [0u8; 64];
    let n = match s.read(root, &mut buf) {
        Ok(ReadStep::Copied(n)) => n,
        other => panic!("unexpected {:?}", other),
    };
    let names: Vec<&[u8]> = buf[..n].split(|b| *b == b'\n').filter(|l| !l.is_empty()).collect();
    assert_eq!(names.len(), 3);
    for (i, name) in names.iter().enumerate() {
        let id = s.open(name, 0, 0, 0).unwrap();
        let mut probe = [0u8; 1];
        assert_eq!(s.read(id, &mut probe), Ok(ReadStep::Disk(DiskRequest { disk: i, block: 0 })));
    }
}

#[test]
fn ids_are_issued_in_order_and_never_reused() {
    let mut s = scheme();
    assert_eq!(s.open(b"0", 0, 0, 0), Ok(0));
    assert_eq!(s.open(b"9", 0, 0, 0), Err(ENOENT));
    assert_eq!(s.open(b"", 0, 0, 0), Err(EISDIR));
    assert_eq!(s.dup(0, b""), Ok(1));
    assert_eq!(s.close(0), Ok(0));
    assert_eq!(s.dup(5, b""), Err(EBADF));
    assert_eq!(s.open(b"", O_STAT, 0, 0), Ok(2));
    assert_eq!(s.close(1), Ok(0));
    assert_eq!(s.open(b"1", 0, 0, 0), Ok(3));
    assert_eq!(s.read(0, &mut [0u8; 4]), Err(EBADF));
}

#[test]
fn listing_read_in_small_pieces() {
    let mut s = DiskScheme::new(vec![512; 12]);
    let id = s.open(b"/", O_DIRECTORY, 0, 0).unwrap();
    let mut all = Vec::new();
    let sizes = [1usize, 3, 2, 5, 1, 7];
    let mut i = 0;
    loop {
        let mut buf = vec![0u8; sizes[i % sizes.len()]];
        match s.read(id, &mut buf) {
            Ok(ReadStep::Copied(0)) => break,
            Ok(ReadStep::Copied(n)) => all.extend_from_slice(&buf[..n]),
            other => panic!("unexpected {:?}", other),
        }
        i += 1;
    }
    assert_eq!(all, b"0\n1\n2\n3\n4\n5\n6\n7\n8\n9\n10\n11\n".to_vec());
    assert_eq!(s.read(id, &mut [0u8; 8]), Ok(ReadStep::Copied(0)));
}

#[test]
fn duplicates_move_independently() {
    let mut s = scheme();
    let a = s.open(b"2", 0, 0, 0).unwrap();
    let b = s.dup(a, b"").unwrap();
    assert_eq!(s.seek(b, 1024, SEEK_SET), Ok(1024));
    assert_eq!(s.offset(a), Some(0));
    assert_eq!(s.complete_disk_io(a, 512), Ok(512));
    assert_eq!(s.offset(b), Some(1024));
    assert_eq!(s.write(b, &[]), Ok(DiskRequest { disk: 2, block: 2 }));
}
