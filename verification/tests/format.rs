//! Tests of the fixed-layout decoders: page headers, meta records,
//! element headers and bucket headers.

use ancla::bolt::{
    read_u64, BranchElementHeader, BucketHeader, LeafElementHeader, Meta, PageFlag, PageHeader,
    Pgid, BRANCH_ELEMENT_HEADER_SIZE, BUCKET_HEADER_SIZE, DATAFILE_VERSION,
    LEAF_ELEMENT_HEADER_SIZE, MAGIC_NUMBER, PAGE_HEADER_SIZE,
};
use ancla::errors::Error;
use fnv_rs::{Fnv64, FnvHasher};

fn checksum_of(data: &[u8]) -> u64 {
    u64::from_be_bytes(Fnv64::hash(&data[16..72]).as_bytes().try_into().unwrap())
}

#[test]
fn bolt_test_page_try_from() {
    let data: [u8; 16] = [
        1, 0, 0, 0, 0, 0, 0, 0, // id
        1, 0, // flags
        0, 0, // count
        1, 0, 0, 0, // overflow
    ];
    let page = PageHeader::try_from(&data as &[u8]).unwrap();
    assert_eq!(page.id.0, 1);
    assert_eq!(page.flags.as_u16(), 1);
    assert_eq!(page.count, 0);
    assert_eq!(page.overflow, 1);
}

#[test]
fn bolt_test_page_try_from_too_small() {
    let data: [u8; 15] = [
        1, 0, 0, 0, 0, 0, 0, 0, // id
        1, 0, // flags
        0, 0, // count
        1, 0, 0, // overflow
    ];
    let result = PageHeader::try_from(&data as &[u8]);
    assert!(result.is_err());
    assert_eq!(result.unwrap_err(), Error::TooSmallData { expect: 16, got: 15 });
}

#[test]
fn bolt_test_meta_try_from() {
    let data: [u8; 80] = [
        0, 0, 0, 0, 0, 0, 0, 0, 0, 0, 0, 0, 0, 0, 0, 0, // PageHeader
        0xED, 0xDA, 0x0C, 0xED, // magic
        2, 0, 0, 0, // version
        1, 0, 0, 0, // page_size
        0, 0, 0, 0, // unused
        1, 0, 0, 0, 0, 0, 0, 0, // root_pgid
        1, 0, 0, 0, 0, 0, 0, 0, // root_sequence
        1, 0, 0, 0, 0, 0, 0, 0, // freelist_pgid
        1, 0, 0, 0, 0, 0, 0, 0, // max_pgid
        1, 0, 0, 0, 0, 0, 0, 0, // txid
        b'a', 0, 0, 0, 0, 0, 0, 0, // checksum
    ];
    let meta = Meta::decode(&data as &[u8]).unwrap();
    assert_eq!(meta.magic, MAGIC_NUMBER);
    assert_eq!(meta.version, DATAFILE_VERSION);
    assert_eq!(meta.page_size, 1);
    assert_eq!(meta.root_pgid, Pgid(1));
    assert_eq!(meta.root_sequence, 1);
    assert_eq!(meta.freelist_pgid, Pgid(1));
    assert_eq!(meta.max_pgid, Pgid(1));
    assert_eq!(meta.txid, 1);
    assert_eq!(meta.checksum, 97);
}

#[test]
fn bolt_test_meta_try_from_too_small() {
    let data: [u8; 79] = [
        0, 0, 0, 0, 0, 0, 0, 0, 0, 0, 0, 0, 0, 0, 0, 0, // PageHeader
        0xED, 0xDA, 0x0C, 0xED, // magic
        2, 0, 0, 0, // version
        1, 0, 0, 0, // page_size
        0, 0, 0, 0, // unused
        1, 0, 0, 0, 0, 0, 0, 0, // root_pgid
        1, 0, 0, 0, 0, 0, 0, 0, // root_sequence
        1, 0, 0, 0, 0, 0, 0, 0, // freelist_pgid
        1, 0, 0, 0, 0, 0, 0, 0, // max_pgid
        1, 0, 0, 0, 0, 0, 0, 0, // txid
        b'a', 0, 0, 0, 0, 0, 0, // checksum
    ];
    let result = Meta::decode(&data as &[u8]);
    assert!(result.is_err());
    assert_eq!(result.unwrap_err(), Error::TooSmallData { expect: 80, got: 79 });
}

#[test]
fn bolt_test_branch_page_element_try_from() {
    let data: [u8; 16] = [
        1, 0, 0, 0, // pos
        2, 0, 0, 0, // ksize
        1, 0, 0, 0, 0, 0, 0, 0, // pgid
    ];
    let element = BranchElementHeader::try_from(&data as &[u8]).unwrap();
    assert_eq!(element.pos, 1);
    assert_eq!(element.ksize, 2);
    assert_eq!(element.pgid.0, 1);
}

#[test]
fn bolt_test_branch_page_element_try_from_too_small() {
    let data: [u8; 15] = [
        1, 0, 0, 0, // pos
        2, 0, 0, 0, // ksize
        1, 0, 0, 0, 0, 0, 0, // pgid
    ];
    let result = BranchElementHeader::try_from(&data as &[u8]);
    assert!(result.is_err());
    assert_eq!(result.unwrap_err(), Error::TooSmallData { expect: 16, got: 15 });
}

#[test]
fn bolt_test_leaf_page_element_try_from() {
    let data: [u8; 16] = [
        1, 0, 0, 0, // flags
        2, 0, 0, 0, // pos
        3, 0, 0, 0, // ksize
        4, 0, 0, 0, // vsize
    ];
    let element = LeafElementHeader::try_from(&data as &[u8]).unwrap();
    assert_eq!(element.flags, 1);
    assert_eq!(element.pos, 2);
    assert_eq!(element.ksize, 3);
    assert_eq!(element.vsize, 4);
}

#[test]
fn bolt_test_leaf_page_element_try_from_too_small() {
    let data: [u8; 15] = [
        1, 0, 0, 0, // flags
        2, 0, 0, 0, // pos
        3, 0, 0, 0, // ksize
        4, 0, 0, // vsize
    ];
    let result = LeafElementHeader::try_from(&data as &[u8]);
    assert!(result.is_err());
    assert_eq!(result.unwrap_err(), Error::TooSmallData { expect: 16, got: 15 });
}

#[test]
fn bolt_test_bucket_try_from() {
    let data: [u8; 16] = [
        1, 0, 0, 0, 0, 0, 0, 0, // root
        2, 0, 0, 0, 0, 0, 0, 0, // sequence
    ];
    let bucket = BucketHeader::try_from(&data as &[u8]).unwrap();
    assert_eq!(bucket.root.0, 1);
    assert_eq!(bucket.sequence, 2);
}

#[test]
fn bolt_test_bucket_try_from_too_small() {
    let data: [u8; 15] = [
        1, 0, 0, 0, 0, 0, 0, 0, // root
        2, 0, 0, 0, 0, 0, 0, // sequence
    ];
    let result = BucketHeader::try_from(&data as &[u8]);
    assert!(result.is_err());
    assert_eq!(result.unwrap_err(), Error::TooSmallData { expect: 16, got: 15 });
}

#[test]
fn test_read_value_u64_success() {
    let data: [u8; 8] = [1, 0, 0, 0, 0, 0, 0, 0];
    assert_eq!(read_u64(&data, 0), 1);
}

#[test]
fn lib_test_page_try_from() {
    let mut data = [0u8; PAGE_HEADER_SIZE];
    data[0..8].copy_from_slice(&1u64.to_le_bytes());
    data[8..10].copy_from_slice(&1u16.to_le_bytes());
    data[10..12].copy_from_slice(&0u16.to_le_bytes());
    data[12..16].copy_from_slice(&1u32.to_le_bytes());

    let page = PageHeader::try_from(&data as &[u8]).unwrap();
    assert_eq!(page.id.0, 1);
    assert_eq!(page.flags, PageFlag(0x01));
    assert_eq!(page.count, 0);
    assert_eq!(page.overflow, 1);
}

#[test]
fn lib_test_page_try_from_too_small() {
    let data: [u8; PAGE_HEADER_SIZE - 1] = [0; PAGE_HEADER_SIZE - 1];
    let result = PageHeader::try_from(&data as &[u8]);
    assert!(result.is_err());
    assert_eq!(
        result.unwrap_err(),
        Error::TooSmallData { expect: PAGE_HEADER_SIZE, got: PAGE_HEADER_SIZE - 1 }
    );
}

#[test]
fn lib_test_meta_try_from() {
    let mut data = [0u8; 80];
    data[16..20].copy_from_slice(&MAGIC_NUMBER.to_le_bytes());
    data[20..24].copy_from_slice(&DATAFILE_VERSION.to_le_bytes());
    data[24..28].copy_from_slice(&1u32.to_le_bytes());
    data[32..40].copy_from_slice(&1u64.to_le_bytes());
    data[40..48].copy_from_slice(&1u64.to_le_bytes());
    data[48..56].copy_from_slice(&1u64.to_le_bytes());
    data[56..64].copy_from_slice(&1u64.to_le_bytes());
    data[64..72].copy_from_slice(&1u64.to_le_bytes());

    let checksum = checksum_of(&data);
    data[72..80].copy_from_slice(&checksum.to_le_bytes());

    let meta = Meta::try_from(&data as &[u8]).unwrap();
    assert_eq!(meta.magic, MAGIC_NUMBER);
    assert_eq!(meta.version, DATAFILE_VERSION);
    assert_eq!(meta.page_size, 1);
    assert_eq!(meta.root_pgid, Pgid(1));
    assert_eq!(meta.root_sequence, 1);
    assert_eq!(meta.freelist_pgid, Pgid(1));
    assert_eq!(meta.max_pgid, Pgid(1));
    assert_eq!(meta.txid, 1);
    assert_eq!(meta.checksum, checksum);
}

#[test]
fn lib_test_meta_try_from_too_small() {
    let data: [u8; 79] = [0; 79];
    let result = Meta::try_from(&data as &[u8]);
    assert!(result.is_err());
    assert_eq!(result.unwrap_err(), Error::TooSmallData { expect: 80, got: 79 });
}

#[test]
fn lib_test_branch_page_element_try_from() {
    let mut data = [0u8; BRANCH_ELEMENT_HEADER_SIZE];
    data[0..4].copy_from_slice(&1u32.to_le_bytes());
    data[4..8].copy_from_slice(&2u32.to_le_bytes());
    data[8..16].copy_from_slice(&1u64.to_le_bytes());

    let element = BranchElementHeader::try_from(&data as &[u8]).unwrap();
    assert_eq!(element.pos, 1);
    assert_eq!(element.ksize, 2);
    assert_eq!(element.pgid.0, 1);
}

#[test]
fn lib_test_branch_page_element_try_from_too_small() {
    let data: [u8; BRANCH_ELEMENT_HEADER_SIZE - 1] = [0; BRANCH_ELEMENT_HEADER_SIZE - 1];
    let result = BranchElementHeader::try_from(&data as &[u8]);
    assert!(result.is_err());
    assert_eq!(
        result.unwrap_err(),
        Error::TooSmallData {
            expect: BRANCH_ELEMENT_HEADER_SIZE,
            got: BRANCH_ELEMENT_HEADER_SIZE - 1
        }
    );
}

#[test]
fn lib_test_leaf_page_element_try_from() {
    let mut data = [0u8; LEAF_ELEMENT_HEADER_SIZE];
    data[0..4].copy_from_slice(&1u32.to_le_bytes());
    data[4..8].copy_from_slice(&2u32.to_le_bytes());
    data[8..12].copy_from_slice(&3u32.to_le_bytes());
    data[12..16].copy_from_slice(&4u32.to_le_bytes());

    let element = LeafElementHeader::try_from(&data as &[u8]).unwrap();
    assert_eq!(element.flags, 1);
    assert_eq!(element.pos, 2);
    assert_eq!(element.ksize, 3);
    assert_eq!(element.vsize, 4);
}

#[test]
fn lib_test_leaf_page_element_try_from_too_small() {
    let data: [u8; LEAF_ELEMENT_HEADER_SIZE - 1] = [0; LEAF_ELEMENT_HEADER_SIZE - 1];
    let result = LeafElementHeader::try_from(&data as &[u8]);
    assert!(result.is_err());
    assert_eq!(
        result.unwrap_err(),
        Error::TooSmallData { expect: LEAF_ELEMENT_HEADER_SIZE, got: LEAF_ELEMENT_HEADER_SIZE - 1 }
    );
}

#[test]
fn lib_test_bucket_try_from() {
    let mut data = [0u8; BUCKET_HEADER_SIZE];
    data[0..8].copy_from_slice(&1u64.to_le_bytes());
    data[8..16].copy_from_slice(&2u64.to_le_bytes());

    let bucket = BucketHeader::try_from(&data as &[u8]).unwrap();
    assert_eq!(bucket.root.0, 1);
    assert_eq!(bucket.sequence, 2);
}

#[test]
fn lib_test_bucket_try_from_too_small() {
    let data: [u8; BUCKET_HEADER_SIZE - 1] = [0; BUCKET_HEADER_SIZE - 1];
    let result = BucketHeader::try_from(&data as &[u8]);
    assert!(result.is_err());
    assert_eq!(
        result.unwrap_err(),
        Error::TooSmallData { expect: BUCKET_HEADER_SIZE, got: BUCKET_HEADER_SIZE - 1 }
    );
}

#[test]
fn test_pgid() {
    let pgid: Pgid = 1u64.into();
    assert_eq!(pgid.0, 1);
    let id: u64 = pgid.into();
    assert_eq!(id, 1);
    assert_eq!(pgid.to_string(), "1");
}

#[test]
fn test_page_flag() {
    let flag = PageFlag(0x01);
    assert_eq!(flag.as_u16(), 1);
    assert!(flag.is_branch_page());
    assert!(!flag.is_leaf_page());
    assert!(!flag.is_meta_page());
    assert!(!flag.is_freelist_page());
    assert_eq!(flag.to_string(), "PageFlag(BranchPageFlag)");
}

#[test]
fn test_leaf_element_header_is_bucket() {
    let mut header = LeafElementHeader { flags: 1, pos: 0, ksize: 0, vsize: 0 };
    assert!(header.is_bucket());
    header.flags = 0;
    assert!(!header.is_bucket());
}

#[test]
fn test_bucket_header_is_inline() {
    let mut header = BucketHeader { root: Pgid(0), sequence: 0 };
    assert!(header.is_inline());
    header.root = Pgid(1);
    assert!(!header.is_inline());
}

#[test]
fn test_pgid_to_string_digits() {
    assert_eq!(Pgid(0).to_string(), "0");
    assert_eq!(Pgid(10).to_string(), "10");
    assert_eq!(Pgid(90210).to_string(), "90210");
    assert_eq!(Pgid(u64::MAX).to_string(), "18446744073709551615");
}

#[test]
fn test_meta_checksum_rejected() {
    let mut data = [0u8; 80];
    data[16..20].copy_from_slice(&MAGIC_NUMBER.to_le_bytes());
    data[20..24].copy_from_slice(&DATAFILE_VERSION.to_le_bytes());
    data[24..28].copy_from_slice(&4096u32.to_le_bytes());
    // A zeroed checksum is almost surely wrong for this window.
    let expect = checksum_of(&data);
    let result = Meta::try_from(&data as &[u8]);
    assert_eq!(
        result.unwrap_err(),
        Error::InvalidPageChecksum { expect, got: 0, id: 0 }
    );
}

#[test]
fn test_meta_magic_rejected() {
    let mut data = [0u8; 80];
    data[16..20].copy_from_slice(&0xDEADBEEFu32.to_le_bytes());
    let result = Meta::try_from(&data as &[u8]);
    assert_eq!(
        result.unwrap_err(),
        Error::InvalidPageMagic { expect: MAGIC_NUMBER, got: 0xDEADBEEF, id: 0 }
    );
}

#[test]
fn test_meta_version_rejected() {
    let mut data = [0u8; 80];
    data[16..20].copy_from_slice(&MAGIC_NUMBER.to_le_bytes());
    data[20..24].copy_from_slice(&3u32.to_le_bytes());
    let result = Meta::try_from(&data as &[u8]);
    assert_eq!(
        result.unwrap_err(),
        Error::InvalidPageVersion { expect: DATAFILE_VERSION, got: 3, id: 0 }
    );
}
