//! Tests of the tabular query layer's verified core.

use ancla::bolt::{DATAFILE_VERSION, MAGIC_NUMBER};
use ancla::db::{AnclaOptions, Bucket, PageInfo, PageType, DB};
use ancla::query::{
    build_bucket_rows, build_page_columns, bucket_tree, next_pages_batch, page_type_name,
    u64_decimal_bytes, unreachable_pages, PageColumn,
};
use fnv_rs::{Fnv64, FnvHasher};

fn sample_pages() -> Vec<PageInfo> {
    vec![
        PageInfo {
            id: 0,
            typ: PageType::Meta,
            overflow: 0,
            capacity: 4096,
            used: 80,
            parent_page_id: None,
        },
        PageInfo {
            id: 3,
            typ: PageType::DataLeaf,
            overflow: 1,
            capacity: 8192,
            used: 300,
            parent_page_id: Some(2),
        },
    ]
}

#[test]
fn test_page_type_name_rendering() {
    assert_eq!(page_type_name(PageType::Meta), "Meta");
    assert_eq!(page_type_name(PageType::DataLeaf), "DataLeaf");
    assert_eq!(page_type_name(PageType::DataBranch), "DataBranch");
    assert_eq!(page_type_name(PageType::Freelist), "Freelist");
    assert_eq!(page_type_name(PageType::Free), "Free");
}

#[test]
fn test_build_page_columns_projection() {
    let pages = sample_pages();
    let cols = build_page_columns(&pages, &vec![0, 5, 1]).unwrap();
    assert_eq!(cols.len(), 3);
    match &cols[0] {
        PageColumn::Id(v) => assert_eq!(v, &vec![0, 3]),
        _ => panic!("first projected column is id"),
    }
    match &cols[1] {
        PageColumn::Parent(v) => assert_eq!(v, &vec![None, Some(2)]),
        _ => panic!("second projected column is parent_page_id"),
    }
    match &cols[2] {
        PageColumn::Typ(v) => assert_eq!(v, &vec!["Meta".to_string(), "DataLeaf".to_string()]),
        _ => panic!("third projected column is the type name"),
    }
}

#[test]
fn test_build_page_columns_unknown_column() {
    let pages = sample_pages();
    assert!(build_page_columns(&pages, &vec![0, 6]).is_err());
}

#[test]
fn test_build_page_columns_all() {
    let pages = sample_pages();
    let cols = build_page_columns(&pages, &vec![2, 3, 4]).unwrap();
    match &cols[0] {
        PageColumn::Overflow(v) => assert_eq!(v, &vec![0, 1]),
        _ => panic!("overflow column"),
    }
    match &cols[1] {
        PageColumn::Capacity(v) => assert_eq!(v, &vec![4096, 8192]),
        _ => panic!("capacity column"),
    }
    match &cols[2] {
        PageColumn::Used(v) => assert_eq!(v, &vec![80, 300]),
        _ => panic!("used column"),
    }
}

#[test]
fn test_u64_decimal_bytes() {
    assert_eq!(u64_decimal_bytes(0), b"0");
    assert_eq!(u64_decimal_bytes(36), b"36");
    assert_eq!(u64_decimal_bytes(1024), b"1024");
}

#[test]
fn test_build_bucket_rows_ids() {
    let buckets = vec![
        Bucket {
            parent_bucket: Vec::new(),
            page_id: 36,
            is_inline: false,
            name: b"bbb05".to_vec(),
            depth: 0,
        },
        Bucket {
            parent_bucket: b"bbb05".to_vec(),
            page_id: 0,
            is_inline: true,
            name: b"inner".to_vec(),
            depth: 1,
        },
    ];
    let rows = build_bucket_rows(&buckets);
    assert_eq!(rows.len(), 2);
    assert_eq!(rows[0].id, b"bbb05/36");
    assert_eq!(rows[0].name, b"bbb05");
    assert_eq!(rows[0].page_id, 36);
    assert!(!rows[0].is_inline);
    assert_eq!(rows[0].depth, 0);
    assert_eq!(rows[0].parent_name, None);
    assert_eq!(rows[1].id, b"inner/0");
    assert_eq!(rows[1].parent_name, Some(b"bbb05".to_vec()));
}

#[test]
fn test_unreachable_pages_report() {
    let pages = vec![
        PageInfo {
            id: 0,
            typ: PageType::Meta,
            overflow: 0,
            capacity: 4096,
            used: 80,
            parent_page_id: None,
        },
        PageInfo {
            id: 1,
            typ: PageType::Meta,
            overflow: 0,
            capacity: 4096,
            used: 80,
            parent_page_id: None,
        },
        PageInfo {
            id: 3,
            typ: PageType::DataLeaf,
            overflow: 0,
            capacity: 4096,
            used: 40,
            parent_page_id: None,
        },
    ];
    assert_eq!(unreachable_pages(&pages, 6), vec![2, 4, 5]);
    assert_eq!(unreachable_pages(&pages, 0), Vec::<u64>::new());
}

const PS: usize = 256;

fn meta_page(id: u64, root: u64, freelist: u64, max: u64, txid: u64) -> Vec<u8> {
    let mut p = vec![0u8; PS];
    p[0..8].copy_from_slice(&id.to_le_bytes());
    p[8..10].copy_from_slice(&4u16.to_le_bytes());
    p[16..20].copy_from_slice(&MAGIC_NUMBER.to_le_bytes());
    p[20..24].copy_from_slice(&DATAFILE_VERSION.to_le_bytes());
    p[24..28].copy_from_slice(&(PS as u32).to_le_bytes());
    p[32..40].copy_from_slice(&root.to_le_bytes());
    p[48..56].copy_from_slice(&freelist.to_le_bytes());
    p[56..64].copy_from_slice(&max.to_le_bytes());
    p[64..72].copy_from_slice(&txid.to_le_bytes());
    let checksum = u64::from_be_bytes(Fnv64::hash(&p[16..72]).as_bytes().try_into().unwrap());
    p[72..80].copy_from_slice(&checksum.to_le_bytes());
    p
}

fn tiny_db() -> DB {
    let mut leaf = vec![0u8; PS];
    leaf[0..8].copy_from_slice(&3u64.to_le_bytes());
    leaf[8..10].copy_from_slice(&2u16.to_le_bytes());
    let mut fl = vec![0u8; PS];
    fl[0..8].copy_from_slice(&2u64.to_le_bytes());
    fl[8..10].copy_from_slice(&0x10u16.to_le_bytes());

    let mut data = Vec::new();
    data.extend_from_slice(&meta_page(0, 3, 2, 4, 2));
    data.extend_from_slice(&meta_page(1, 3, 2, 4, 1));
    data.extend_from_slice(&fl);
    data.extend_from_slice(&leaf);
    DB::open(data, &AnclaOptions::new(String::new(), None)).unwrap()
}

#[test]
fn test_next_pages_batch_streams_all() {
    let db = tiny_db();
    let mut iter = db.iter_pages();
    let mut processed = 0usize;
    let batch = next_pages_batch(&mut iter, &mut processed, None).unwrap().unwrap();
    assert_eq!(batch.len(), 4);
    assert_eq!(processed, 4);
    assert!(next_pages_batch(&mut iter, &mut processed, None).is_none());
}

#[test]
fn test_next_pages_batch_respects_limit() {
    let db = tiny_db();
    let mut iter = db.iter_pages();
    let mut processed = 0usize;
    let batch = next_pages_batch(&mut iter, &mut processed, Some(3)).unwrap().unwrap();
    assert_eq!(batch.len(), 3);
    assert_eq!(processed, 3);
    assert!(next_pages_batch(&mut iter, &mut processed, Some(3)).is_none());
}

fn named_bucket(name: &[u8], depth: u64) -> Bucket {
    Bucket {
        parent_bucket: Vec::new(),
        page_id: 0,
        is_inline: true,
        name: name.to_vec(),
        depth,
    }
}

#[test]
fn test_bucket_tree_grouping() {
    // Pre-order: a (a/x (a/x/1), a/y), b — grouped by depth.
    let buckets = vec![
        named_bucket(b"a", 0),
        named_bucket(b"a.x", 1),
        named_bucket(b"a.x.1", 2),
        named_bucket(b"a.y", 1),
        named_bucket(b"b", 0),
    ];
    let (forest, grouped) = bucket_tree(&buckets);
    assert_eq!(grouped, 5);
    assert_eq!(forest.len(), 2);
    assert_eq!(forest[0].bucket.name, b"a");
    assert_eq!(forest[0].children.len(), 2);
    assert_eq!(forest[0].children[0].bucket.name, b"a.x");
    assert_eq!(forest[0].children[0].children.len(), 1);
    assert_eq!(forest[0].children[0].children[0].bucket.name, b"a.x.1");
    assert_eq!(forest[0].children[1].bucket.name, b"a.y");
    assert_eq!(forest[1].bucket.name, b"b");
    assert!(forest[1].children.is_empty());
}

#[test]
fn test_bucket_tree_stops_off_root() {
    // A stream that does not start at depth 0 groups nothing.
    let buckets = vec![named_bucket(b"deep", 3)];
    let (forest, grouped) = bucket_tree(&buckets);
    assert!(forest.is_empty());
    assert_eq!(grouped, 0);
}
