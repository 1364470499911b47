//! Tests of the database handle on synthetic file images: page-size
//! discovery, meta resolution, the three iterators, and point lookup.

use ancla::bolt::{DATAFILE_VERSION, MAGIC_NUMBER};
use ancla::db::{AnclaOptions, DbItem, PageType, DB};
use ancla::pages::Page;
use fnv_rs::{Fnv64, FnvHasher};

const PS: usize = 256;

fn no_options() -> AnclaOptions {
    AnclaOptions::new(String::new(), None)
}

fn meta_page(ps: usize, id: u64, page_size: u32, root: u64, freelist: u64, max: u64, txid: u64) -> Vec<u8> {
    let mut p = vec![0u8; ps];
    p[0..8].copy_from_slice(&id.to_le_bytes());
    p[8..10].copy_from_slice(&4u16.to_le_bytes());
    p[16..20].copy_from_slice(&MAGIC_NUMBER.to_le_bytes());
    p[20..24].copy_from_slice(&DATAFILE_VERSION.to_le_bytes());
    p[24..28].copy_from_slice(&page_size.to_le_bytes());
    p[32..40].copy_from_slice(&root.to_le_bytes());
    p[48..56].copy_from_slice(&freelist.to_le_bytes());
    p[56..64].copy_from_slice(&max.to_le_bytes());
    p[64..72].copy_from_slice(&txid.to_le_bytes());
    let checksum = u64::from_be_bytes(Fnv64::hash(&p[16..72]).as_bytes().try_into().unwrap());
    p[72..80].copy_from_slice(&checksum.to_le_bytes());
    p
}

/// A leaf element for the builder: flags, key, value.
struct Elem(u32, Vec<u8>, Vec<u8>);

fn leaf_page(ps: usize, id: u64, elems: &[Elem]) -> Vec<u8> {
    let mut p = vec![0u8; ps];
    p[0..8].copy_from_slice(&id.to_le_bytes());
    p[8..10].copy_from_slice(&2u16.to_le_bytes());
    p[10..12].copy_from_slice(&(elems.len() as u16).to_le_bytes());
    let mut cursor = 16 + 16 * elems.len();
    for (i, Elem(flags, key, value)) in elems.iter().enumerate() {
        let base = 16 + 16 * i;
        let pos = (cursor - base) as u32;
        p[base..base + 4].copy_from_slice(&flags.to_le_bytes());
        p[base + 4..base + 8].copy_from_slice(&pos.to_le_bytes());
        p[base + 8..base + 12].copy_from_slice(&(key.len() as u32).to_le_bytes());
        p[base + 12..base + 16].copy_from_slice(&(value.len() as u32).to_le_bytes());
        p[cursor..cursor + key.len()].copy_from_slice(key);
        cursor += key.len();
        p[cursor..cursor + value.len()].copy_from_slice(value);
        cursor += value.len();
    }
    p
}

fn branch_page(ps: usize, id: u64, elems: &[(Vec<u8>, u64)]) -> Vec<u8> {
    let mut p = vec![0u8; ps];
    p[0..8].copy_from_slice(&id.to_le_bytes());
    p[8..10].copy_from_slice(&1u16.to_le_bytes());
    p[10..12].copy_from_slice(&(elems.len() as u16).to_le_bytes());
    let mut cursor = 16 + 16 * elems.len();
    for (i, (key, child)) in elems.iter().enumerate() {
        let base = 16 + 16 * i;
        let pos = (cursor - base) as u32;
        p[base..base + 4].copy_from_slice(&pos.to_le_bytes());
        p[base + 4..base + 8].copy_from_slice(&(key.len() as u32).to_le_bytes());
        p[base + 8..base + 16].copy_from_slice(&child.to_le_bytes());
        p[cursor..cursor + key.len()].copy_from_slice(key);
        cursor += key.len();
    }
    p
}

fn freelist_page(ps: usize, id: u64, ids: &[u64]) -> Vec<u8> {
    let mut p = vec![0u8; ps];
    p[0..8].copy_from_slice(&id.to_le_bytes());
    p[8..10].copy_from_slice(&0x10u16.to_le_bytes());
    p[10..12].copy_from_slice(&(ids.len() as u16).to_le_bytes());
    for (i, fid) in ids.iter().enumerate() {
        p[16 + 8 * i..24 + 8 * i].copy_from_slice(&fid.to_le_bytes());
    }
    p
}

/// The value bytes of a non-inline bucket element rooted at `root`.
fn bucket_value(root: u64) -> Vec<u8> {
    let mut v = vec![0u8; 16];
    v[0..8].copy_from_slice(&root.to_le_bytes());
    v
}

/// The value bytes of an inline bucket holding the given pairs.
fn inline_bucket_value(pairs: &[(Vec<u8>, Vec<u8>)]) -> Vec<u8> {
    let elems: Vec<Elem> =
        pairs.iter().map(|(k, v)| Elem(0, k.clone(), v.clone())).collect();
    let mut size = 16 + 16 * pairs.len();
    for (k, v) in pairs {
        size += k.len() + v.len();
    }
    let image = leaf_page(size, 0, &elems);
    let mut value = vec![0u8; 16];
    value.extend_from_slice(&image);
    value
}

/// A database with a leaf root: a nested bucket, two inline buckets
/// (one empty), and a plain pair.
fn leaf_root_fixture() -> Vec<u8> {
    let mut data = Vec::new();
    data.extend_from_slice(&meta_page(PS, 0, PS as u32, 3, 2, 6, 2));
    data.extend_from_slice(&meta_page(PS, 1, PS as u32, 3, 2, 6, 1));
    data.extend_from_slice(&freelist_page(PS, 2, &[5]));
    data.extend_from_slice(&leaf_page(
        PS,
        3,
        &[
            Elem(1, b"b0".to_vec(), bucket_value(4)),
            Elem(1, b"ib".to_vec(), inline_bucket_value(&[(b"ik".to_vec(), b"iv".to_vec())])),
            Elem(0, b"x".to_vec(), b"y".to_vec()),
            Elem(1, b"zz".to_vec(), inline_bucket_value(&[])),
        ],
    ));
    data.extend_from_slice(&leaf_page(PS, 4, &[Elem(0, b"k".to_vec(), b"v".to_vec())]));
    data.extend_from_slice(&vec![0u8; PS]); // page 5: free
    data
}

/// A database with a branch root over two leaves.
fn branch_root_fixture() -> Vec<u8> {
    let mut data = Vec::new();
    data.extend_from_slice(&meta_page(PS, 0, PS as u32, 3, 2, 6, 2));
    data.extend_from_slice(&meta_page(PS, 1, PS as u32, 3, 2, 6, 1));
    data.extend_from_slice(&freelist_page(PS, 2, &[]));
    data.extend_from_slice(&branch_page(PS, 3, &[(b"a".to_vec(), 4), (b"m".to_vec(), 5)]));
    data.extend_from_slice(&leaf_page(
        PS,
        4,
        &[Elem(0, b"a".to_vec(), b"1".to_vec()), Elem(0, b"c".to_vec(), b"2".to_vec())],
    ));
    data.extend_from_slice(&leaf_page(
        PS,
        5,
        &[Elem(0, b"m".to_vec(), b"3".to_vec()), Elem(0, b"z".to_vec(), b"4".to_vec())],
    ));
    data
}

#[test]
fn test_open_discovers_page_size() {
    let db = DB::open(leaf_root_fixture(), &no_options()).unwrap();
    let info = db.info();
    assert_eq!(info.page_size, PS as u32);
    assert_eq!(info.root_pgid.0, 3);
    assert_eq!(info.freelist_pgid.0, 2);
    assert_eq!(info.max_pgid.0, 6);
    assert_eq!(info.txid, 2);
    assert_eq!(info.meta_pgid.0, 0);
}

#[test]
fn test_open_corrupt_meta_zero_checksum() {
    // Page 0's checksum is zeroed; page 1 at 512 bytes is valid. The
    // database opens through discovery and reports meta page 1.
    let ps = 512usize;
    let mut data = Vec::new();
    let mut m0 = meta_page(ps, 0, ps as u32, 3, 2, 4, 2);
    m0[72..80].copy_from_slice(&0u64.to_le_bytes());
    data.extend_from_slice(&m0);
    data.extend_from_slice(&meta_page(ps, 1, ps as u32, 3, 2, 4, 1));
    data.extend_from_slice(&freelist_page(ps, 2, &[]));
    data.extend_from_slice(&leaf_page(ps, 3, &[]));

    let db = DB::open(data, &no_options()).unwrap();
    let info = db.info();
    assert_eq!(info.page_size, 512);
    assert_eq!(info.meta_pgid.0, 1);
}

#[test]
fn test_open_no_valid_meta() {
    let data = vec![0u8; 4096];
    assert!(DB::open(data, &no_options()).is_err());
}

#[test]
fn test_meta_tie_prefers_page_one() {
    // Both metas valid with equal txid: page 1 wins.
    let mut data = Vec::new();
    data.extend_from_slice(&meta_page(PS, 0, PS as u32, 3, 2, 6, 7));
    data.extend_from_slice(&meta_page(PS, 1, PS as u32, 3, 2, 6, 7));
    data.extend_from_slice(&freelist_page(PS, 2, &[]));
    data.extend_from_slice(&leaf_page(PS, 3, &[]));

    let db = DB::open(data, &no_options()).unwrap();
    assert_eq!(db.info().meta_pgid.0, 1);
}

#[test]
fn test_newer_txid_wins() {
    let mut data = Vec::new();
    data.extend_from_slice(&meta_page(PS, 0, PS as u32, 3, 2, 6, 9));
    data.extend_from_slice(&meta_page(PS, 1, PS as u32, 3, 2, 6, 8));
    data.extend_from_slice(&freelist_page(PS, 2, &[]));
    data.extend_from_slice(&leaf_page(PS, 3, &[]));

    let db = DB::open(data, &no_options()).unwrap();
    assert_eq!(db.info().meta_pgid.0, 0);
}

#[test]
fn test_explicit_page_size_option() {
    let db = DB::open(
        leaf_root_fixture(),
        &AnclaOptions::new(String::new(), Some(PS as u32)),
    )
    .unwrap();
    assert_eq!(db.info().page_size, PS as u32);
}

#[test]
fn test_iter_items_preorder_and_depths() {
    let db = DB::open(leaf_root_fixture(), &no_options()).unwrap();
    let mut iter = db.iter_items();
    let mut items = Vec::new();
    while let Some(item) = iter.next() {
        items.push(item.unwrap());
    }
    assert_eq!(items.len(), 6);
    match &items[0] {
        DbItem::Bucket(b) => {
            assert_eq!(b.name, b"b0");
            assert_eq!(b.page_id, 4);
            assert!(!b.is_inline);
            assert_eq!(b.depth, 0);
            assert_eq!(b.parent_bucket, b"");
        }
        _ => panic!("expected bucket first"),
    }
    match &items[1] {
        DbItem::KeyValue(kv) => {
            assert_eq!(kv.key, b"k");
            assert_eq!(kv.value, b"v");
            assert_eq!(kv.depth, 1);
        }
        _ => panic!("expected the bucket's pair right after it"),
    }
    match &items[2] {
        DbItem::InlineBucket(b) => {
            assert_eq!(b.name, b"ib");
            assert_eq!(b.page_id, 0);
            assert!(b.is_inline);
            assert_eq!(b.depth, 0);
        }
        _ => panic!("expected the inline bucket"),
    }
    match &items[3] {
        DbItem::KeyValue(kv) => {
            assert_eq!(kv.key, b"ik");
            assert_eq!(kv.value, b"iv");
            assert_eq!(kv.depth, 1);
        }
        _ => panic!("expected the inline bucket's pair"),
    }
    match &items[4] {
        DbItem::KeyValue(kv) => {
            assert_eq!(kv.key, b"x");
            assert_eq!(kv.value, b"y");
            assert_eq!(kv.depth, 0);
        }
        _ => panic!("expected the root pair"),
    }
    match &items[5] {
        DbItem::InlineBucket(b) => {
            assert_eq!(b.name, b"zz");
            assert!(b.is_inline);
            assert_eq!(b.depth, 0);
        }
        _ => panic!("expected the empty inline bucket last"),
    }
}

#[test]
fn test_empty_inline_bucket_emits_nothing_more() {
    let db = DB::open(leaf_root_fixture(), &no_options()).unwrap();
    let mut iter = db.iter_items();
    let mut saw_empty = false;
    while let Some(item) = iter.next() {
        if saw_empty {
            panic!("the empty inline bucket must be the last item");
        }
        if let DbItem::InlineBucket(b) = item.unwrap() {
            if b.name == b"zz" {
                saw_empty = true;
            }
        }
    }
    assert!(saw_empty);
}

#[test]
fn test_iter_buckets_filters_pairs() {
    let db = DB::open(leaf_root_fixture(), &no_options()).unwrap();
    let mut iter = db.iter_buckets();
    let mut names = Vec::new();
    while let Some(b) = iter.next() {
        names.push(b.unwrap().name);
    }
    assert_eq!(names, vec![b"b0".to_vec(), b"ib".to_vec(), b"zz".to_vec()]);
}

#[test]
fn test_iter_items_branch_order() {
    let db = DB::open(branch_root_fixture(), &no_options()).unwrap();
    let mut iter = db.iter_items();
    let mut keys = Vec::new();
    while let Some(item) = iter.next() {
        match item.unwrap() {
            DbItem::KeyValue(kv) => {
                assert_eq!(kv.depth, 0);
                keys.push(kv.key);
            }
            _ => panic!("this tree holds pairs only"),
        }
    }
    assert_eq!(keys, vec![b"a".to_vec(), b"c".to_vec(), b"m".to_vec(), b"z".to_vec()]);
}

#[test]
fn test_iter_pages_reachable_set() {
    let db = DB::open(leaf_root_fixture(), &no_options()).unwrap();
    let mut iter = db.iter_pages();
    let mut pages = Vec::new();
    while let Some(p) = iter.next() {
        pages.push(p.unwrap());
    }
    assert_eq!(pages.len(), 6);

    assert_eq!(pages[0].id, 0);
    assert_eq!(pages[0].typ, PageType::Meta);
    assert_eq!(pages[0].used, 80);
    assert_eq!(pages[0].capacity, PS as u64);
    assert_eq!(pages[1].id, 1);
    assert_eq!(pages[1].typ, PageType::Meta);
    assert_eq!(pages[2].id, 2);
    assert_eq!(pages[2].typ, PageType::Freelist);
    assert_eq!(pages[2].used, 24);
    assert_eq!(pages[3].id, 3);
    assert_eq!(pages[3].typ, PageType::DataLeaf);
    assert_eq!(pages[3].parent_page_id, None);
    assert_eq!(pages[4].id, 5);
    assert_eq!(pages[4].typ, PageType::Free);
    assert_eq!(pages[4].used, 0);
    assert_eq!(pages[4].capacity, PS as u64);
    assert_eq!(pages[5].id, 4);
    assert_eq!(pages[5].typ, PageType::DataLeaf);
    assert_eq!(pages[5].parent_page_id, Some(3));

    // Every page reachable from the active meta appears exactly once.
    let mut ids: Vec<u64> = pages.iter().map(|p| p.id).collect();
    ids.sort();
    assert_eq!(ids, vec![0, 1, 2, 3, 4, 5]);
}

#[test]
fn test_get_key_value_nested_bucket_hit() {
    let db = DB::open(leaf_root_fixture(), &no_options()).unwrap();
    let kv = db.get_key_value(&vec![b"b0".to_vec()], &b"k".to_vec()).unwrap();
    assert_eq!(kv.key, b"k");
    assert_eq!(kv.value, b"v");
    assert_eq!(kv.depth, 0);
}

#[test]
fn test_get_key_value_inline_bucket_hit() {
    let db = DB::open(leaf_root_fixture(), &no_options()).unwrap();
    let kv = db.get_key_value(&vec![b"ib".to_vec()], &b"ik".to_vec()).unwrap();
    assert_eq!(kv.value, b"iv");
}

#[test]
fn test_get_key_value_root_hit() {
    let db = DB::open(leaf_root_fixture(), &no_options()).unwrap();
    let kv = db.get_key_value(&Vec::new(), &b"x".to_vec()).unwrap();
    assert_eq!(kv.value, b"y");
}

#[test]
fn test_get_key_value_nonexistent_bucket_miss() {
    let db = DB::open(leaf_root_fixture(), &no_options()).unwrap();
    let r = db.get_key_value(&vec![b"nonexistent".to_vec()], &b"x".to_vec());
    assert!(r.is_none());
}

#[test]
fn test_get_key_value_branch_descent() {
    let db = DB::open(branch_root_fixture(), &no_options()).unwrap();
    assert_eq!(db.get_key_value(&Vec::new(), &b"a".to_vec()).unwrap().value, b"1");
    assert_eq!(db.get_key_value(&Vec::new(), &b"c".to_vec()).unwrap().value, b"2");
    assert_eq!(db.get_key_value(&Vec::new(), &b"m".to_vec()).unwrap().value, b"3");
    assert_eq!(db.get_key_value(&Vec::new(), &b"z".to_vec()).unwrap().value, b"4");
    assert!(db.get_key_value(&Vec::new(), &b"q".to_vec()).is_none());
    assert!(db.get_key_value(&Vec::new(), &b"0".to_vec()).is_none());
}

#[test]
fn test_freelist_sentinel_database() {
    // A freelist whose header count is the 0xFFFF sentinel: the true
    // count sits in the first u64 after the header.
    let mut fl = vec![0u8; PS];
    fl[0..8].copy_from_slice(&2u64.to_le_bytes());
    fl[8..10].copy_from_slice(&0x10u16.to_le_bytes());
    fl[10..12].copy_from_slice(&0xFFFFu16.to_le_bytes());
    fl[16..24].copy_from_slice(&1u64.to_le_bytes());
    fl[24..32].copy_from_slice(&4u64.to_le_bytes());

    let mut data = Vec::new();
    data.extend_from_slice(&meta_page(PS, 0, PS as u32, 3, 2, 5, 2));
    data.extend_from_slice(&meta_page(PS, 1, PS as u32, 3, 2, 5, 1));
    data.extend_from_slice(&fl);
    data.extend_from_slice(&leaf_page(PS, 3, &[]));
    data.extend_from_slice(&vec![0u8; PS]); // page 4: free

    let db = DB::open(data, &no_options()).unwrap();
    let mut iter = db.iter_pages();
    let mut pages = Vec::new();
    while let Some(p) = iter.next() {
        pages.push(p.unwrap());
    }
    assert_eq!(pages[2].typ, PageType::Freelist);
    assert_eq!(pages[2].used, 16 + 8 + 8);
    let frees: Vec<u64> =
        pages.iter().filter(|p| p.typ == PageType::Free).map(|p| p.id).collect();
    assert_eq!(frees, vec![4]);
}

#[test]
fn test_read_page_classifies() {
    let db = DB::open(leaf_root_fixture(), &no_options()).unwrap();
    match db.read_page(0).unwrap() {
        Page::MetaPage(_) => {}
        _ => panic!("page 0 is a meta page"),
    }
    match db.read_page(2).unwrap() {
        Page::FreelistPage(_) => {}
        _ => panic!("page 2 is the freelist"),
    }
    match db.read_page(3).unwrap() {
        Page::LeafPage(_) => {}
        _ => panic!("page 3 is the root leaf"),
    }
    assert!(db.read_page(100).is_err());
}

#[test]
fn test_item_iterator_rejects_non_data_root() {
    // A meta record whose root points at the other meta page: the item
    // walk surfaces a typed error instead of walking it.
    let mut data = Vec::new();
    data.extend_from_slice(&meta_page(PS, 0, PS as u32, 1, 2, 3, 2));
    data.extend_from_slice(&meta_page(PS, 1, PS as u32, 1, 2, 3, 1));
    data.extend_from_slice(&freelist_page(PS, 2, &[]));

    let db = DB::open(data, &no_options()).unwrap();
    let mut iter = db.iter_items();
    match iter.next() {
        Some(Err(ancla::errors::DatabaseError::InvalidPageType { expect, got, id })) => {
            assert_eq!(expect, 0x03);
            assert_eq!(got, 0x04);
            assert_eq!(id, 1);
        }
        other => panic!("expected an invalid-page-type error, got {other:?}"),
    }
}

#[test]
fn test_kv_extraction_rejects_bucket_element() {
    let data = vec![0u8; 64];
    let header = ancla::bolt::LeafElementHeader { flags: 1, pos: 16, ksize: 2, vsize: 16 };
    let result = ancla::pages::KeyValue::from_page(&data, &header, 0);
    assert_eq!(result.unwrap_err(), ancla::errors::Error::UnexpectBucketLeaf);
}

#[test]
fn test_discovery_fails_off_grid() {
    // A valid second meta at 256 bytes is never probed: candidates
    // start at 512. Discovery fails and the file does not open.
    let mut data = Vec::new();
    let mut m0 = meta_page(PS, 0, PS as u32, 3, 2, 4, 2);
    m0[72..80].copy_from_slice(&0u64.to_le_bytes());
    data.extend_from_slice(&m0);
    data.extend_from_slice(&meta_page(PS, 1, PS as u32, 3, 2, 4, 1));
    data.extend_from_slice(&freelist_page(PS, 2, &[]));
    data.extend_from_slice(&leaf_page(PS, 3, &[]));

    let r = DB::open(data, &no_options());
    assert_eq!(r.err().unwrap(), ancla::errors::DatabaseError::InvalidMeta);
}

#[test]
fn test_iter_pages_branch_parents() {
    let db = DB::open(branch_root_fixture(), &no_options()).unwrap();
    let mut iter = db.iter_pages();
    let mut pages = Vec::new();
    while let Some(p) = iter.next() {
        pages.push(p.unwrap());
    }
    assert_eq!(pages.len(), 6);
    let root = pages.iter().find(|p| p.id == 3).unwrap();
    assert_eq!(root.typ, PageType::DataBranch);
    assert_eq!(root.parent_page_id, None);
    for child in [4u64, 5u64] {
        let p = pages.iter().find(|p| p.id == child).unwrap();
        assert_eq!(p.typ, PageType::DataLeaf);
        assert_eq!(p.parent_page_id, Some(3));
    }
}
