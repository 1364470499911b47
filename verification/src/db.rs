//! The database handle over an in-memory file image: page-size
//! discovery, resolution of the two redundant meta records, random
//! access to classified pages, the three tree iterators, and point
//! lookup.

use vstd::prelude::*;
use vstd::slice::{slice_subrange, slice_to_vec};
use crate::bolt::{spec_meta_validate, spec_page_header, Meta, PageHeader, Pgid, PAGE_HEADER_SIZE};
use crate::errors::{spec_db_error, DatabaseError, Error};
use crate::pages::{spec_page_new, Page, PageKind};

verus! {

/// How the library is opened: the path the caller read the image from,
/// and an optional page size that bypasses discovery.
#[derive(Debug, Clone, PartialEq, Eq)]
pub struct AnclaOptions {
    pub db_path: String,
    pub page_size: Option<u32>,
}

impl AnclaOptions {
    pub fn new(db_path: String, page_size: Option<u32>) -> (r: AnclaOptions)
        ensures
            r.db_path == db_path,
            r.page_size == page_size,
    {
        AnclaOptions { db_path, page_size }
    }
}

/// The classification a page gets in the page iterator's output.
#[derive(Debug, Clone, Copy, Eq, PartialEq, PartialOrd, Ord, Hash, Structural)]
pub enum PageType {
    Meta,
    DataLeaf,
    DataBranch,
    Freelist,
    Free,
}

/// One page of the reachable set: its id, classification, and space
/// accounting.
#[derive(Debug, Clone, Copy, Eq, PartialEq, PartialOrd, Ord)]
pub struct PageInfo {
    pub id: u64,
    pub typ: PageType,
    pub overflow: u64,
    pub capacity: u64,
    pub used: u64,
    pub parent_page_id: Option<u64>,
}

/// The fields of the active meta record, as `info` reports them.
#[derive(Debug, Clone, Copy, PartialEq, Eq, Structural)]
pub struct Info {
    pub page_size: u32,
    pub max_pgid: Pgid,
    pub root_pgid: Pgid,
    pub freelist_pgid: Pgid,
    pub txid: u64,
    pub meta_pgid: Pgid,
}

/// The meta record stored in the 80-byte window of page `id`, when the
/// window lies within the file and validates.
pub open spec fn spec_load_meta(s: Seq<u8>, ps: int, id: int) -> Option<Meta> {
    if id * ps + 80 <= s.len() {
        match spec_meta_validate(s.subrange(id * ps, id * ps + 80)) {
            Ok(m) => Some(m),
            Err(_) => None,
        }
    } else {
        None
    }
}

/// The authoritative record among the two meta slots, with its page id:
/// the greater `txid` wins, and a tie goes to page 1.
pub open spec fn spec_active_meta(m0: Option<Meta>, m1: Option<Meta>) -> (Meta, u64)
    recommends
        m0 is Some || m1 is Some,
{
    match (m0, m1) {
        (Some(a), Some(b)) => if a.txid > b.txid {
            (a, 0)
        } else {
            (b, 1)
        },
        (Some(a), None) => (a, 0),
        (None, Some(b)) => (b, 1),
        (None, None) => (vstd::pervasive::arbitrary(), 0),
    }
}

/// The authoritative meta of a file image read with page size `ps`.
pub open spec fn spec_active_of(s: Seq<u8>, ps: int) -> (Meta, u64) {
    spec_active_meta(spec_load_meta(s, ps, 0), spec_load_meta(s, ps, 1))
}

/// The page size stored in a valid meta at the start of the file, if
/// any.
pub open spec fn spec_meta0_page_size(s: Seq<u8>) -> Option<u32> {
    if 80 <= s.len() {
        match spec_meta_validate(s.subrange(0, 80)) {
            Ok(m) => Some(m.page_size),
            Err(_) => None,
        }
    } else {
        None
    }
}

/// Probing for the second meta slot at power-of-two candidates from
/// `2^i` up to 1 MiB: the first candidate whose window validates and
/// stores the candidate itself as its page size.
pub open spec fn spec_probe_from(s: Seq<u8>, i: u64) -> Option<u32>
    decreases 21 - i,
{
    if i > 20 {
        None
    } else {
        let cand = 1u64 << i;
        if cand + 80 <= s.len() && (match spec_meta_validate(
            s.subrange(cand as int, cand as int + 80),
        ) {
            Ok(m) => m.page_size as u64 == cand,
            Err(_) => false,
        }) {
            Some((1u64 << i) as u32)
        } else {
            spec_probe_from(s, (i + 1) as u64)
        }
    }
}

/// What page-size discovery converges on: the page size of a valid meta
/// at offset 0, else the first successful probe from 512 bytes up.
pub open spec fn spec_discover(s: Seq<u8>) -> Option<u32> {
    match spec_meta0_page_size(s) {
        Some(ps) => Some(ps),
        None => spec_probe_from(s, 9),
    }
}

/// The page size an `open` call works with: the caller's, else the
/// discovered one.
pub open spec fn spec_resolved_page_size(s: Seq<u8>, opt: Option<u32>) -> Option<u32> {
    match opt {
        Some(ps) => Some(ps),
        None => spec_discover(s),
    }
}

/// What `open` yields on a file image: the working page size, or the
/// first failure among discovery, a zero page size, and two invalid
/// meta slots.
pub open spec fn spec_open_result(s: Seq<u8>, opt: Option<u32>) -> Result<u32, DatabaseError> {
    match spec_resolved_page_size(s, opt) {
        None => Err(DatabaseError::InvalidMeta),
        Some(ps) => {
            if ps == 0 {
                Err(DatabaseError::InvalidData("page size cannot be zero"))
            } else if spec_load_meta(s, ps as int, 0) is None && spec_load_meta(
                s,
                ps as int,
                1,
            ) is None {
                Err(DatabaseError::InvalidMeta)
            } else {
                Ok(ps)
            }
        },
    }
}

/// The raw buffer of page `id`: `(overflow + 1) * page_size` bytes at
/// offset `id * page_size`. A short read is fatal.
pub open spec fn spec_page_buffer(s: Seq<u8>, ps: int, id: int) -> Result<Seq<u8>, DatabaseError> {
    let off = id * ps;
    if off + PAGE_HEADER_SIZE > s.len() {
        Err(DatabaseError::TooSmallData {
            expect: (off + PAGE_HEADER_SIZE) as usize,
            got: s.len() as usize,
        })
    } else {
        let h = spec_page_header(s.subrange(off, off + PAGE_HEADER_SIZE));
        let full = ps * (h.overflow + 1);
        if off + full > s.len() {
            Err(DatabaseError::TooSmallData { expect: (off + full) as usize, got: s.len() as usize })
        } else {
            Ok(s.subrange(off, off + full))
        }
    }
}

/// What reading and classifying page `id` yields.
pub open spec fn spec_read_page(s: Seq<u8>, ps: int, id: int) -> Result<PageKind, DatabaseError> {
    match spec_page_buffer(s, ps, id) {
        Err(e) => Err(e),
        Ok(buf) => match spec_page_new(buf, ps) {
            Err(e) => Err(spec_db_error(e)),
            Ok(k) => Ok(k),
        },
    }
}

/// A read-only database over an in-memory file image.
#[derive(Debug)]
pub struct DB {
    data: Vec<u8>,
    page_size: u32,
    meta0: Option<Meta>,
    meta1: Option<Meta>,
}

impl DB {
    /// Everything `open` established: a positive page size, both meta
    /// slots decoded from the image, and at least one of them valid.
    pub closed spec fn wf(self) -> bool {
        &&& self.page_size > 0
        &&& self.meta0 == spec_load_meta(self.data@, self.page_size as int, 0)
        &&& self.meta1 == spec_load_meta(self.data@, self.page_size as int, 1)
        &&& (self.meta0 is Some || self.meta1 is Some)
    }

    /// The file image.
    pub closed spec fn spec_data(self) -> Seq<u8> {
        self.data@
    }

    /// The page size the database is read with.
    pub closed spec fn spec_page_size(self) -> u32 {
        self.page_size
    }

    /// Decodes and validates the meta window of page `id`.
    fn load_meta(data: &[u8], page_size: u32, id: u64) -> (r: Option<Meta>)
        requires
            page_size > 0,
        ensures
            r == spec_load_meta(data@, page_size as int, id as int),
    {
        let n = data.len();
        proof {
            assert((id as u128) * (page_size as u128) <= 0xFFFF_FFFF_FFFF_FFFFu128
                * 0xFFFF_FFFFu128) by (nonlinear_arith)
                requires
                    id as u128 <= 0xFFFF_FFFF_FFFF_FFFFu128,
                    page_size as u128 <= 0xFFFF_FFFFu128,
            ;
        }
        let off128 = (id as u128) * (page_size as u128);
        if off128 + 80 > n as u128 {
            return None;
        }
        let off = off128 as usize;
        match Meta::try_from(slice_subrange(data, off, off + 80)) {
            Ok(m) => Some(m),
            Err(_) => None,
        }
    }

    /// Opens a database over a file image, discovering the page size
    /// when the caller gives none, and resolving the two meta slots.
    pub fn open(data: Vec<u8>, options: &AnclaOptions) -> (r: Result<DB, DatabaseError>)
        ensures
            match r {
                Ok(db) => db.wf() && db.spec_data() == data@ && spec_open_result(
                    data@,
                    options.page_size,
                ) == Ok::<u32, DatabaseError>(db.spec_page_size()),
                Err(e) => spec_open_result(data@, options.page_size) == Err::<u32, DatabaseError>(
                    e,
                ),
            },
    {
        let page_size: u32 = match options.page_size {
            Some(ps) => ps,
            None => {
                match Self::determine_page_size(data.as_slice()) {
                    Ok(ps) => ps,
                    Err(e) => {
                        return Err(e);
                    },
                }
            },
        };
        if page_size == 0 {
            return Err(DatabaseError::InvalidData("page size cannot be zero"));
        }
        let meta0 = Self::load_meta(data.as_slice(), page_size, 0);
        let meta1 = Self::load_meta(data.as_slice(), page_size, 1);
        if meta0.is_none() && meta1.is_none() {
            return Err(DatabaseError::InvalidMeta);
        }
        Ok(DB { data, page_size, meta0, meta1 })
    }

    /// Discovers the page size: a valid meta at offset 0 decides; else
    /// the file is probed at power-of-two offsets.
    pub fn determine_page_size(data: &[u8]) -> (r: Result<u32, DatabaseError>)
        ensures
            match r {
                Ok(ps) => spec_discover(data@) == Some(ps),
                Err(e) => spec_discover(data@) is None && e == DatabaseError::InvalidMeta,
            },
    {
        let n = data.len();
        if n >= 80 {
            match Meta::try_from(slice_subrange(data, 0, 80)) {
                Ok(m) => {
                    return Ok(m.page_size);
                },
                Err(_) => {},
            }
        }
        Self::search_for_meta_page(data)
    }

    /// Probes powers of two from 512 bytes to 1 MiB for a second meta
    /// slot whose stored page size equals the candidate.
    fn search_for_meta_page(data: &[u8]) -> (r: Result<u32, DatabaseError>)
        ensures
            match r {
                Ok(ps) => spec_probe_from(data@, 9) == Some(ps),
                Err(e) => spec_probe_from(data@, 9) is None && e == DatabaseError::InvalidMeta,
            },
    {
        let n = data.len();
        let mut i: u64 = 9;
        while i <= 20
            invariant
                9 <= i <= 21,
                n == data@.len(),
                spec_probe_from(data@, 9) == spec_probe_from(data@, i),
            decreases 21 - i,
        {
            let cand: u64 = 1u64 << i;
            proof {
                assert(1u64 << i <= 0x100000u64) by (bit_vector)
                    requires
                        i <= 20u64,
                ;
            }
            if cand + 80 <= n as u64 {
                let off = cand as usize;
                match Meta::try_from(slice_subrange(data, off, off + 80)) {
                    Ok(m) => {
                        if m.page_size as u64 == cand {
                            return Ok(m.page_size);
                        }
                    },
                    Err(_) => {},
                }
            }
            i = i + 1;
        }
        Err(DatabaseError::InvalidMeta)
    }

    /// The authoritative meta record and the page it came from.
    fn get_meta(&self) -> (r: (Meta, u64))
        requires
            self.wf(),
        ensures
            r == spec_active_of(self.spec_data(), self.spec_page_size() as int),
    {
        match (&self.meta0, &self.meta1) {
            (Some(a), Some(b)) => if a.txid > b.txid {
                (*a, 0)
            } else {
                (*b, 1)
            },
            (Some(a), None) => (*a, 0),
            (None, Some(b)) => (*b, 1),
            (None, None) => vstd::pervasive::unreached(),
        }
    }

    /// The active meta's fields: page size, extents, roots, transaction
    /// id, and which meta page won.
    pub fn info(&self) -> (r: Info)
        requires
            self.wf(),
        ensures
            ({
                let (m, pg) = spec_active_of(self.spec_data(), self.spec_page_size() as int);
                r == (Info {
                    page_size: m.page_size,
                    max_pgid: m.max_pgid,
                    root_pgid: m.root_pgid,
                    freelist_pgid: m.freelist_pgid,
                    txid: m.txid,
                    meta_pgid: Pgid(pg),
                })
            }),
    {
        let (meta, pgid) = self.get_meta();
        Info {
            page_size: meta.page_size,
            max_pgid: meta.max_pgid,
            root_pgid: meta.root_pgid,
            freelist_pgid: meta.freelist_pgid,
            txid: meta.txid,
            meta_pgid: Pgid(pgid),
        }
    }

    /// Reads and classifies page `id` from the image.
    pub fn read_page(&self, page_id: u64) -> (r: Result<Page, DatabaseError>)
        requires
            self.wf(),
        ensures
            match r {
                Ok(p) => p.wf() && p.spec_size() == self.spec_page_size() as int
                    && spec_page_buffer(self.spec_data(), self.spec_page_size() as int, page_id as int)
                    == Ok::<Seq<u8>, DatabaseError>(p.spec_data()) && spec_read_page(
                    self.spec_data(),
                    self.spec_page_size() as int,
                    page_id as int,
                ) == Ok::<PageKind, DatabaseError>(p.kind()),
                Err(e) => spec_read_page(
                    self.spec_data(),
                    self.spec_page_size() as int,
                    page_id as int,
                ) == Err::<PageKind, DatabaseError>(e),
            },
    {
        let data = self.data.as_slice();
        let n = data.len();
        let ps = self.page_size as u128;
        proof {
            assert((page_id as u128) * (self.page_size as u128) <= 0xFFFF_FFFF_FFFF_FFFFu128
                * 0xFFFF_FFFFu128) by (nonlinear_arith)
                requires
                    page_id as u128 <= 0xFFFF_FFFF_FFFF_FFFFu128,
                    self.page_size as u128 <= 0xFFFF_FFFFu128,
            ;
        }
        let off128 = (page_id as u128) * ps;
        if off128 + PAGE_HEADER_SIZE as u128 > n as u128 {
            return Err(DatabaseError::TooSmallData {
                expect: #[verifier::truncate] ((off128 + PAGE_HEADER_SIZE as u128) as usize),
                got: n,
            });
        }
        let off = off128 as usize;
        let header = PageHeader::decode(slice_subrange(data, off, off + PAGE_HEADER_SIZE));
        proof {
            assert((self.page_size as u128) * ((header.overflow as u128) + 1)
                <= 0xFFFF_FFFFu128 * 0x1_0000_0000u128) by (nonlinear_arith)
                requires
                    self.page_size as u128 <= 0xFFFF_FFFFu128,
                    header.overflow as u128 + 1 <= 0x1_0000_0000u128,
            ;
        }
        let full128 = ps * ((header.overflow as u128) + 1);
        if off128 + full128 > n as u128 {
            return Err(DatabaseError::TooSmallData {
                expect: #[verifier::truncate] ((off128 + full128) as usize),
                got: n,
            });
        }
        let end = (off128 + full128) as usize;
        let buffer = slice_to_vec(slice_subrange(data, off, end));
        proof {
            if end - off >= PAGE_HEADER_SIZE {
                crate::bolt::lemma_page_header_prefix(
                    self.spec_data().subrange(off as int, off as int + PAGE_HEADER_SIZE),
                    self.spec_data().subrange(off as int, end as int),
                );
            }
        }
        match Page::new(buffer, self.page_size as usize) {
            Ok(p) => Ok(p),
            Err(e) => Err(e.into_database_error()),
        }
    }
}

/// A key/value pair as the item iterator emits it, with its nesting
/// depth.
#[derive(Debug, Clone, PartialEq, Eq)]
pub struct KeyValue {
    pub key: Vec<u8>,
    pub value: Vec<u8>,
    pub depth: u64,
}

/// The spec-level form of an emitted key/value pair.
pub struct KeyValueDV {
    pub key: Seq<u8>,
    pub value: Seq<u8>,
    pub depth: u64,
}

impl View for KeyValue {
    type V = KeyValueDV;

    open spec fn view(&self) -> KeyValueDV {
        KeyValueDV { key: self.key@, value: self.value@, depth: self.depth }
    }
}

/// A bucket descriptor as the iterators emit it.
#[derive(Debug, Clone, PartialEq, Eq)]
pub struct Bucket {
    /// The name of the enclosing bucket; empty for a root bucket.
    pub parent_bucket: Vec<u8>,
    /// The bucket's root page; 0 when the bucket is inline.
    pub page_id: u64,
    pub is_inline: bool,
    pub name: Vec<u8>,
    pub depth: u64,
}

/// The spec-level form of a bucket descriptor.
pub struct BucketV {
    pub parent_bucket: Seq<u8>,
    pub page_id: u64,
    pub is_inline: bool,
    pub name: Seq<u8>,
    pub depth: u64,
}

impl View for Bucket {
    type V = BucketV;

    open spec fn view(&self) -> BucketV {
        BucketV {
            parent_bucket: self.parent_bucket@,
            page_id: self.page_id,
            is_inline: self.is_inline,
            name: self.name@,
            depth: self.depth,
        }
    }
}

/// One item of the depth-first walk: a bucket, an inline bucket, or a
/// key/value pair.
#[derive(Debug, Clone, PartialEq, Eq)]
pub enum DbItem {
    KeyValue(KeyValue),
    InlineBucket(Bucket),
    Bucket(Bucket),
}

/// The spec-level form of an emitted item.
pub enum DbItemV {
    KeyValue(KeyValueDV),
    InlineBucket(BucketV),
    Bucket(BucketV),
}

impl View for DbItem {
    type V = DbItemV;

    open spec fn view(&self) -> DbItemV {
        match self {
            DbItem::KeyValue(kv) => DbItemV::KeyValue(kv@),
            DbItem::InlineBucket(b) => DbItemV::InlineBucket(b@),
            DbItem::Bucket(b) => DbItemV::Bucket(b@),
        }
    }
}

/// What a frame of the item iterator walks: the children of a page, or
/// the materialized pairs of an inline bucket.
#[derive(Debug, Clone)]
pub enum ItemNode {
    Page(Pgid),
    Elements(Vec<KeyValue>),
}

/// The spec-level form of a frame's subject.
pub enum ItemNodeV {
    Page(u64),
    Elements(Seq<KeyValueDV>),
}

impl View for ItemNode {
    type V = ItemNodeV;

    open spec fn view(&self) -> ItemNodeV {
        match self {
            ItemNode::Page(p) => ItemNodeV::Page(p.0),
            ItemNode::Elements(kvs) => ItemNodeV::Elements(
                kvs@.map_values(|kv: KeyValue| kv@),
            ),
        }
    }
}

/// One frame of the item iterator's explicit stack.
#[derive(Debug, Clone)]
pub struct IterItem {
    /// The name of the bucket this frame walks inside, if any.
    pub parent_bucket: Option<Vec<u8>>,
    pub node: ItemNode,
    /// The next element of the frame to visit.
    pub index: usize,
    /// `None` for the root frame; `Some(d)` inside a bucket emitted at
    /// depth `d`.
    pub depth: Option<u64>,
}

/// The spec-level form of a stack frame.
pub struct IterItemV {
    pub parent_bucket: Option<Seq<u8>>,
    pub node: ItemNodeV,
    pub index: int,
    pub depth: Option<u64>,
}

impl View for IterItem {
    type V = IterItemV;

    open spec fn view(&self) -> IterItemV {
        IterItemV {
            parent_bucket: match self.parent_bucket {
                Some(ref n) => Some(n@),
                None => None,
            },
            node: self.node@,
            index: self.index as int,
            depth: self.depth,
        }
    }
}

/// The depth items of a frame are emitted at: one more than the frame's
/// own depth, or 0 at the root.
pub open spec fn spec_depth_next(d: Option<u64>) -> u64 {
    match d {
        Some(x) => (x + 1) as u64,
        None => 0,
    }
}

/// A frame's bucket name as the descriptor field: empty at the root.
pub open spec fn spec_parent_name(p: Option<Seq<u8>>) -> Seq<u8> {
    match p {
        Some(n) => n,
        None => Seq::empty(),
    }
}

/// Depths never outrun stack positions: the frame at position `i` was
/// pushed by at most `i` enclosing frames.
pub open spec fn spec_stack_ok(stack: Seq<IterItemV>) -> bool {
    forall|i: int|
        0 <= i < stack.len() ==> ((#[trigger] stack[i]).depth matches Some(d) ==> d <= i)
}

/// What one step of the item iterator does or emits.
pub enum StepOutV {
    Emit(DbItemV),
    Skip,
    Done,
    Fail(DatabaseError),
}

/// One step of the item iterator, exactly as the walk is specified: the
/// top frame either emits its next element, descends, or is popped.
pub open spec fn spec_item_step(s: Seq<u8>, ps: int, stack: Seq<IterItemV>) -> (
    Seq<IterItemV>,
    StepOutV,
) {
    if stack.len() == 0 {
        (stack, StepOutV::Done)
    } else {
        let top = stack.len() - 1;
        let fr = stack[top];
        match fr.node {
            ItemNodeV::Elements(kvs) => {
                if fr.index < kvs.len() {
                    let kv = kvs[fr.index];
                    let st2 = stack.update(top, IterItemV { index: fr.index + 1, ..fr });
                    (
                        st2,
                        StepOutV::Emit(
                            DbItemV::KeyValue(
                                KeyValueDV {
                                    key: kv.key,
                                    value: kv.value,
                                    depth: spec_depth_next(fr.depth),
                                },
                            ),
                        ),
                    )
                } else {
                    (stack.drop_last(), StepOutV::Skip)
                }
            },
            ItemNodeV::Page(pgid) => {
                match spec_read_page(s, ps, pgid as int) {
                    Err(e) => (stack, StepOutV::Fail(e)),
                    Ok(kind) => {
                        let buf = spec_page_buffer(s, ps, pgid as int)->Ok_0;
                        match kind {
                            PageKind::Branch => {
                                match crate::pages::spec_branch_elements(buf) {
                                    Err(e) => (stack, StepOutV::Fail(spec_db_error(e))),
                                    Ok(els) => {
                                        if fr.index < els.len() {
                                            let st2 = stack.update(
                                                top,
                                                IterItemV { index: fr.index + 1, ..fr },
                                            ).push(
                                                IterItemV {
                                                    parent_bucket: fr.parent_bucket,
                                                    node: ItemNodeV::Page(els[fr.index].pgid),
                                                    index: 0,
                                                    depth: fr.depth,
                                                },
                                            );
                                            (st2, StepOutV::Skip)
                                        } else {
                                            (stack.drop_last(), StepOutV::Skip)
                                        }
                                    },
                                }
                            },
                            PageKind::Leaf => {
                                match crate::pages::spec_leaf_elements(buf) {
                                    Err(e) => (stack, StepOutV::Fail(spec_db_error(e))),
                                    Ok(els) => {
                                        if fr.index < els.len() {
                                            let depth = spec_depth_next(fr.depth);
                                            match els[fr.index] {
                                                crate::pages::LeafElementV::Bucket {
                                                    name,
                                                    root_pgid,
                                                    pgid: _,
                                                } => {
                                                    let st2 = stack.update(
                                                        top,
                                                        IterItemV { index: fr.index + 1, ..fr },
                                                    ).push(
                                                        IterItemV {
                                                            parent_bucket: Some(name),
                                                            node: ItemNodeV::Page(root_pgid),
                                                            index: 0,
                                                            depth: Some(depth),
                                                        },
                                                    );
                                                    (
                                                        st2,
                                                        StepOutV::Emit(
                                                            DbItemV::Bucket(
                                                                BucketV {
                                                                    parent_bucket: spec_parent_name(
                                                                        fr.parent_bucket,
                                                                    ),
                                                                    page_id: root_pgid,
                                                                    is_inline: false,
                                                                    name,
                                                                    depth,
                                                                },
                                                            ),
                                                        ),
                                                    )
                                                },
                                                crate::pages::LeafElementV::InlineBucket {
                                                    name,
                                                    root_pgid,
                                                    pgid: _,
                                                    items,
                                                } => {
                                                    let st2 = stack.update(
                                                        top,
                                                        IterItemV { index: fr.index + 1, ..fr },
                                                    ).push(
                                                        IterItemV {
                                                            parent_bucket: fr.parent_bucket,
                                                            node: ItemNodeV::Elements(
                                                                items.map_values(
                                                                    |kv:
                                                                        crate::pages::KeyValueV|
                                                                        KeyValueDV {
                                                                            key: kv.key,
                                                                            value: kv.value,
                                                                            depth: 0,
                                                                        },
                                                                ),
                                                            ),
                                                            index: 0,
                                                            depth: Some(depth),
                                                        },
                                                    );
                                                    (
                                                        st2,
                                                        StepOutV::Emit(
                                                            DbItemV::InlineBucket(
                                                                BucketV {
                                                                    parent_bucket: spec_parent_name(
                                                                        fr.parent_bucket,
                                                                    ),
                                                                    page_id: root_pgid,
                                                                    is_inline: true,
                                                                    name,
                                                                    depth,
                                                                },
                                                            ),
                                                        ),
                                                    )
                                                },
                                                crate::pages::LeafElementV::KeyValue(kv) => {
                                                    let st2 = stack.update(
                                                        top,
                                                        IterItemV { index: fr.index + 1, ..fr },
                                                    );
                                                    (
                                                        st2,
                                                        StepOutV::Emit(
                                                            DbItemV::KeyValue(
                                                                KeyValueDV {
                                                                    key: kv.key,
                                                                    value: kv.value,
                                                                    depth,
                                                                },
                                                            ),
                                                        ),
                                                    )
                                                },
                                            }
                                        } else {
                                            (stack.drop_last(), StepOutV::Skip)
                                        }
                                    },
                                }
                            },
                            _ => {
                                (
                                    stack,
                                    StepOutV::Fail(
                                        DatabaseError::InvalidPageType {
                                            expect: 0x03,
                                            got: spec_page_header(buf).flags.0,
                                            id: pgid,
                                        },
                                    ),
                                )
                            },
                        }
                    },
                }
            },
        }
    }
}

/// Running the item iterator: steps are taken until one emits an item,
/// fails, or exhausts the stack; `fuel` bounds the silent steps, and
/// only a cyclic page graph can use it up.
pub open spec fn spec_item_run(s: Seq<u8>, ps: int, stack: Seq<IterItemV>, fuel: nat) -> (
    Seq<IterItemV>,
    Option<Result<DbItemV, DatabaseError>>,
)
    decreases fuel,
{
    if fuel == 0 {
        (stack, Some(Err(DatabaseError::InvalidData("page tree too deep"))))
    } else {
        let (st, out) = spec_item_step(s, ps, stack);
        match out {
            StepOutV::Done => (st, None),
            StepOutV::Emit(it) => (st, Some(Ok(it))),
            StepOutV::Fail(e) => (st, Some(Err(e))),
            StepOutV::Skip => spec_item_run(s, ps, st, (fuel - 1) as nat),
        }
    }
}

/// Copies an optional bucket name.
fn clone_opt_bytes(p: &Option<Vec<u8>>) -> (r: Option<Vec<u8>>)
    ensures
        match r {
            Some(v) => p matches Some(pv) && v@ == pv@,
            None => p is None,
        },
{
    match p {
        Some(v) => Some(slice_to_vec(v.as_slice())),
        None => None,
    }
}

/// The depth-first item iterator: an explicit stack of frames over a
/// borrowed database handle.
pub struct DbItemIterator<'a> {
    db: &'a DB,
    stack: Vec<IterItem>,
}

impl<'a> DbItemIterator<'a> {
    /// The database the iterator walks.
    pub closed spec fn spec_db(self) -> DB {
        *self.db
    }

    /// The iterator's stack of frames.
    pub closed spec fn spec_stack(self) -> Seq<IterItemV> {
        self.stack@.map_values(|f: IterItem| f@)
    }

    /// A walkable iterator: a well-formed database and sound depths.
    pub open spec fn wf(self) -> bool {
        &&& self.spec_db().wf()
        &&& spec_stack_ok(self.spec_stack())
    }

    /// Steps the walk until it emits an item, surfaces an error, or
    /// exhausts the stack.
    #[verifier::rlimit(100)]
    pub fn next(&mut self) -> (r: Option<Result<DbItem, DatabaseError>>)
        requires
            old(self).wf(),
        ensures
            final(self).wf(),
            final(self).spec_db() == old(self).spec_db(),
            ({
                let (st, out) = spec_item_run(
                    old(self).spec_db().spec_data(),
                    old(self).spec_db().spec_page_size() as int,
                    old(self).spec_stack(),
                    (old(self).spec_db().spec_data().len() + 1) as nat,
                );
                &&& final(self).spec_stack() == st
                &&& (match (r, out) {
                    (None, None) => true,
                    (Some(Ok(it)), Some(Ok(itv))) => it@ == itv,
                    (Some(Err(e)), Some(Err(ev))) => e == ev,
                    _ => false,
                })
            }),
    {
        let ghost s = self.db.spec_data();
        let ghost ps = self.db.spec_page_size() as int;
        let ghost st0 = self.spec_stack();
        let len0 = self.db.data.len();
        let mut remaining: usize = len0;
        loop
            invariant
                self.wf(),
                self.db.wf(),
                self.spec_db() == old(self).spec_db(),
                st0 == old(self).spec_stack(),
                s == self.db.spec_data(),
                ps == self.db.spec_page_size() as int,
                remaining <= len0,
                len0 == s.len(),
                spec_item_run(s, ps, self.spec_stack(), (remaining + 1) as nat) == spec_item_run(
                    s,
                    ps,
                    st0,
                    (len0 + 1) as nat,
                ),
            decreases remaining,
        {
            let ghost st_pre = self.spec_stack();
            let ghost fuel_pre = (remaining + 1) as nat;
            let pre_len = self.stack.len();
            let popped = self.stack.pop();
            let frame = match popped {
                Some(f) => f,
                None => {
                    proof {
                        assert(st_pre.len() == 0);
                        assert(spec_item_step(s, ps, st_pre) == (st_pre, StepOutV::Done));
                    }
                    return None;
                },
            };
            let ghost top = st_pre.len() - 1;
            let ghost frv = st_pre[top];
            proof {
                assert(frv == frame@);
                assert(self.spec_stack() =~= st_pre.drop_last());
            }
            let IterItem { parent_bucket, node, index, depth } = frame;
            match node {
                ItemNode::Elements(kvs) => {
                    if index < kvs.len() {
                        proof {
                            assert(pre_len == st_pre.len());
                            assert((st_pre[top]).depth matches Some(dd) ==> dd <= top);
                        }
                        let d: u64 = match depth {
                            Some(x) => x + 1,
                            None => 0,
                        };
                        let kv = KeyValue {
                            key: slice_to_vec(kvs[index].key.as_slice()),
                            value: slice_to_vec(kvs[index].value.as_slice()),
                            depth: d,
                        };
                        self.stack.push(
                            IterItem {
                                parent_bucket,
                                node: ItemNode::Elements(kvs),
                                index: index + 1,
                                depth,
                            },
                        );
                        proof {
                            let st2 = st_pre.update(top, IterItemV { index: frv.index + 1, ..frv });
                            assert(self.spec_stack() =~= st2);
                            assert(spec_item_step(s, ps, st_pre) == (st2, StepOutV::Emit(DbItemV::KeyValue(kv@))));
                            assert(spec_stack_ok(self.spec_stack()));
                        }
                        return Some(Ok(DbItem::KeyValue(kv)));
                    }
                    proof {
                        assert(spec_item_step(s, ps, st_pre) == (
                            st_pre.drop_last(),
                            StepOutV::Skip,
                        ));
                        assert(spec_stack_ok(self.spec_stack()));
                    }
                },
                ItemNode::Page(pgid) => {
                    let page = match self.db.read_page(pgid.0) {
                        Ok(p) => p,
                        Err(e) => {
                            self.stack.push(
                                IterItem { parent_bucket, node: ItemNode::Page(pgid), index, depth },
                            );
                            proof {
                                assert(self.spec_stack() =~= st_pre);
                                assert(spec_item_step(s, ps, st_pre) == (
                                    st_pre,
                                    StepOutV::Fail(e),
                                ));
                            }
                            return Some(Err(e));
                        },
                    };
                    match page {
                        Page::BranchPage(bp) => {
                            let els = match bp.branch_elements() {
                                Ok(v) => v,
                                Err(e) => {
                                    let e2 = e.into_database_error();
                                    self.stack.push(
                                        IterItem {
                                            parent_bucket,
                                            node: ItemNode::Page(pgid),
                                            index,
                                            depth,
                                        },
                                    );
                                    proof {
                                        assert(self.spec_stack() =~= st_pre);
                                        assert(spec_item_step(s, ps, st_pre) == (
                                            st_pre,
                                            StepOutV::Fail(e2),
                                        ));
                                    }
                                    return Some(Err(e2));
                                },
                            };
                            if index < els.len() {
                                let child = els[index].pgid;
                                let parent2 = clone_opt_bytes(&parent_bucket);
                                self.stack.push(
                                    IterItem {
                                        parent_bucket,
                                        node: ItemNode::Page(pgid),
                                        index: index + 1,
                                        depth,
                                    },
                                );
                                self.stack.push(
                                    IterItem {
                                        parent_bucket: parent2,
                                        node: ItemNode::Page(child),
                                        index: 0,
                                        depth,
                                    },
                                );
                                proof {
                                    let elsv = els@.map_values(|e: crate::pages::BranchElement| e@);
                                    assert(elsv[index as int] == els@[index as int]@);
                                    let st2 = st_pre.update(
                                        top,
                                        IterItemV { index: frv.index + 1, ..frv },
                                    ).push(
                                        IterItemV {
                                            parent_bucket: frv.parent_bucket,
                                            node: ItemNodeV::Page(elsv[frv.index].pgid),
                                            index: 0,
                                            depth: frv.depth,
                                        },
                                    );
                                    assert(self.spec_stack() =~= st2);
                                    assert(spec_item_step(s, ps, st_pre) == (st2, StepOutV::Skip));
                                    assert(spec_stack_ok(self.spec_stack()));
                                }
                            } else {
                                proof {
                                    assert(spec_item_step(s, ps, st_pre) == (
                                        st_pre.drop_last(),
                                        StepOutV::Skip,
                                    ));
                                    assert(spec_stack_ok(self.spec_stack()));
                                }
                            }
                        },
                        Page::LeafPage(lp) => {
                            let els = match lp.leaf_elements() {
                                Ok(v) => v,
                                Err(e) => {
                                    let e2 = e.into_database_error();
                                    self.stack.push(
                                        IterItem {
                                            parent_bucket,
                                            node: ItemNode::Page(pgid),
                                            index,
                                            depth,
                                        },
                                    );
                                    proof {
                                        assert(self.spec_stack() =~= st_pre);
                                        assert(spec_item_step(s, ps, st_pre) == (
                                            st_pre,
                                            StepOutV::Fail(e2),
                                        ));
                                    }
                                    return Some(Err(e2));
                                },
                            };
                            if index < els.len() {
                                proof {
                                    assert(pre_len == st_pre.len());
                                    assert((st_pre[top]).depth matches Some(dd) ==> dd <= top);
                                }
                                let d: u64 = match depth {
                                    Some(x) => x + 1,
                                    None => 0,
                                };
                                let parent_for_item: Vec<u8> = match &parent_bucket {
                                    Some(v) => slice_to_vec(v.as_slice()),
                                    None => Vec::new(),
                                };
                                let ghost elsv = els@.map_values(|e: crate::pages::LeafElement| e@);
                                proof {
                                    assert(elsv[index as int] == els@[index as int]@);
                                }
                                match &els[index] {
                                    crate::pages::LeafElement::Bucket { name, root_pgid, pgid: _ } => {
                                        let name_item = slice_to_vec(name.as_slice());
                                        let name_frame = slice_to_vec(name.as_slice());
                                        let root = *root_pgid;
                                        let item = Bucket {
                                            parent_bucket: parent_for_item,
                                            page_id: root.0,
                                            is_inline: false,
                                            name: name_item,
                                            depth: d,
                                        };
                                        self.stack.push(
                                            IterItem {
                                                parent_bucket,
                                                node: ItemNode::Page(pgid),
                                                index: index + 1,
                                                depth,
                                            },
                                        );
                                        self.stack.push(
                                            IterItem {
                                                parent_bucket: Some(name_frame),
                                                node: ItemNode::Page(root),
                                                index: 0,
                                                depth: Some(d),
                                            },
                                        );
                                        proof {
                                            let st2 = st_pre.update(
                                                top,
                                                IterItemV { index: frv.index + 1, ..frv },
                                            ).push(
                                                IterItemV {
                                                    parent_bucket: Some(name@),
                                                    node: ItemNodeV::Page(root.0),
                                                    index: 0,
                                                    depth: Some(d),
                                                },
                                            );
                                            assert(self.spec_stack() =~= st2);
                                            assert(spec_item_step(s, ps, st_pre) == (
                                                st2,
                                                StepOutV::Emit(DbItemV::Bucket(item@)),
                                            ));
                                            assert(spec_stack_ok(self.spec_stack()));
                                        }
                                        return Some(Ok(DbItem::Bucket(item)));
                                    },
                                    crate::pages::LeafElement::InlineBucket {
                                        name,
                                        root_pgid,
                                        pgid: _,
                                        items,
                                    } => {
                                        let name_item = slice_to_vec(name.as_slice());
                                        let item = Bucket {
                                            parent_bucket: parent_for_item,
                                            page_id: root_pgid.0,
                                            is_inline: true,
                                            name: name_item,
                                            depth: d,
                                        };
                                        let mut kvs: Vec<KeyValue> = Vec::new();
                                        let mut j: usize = 0;
                                        while j < items.len()
                                            invariant
                                                j <= items@.len(),
                                                kvs@.len() == j as int,
                                                forall|t: int|
                                                    0 <= t < j ==> (#[trigger] kvs@[t])@
                                                        == (KeyValueDV {
                                                        key: items@[t]@.key,
                                                        value: items@[t]@.value,
                                                        depth: 0,
                                                    }),
                                            decreases items@.len() - j,
                                        {
                                            let kv = KeyValue {
                                                key: slice_to_vec(items[j].key.as_slice()),
                                                value: slice_to_vec(items[j].value.as_slice()),
                                                depth: 0,
                                            };
                                            kvs.push(kv);
                                            j = j + 1;
                                        }
                                        let parent2 = clone_opt_bytes(&parent_bucket);
                                        self.stack.push(
                                            IterItem {
                                                parent_bucket,
                                                node: ItemNode::Page(pgid),
                                                index: index + 1,
                                                depth,
                                            },
                                        );
                                        self.stack.push(
                                            IterItem {
                                                parent_bucket: parent2,
                                                node: ItemNode::Elements(kvs),
                                                index: 0,
                                                depth: Some(d),
                                            },
                                        );
                                        proof {
                                            let itemsv = items@.map_values(
                                                |kv: crate::pages::KeyValue| kv@,
                                            );
                                            assert(kvs@.map_values(|kv: KeyValue| kv@)
                                                =~= itemsv.map_values(
                                                |kv: crate::pages::KeyValueV| KeyValueDV {
                                                    key: kv.key,
                                                    value: kv.value,
                                                    depth: 0,
                                                },
                                            ));
                                            let st2 = st_pre.update(
                                                top,
                                                IterItemV { index: frv.index + 1, ..frv },
                                            ).push(
                                                IterItemV {
                                                    parent_bucket: frv.parent_bucket,
                                                    node: ItemNodeV::Elements(
                                                        itemsv.map_values(
                                                            |kv: crate::pages::KeyValueV|
                                                                KeyValueDV {
                                                                key: kv.key,
                                                                value: kv.value,
                                                                depth: 0,
                                                            },
                                                        ),
                                                    ),
                                                    index: 0,
                                                    depth: Some(d),
                                                },
                                            );
                                            assert(self.spec_stack() =~= st2);
                                            assert(spec_item_step(s, ps, st_pre) == (
                                                st2,
                                                StepOutV::Emit(DbItemV::InlineBucket(item@)),
                                            ));
                                            assert(spec_stack_ok(self.spec_stack()));
                                        }
                                        return Some(Ok(DbItem::InlineBucket(item)));
                                    },
                                    crate::pages::LeafElement::KeyValue(kv0) => {
                                        let kv = KeyValue {
                                            key: slice_to_vec(kv0.key.as_slice()),
                                            value: slice_to_vec(kv0.value.as_slice()),
                                            depth: d,
                                        };
                                        self.stack.push(
                                            IterItem {
                                                parent_bucket,
                                                node: ItemNode::Page(pgid),
                                                index: index + 1,
                                                depth,
                                            },
                                        );
                                        proof {
                                            let st2 = st_pre.update(
                                                top,
                                                IterItemV { index: frv.index + 1, ..frv },
                                            );
                                            assert(self.spec_stack() =~= st2);
                                            assert(spec_item_step(s, ps, st_pre) == (
                                                st2,
                                                StepOutV::Emit(DbItemV::KeyValue(kv@)),
                                            ));
                                            assert(spec_stack_ok(self.spec_stack()));
                                        }
                                        return Some(Ok(DbItem::KeyValue(kv)));
                                    },
                                }
                            } else {
                                proof {
                                    assert(spec_item_step(s, ps, st_pre) == (
                                        st_pre.drop_last(),
                                        StepOutV::Skip,
                                    ));
                                    assert(spec_stack_ok(self.spec_stack()));
                                }
                            }
                        },
                        Page::MetaPage(mp) => {
                            let flags = mp.page_header().flags;
                            let e = DatabaseError::InvalidPageType {
                                expect: 0x03,
                                got: flags.0,
                                id: pgid.0,
                            };
                            self.stack.push(
                                IterItem { parent_bucket, node: ItemNode::Page(pgid), index, depth },
                            );
                            proof {
                                assert(self.spec_stack() =~= st_pre);
                                assert(spec_item_step(s, ps, st_pre) == (st_pre, StepOutV::Fail(e)));
                            }
                            return Some(Err(e));
                        },
                        Page::FreelistPage(fp) => {
                            let flags = fp.page_header().flags;
                            let e = DatabaseError::InvalidPageType {
                                expect: 0x03,
                                got: flags.0,
                                id: pgid.0,
                            };
                            self.stack.push(
                                IterItem { parent_bucket, node: ItemNode::Page(pgid), index, depth },
                            );
                            proof {
                                assert(self.spec_stack() =~= st_pre);
                                assert(spec_item_step(s, ps, st_pre) == (st_pre, StepOutV::Fail(e)));
                            }
                            return Some(Err(e));
                        },
                    }
                },
            }
            if remaining == 0 {
                proof {
                    let stepres = spec_item_step(s, ps, st_pre);
                    assert(stepres.1 == StepOutV::Skip);
                    assert(stepres.0 == self.spec_stack());
                    assert(spec_item_run(s, ps, st_pre, fuel_pre) == spec_item_run(
                        s,
                        ps,
                        self.spec_stack(),
                        0,
                    ));
                }
                return Some(Err(DatabaseError::InvalidData("page tree too deep")));
            }
            proof {
                let stepres = spec_item_step(s, ps, st_pre);
                assert(stepres.1 == StepOutV::Skip);
                assert(stepres.0 == self.spec_stack());
                assert(spec_item_run(s, ps, st_pre, fuel_pre) == spec_item_run(
                    s,
                    ps,
                    self.spec_stack(),
                    (fuel_pre - 1) as nat,
                ));
            }
            remaining = remaining - 1;
        }
    }
}

impl DB {
    /// Starts the depth-first walk at the active meta's root page.
    pub fn iter_items<'a>(&'a self) -> (r: DbItemIterator<'a>)
        requires
            self.wf(),
        ensures
            r.wf(),
            r.spec_db() == *self,
            r.spec_stack() =~= seq![
                IterItemV {
                    parent_bucket: None,
                    node: ItemNodeV::Page(
                        spec_active_of(self.spec_data(), self.spec_page_size() as int).0.root_pgid.0,
                    ),
                    index: 0,
                    depth: None,
                },
            ],
    {
        let (meta, _) = self.get_meta();
        let mut stack: Vec<IterItem> = Vec::new();
        stack.push(
            IterItem {
                parent_bucket: None,
                node: ItemNode::Page(meta.root_pgid),
                index: 0,
                depth: None,
            },
        );
        DbItemIterator { db: self, stack }
    }
}

/// One entry of the page iterator's work list.
#[derive(Debug, Clone, Copy, PartialEq, Eq)]
pub struct PageIterItem {
    pub parent_page_id: Option<u64>,
    pub page_id: u64,
    pub typ: PageType,
}

/// The work-list entries a leaf page contributes: one per nested bucket
/// reference, in stored order. Inline buckets contribute none.
pub open spec fn spec_leaf_children(
    els: Seq<crate::pages::LeafElementV>,
    parent: u64,
) -> Seq<PageIterItem>
    decreases els.len(),
{
    if els.len() == 0 {
        Seq::empty()
    } else {
        spec_leaf_children(els.drop_last(), parent) + (match els.last() {
            crate::pages::LeafElementV::Bucket { name: _, root_pgid, pgid: _ } => seq![
                PageIterItem {
                    parent_page_id: Some(parent),
                    page_id: root_pgid,
                    typ: PageType::DataLeaf,
                },
            ],
            _ => Seq::empty(),
        })
    }
}

/// The work-list entries a branch page contributes: one per child, in
/// stored order.
pub open spec fn spec_branch_children(
    els: Seq<crate::pages::BranchElementV>,
    parent: u64,
) -> Seq<PageIterItem>
    decreases els.len(),
{
    if els.len() == 0 {
        Seq::empty()
    } else {
        spec_branch_children(els.drop_last(), parent).push(
            PageIterItem {
                parent_page_id: Some(parent),
                page_id: els.last().pgid,
                typ: PageType::DataBranch,
            },
        )
    }
}

/// The work-list entries a freelist page contributes: each listed id,
/// marked free.
pub open spec fn spec_free_children(ids: Seq<u64>) -> Seq<PageIterItem>
    decreases ids.len(),
{
    if ids.len() == 0 {
        Seq::empty()
    } else {
        spec_free_children(ids.drop_last()).push(
            PageIterItem { parent_page_id: None, page_id: ids.last(), typ: PageType::Free },
        )
    }
}

/// One step of the page iterator on the dequeued entry: the record it
/// emits and the entries it appends to the work list.
pub open spec fn spec_page_step(s: Seq<u8>, ps: int, item: PageIterItem) -> (
    Result<PageInfo, DatabaseError>,
    Seq<PageIterItem>,
) {
    if item.typ == PageType::Free {
        (
            Ok(
                PageInfo {
                    id: item.page_id,
                    typ: PageType::Free,
                    overflow: 0,
                    capacity: ps as u64,
                    used: 0,
                    parent_page_id: None,
                },
            ),
            Seq::empty(),
        )
    } else {
        match spec_read_page(s, ps, item.page_id as int) {
            Err(e) => (Err(e), Seq::empty()),
            Ok(kind) => {
                let buf = spec_page_buffer(s, ps, item.page_id as int)->Ok_0;
                let h = spec_page_header(buf);
                match kind {
                    PageKind::Meta => (
                        Ok(
                            PageInfo {
                                id: item.page_id,
                                typ: PageType::Meta,
                                overflow: h.overflow as u64,
                                capacity: buf.len() as u64,
                                used: crate::pages::spec_meta_used() as u64,
                                parent_page_id: None,
                            },
                        ),
                        Seq::empty(),
                    ),
                    PageKind::Freelist => {
                        match crate::pages::spec_free_pages(buf) {
                            Err(e) => (Err(spec_db_error(e)), Seq::empty()),
                            Ok(ids) => (
                                Ok(
                                    PageInfo {
                                        id: item.page_id,
                                        typ: PageType::Freelist,
                                        overflow: h.overflow as u64,
                                        capacity: buf.len() as u64,
                                        used: crate::pages::spec_freelist_used(buf)->Ok_0 as u64,
                                        parent_page_id: None,
                                    },
                                ),
                                spec_free_children(ids),
                            ),
                        }
                    },
                    PageKind::Branch => {
                        match crate::pages::spec_branch_elements(buf) {
                            Err(e) => (Err(spec_db_error(e)), Seq::empty()),
                            Ok(els) => (
                                Ok(
                                    PageInfo {
                                        id: item.page_id,
                                        typ: PageType::DataBranch,
                                        overflow: h.overflow as u64,
                                        capacity: buf.len() as u64,
                                        used: crate::pages::spec_branch_used(buf)->Ok_0 as u64,
                                        parent_page_id: item.parent_page_id,
                                    },
                                ),
                                spec_branch_children(els, item.page_id),
                            ),
                        }
                    },
                    PageKind::Leaf => {
                        match crate::pages::spec_leaf_elements(buf) {
                            Err(e) => (Err(spec_db_error(e)), Seq::empty()),
                            Ok(els) => (
                                Ok(
                                    PageInfo {
                                        id: item.page_id,
                                        typ: PageType::DataLeaf,
                                        overflow: h.overflow as u64,
                                        capacity: buf.len() as u64,
                                        used: crate::pages::spec_leaf_used(buf)->Ok_0 as u64,
                                        parent_page_id: item.parent_page_id,
                                    },
                                ),
                                spec_leaf_children(els, item.page_id),
                            ),
                        }
                    },
                }
            },
        }
    }
}

/// The breadth-first page iterator: a FIFO work list over a borrowed
/// database handle, seeded with the meta pages, the freelist, and the
/// root.
pub struct PageIterator<'a> {
    db: &'a DB,
    stack: Vec<PageIterItem>,
}

impl<'a> PageIterator<'a> {
    /// The database the iterator walks.
    pub closed spec fn spec_db(self) -> DB {
        *self.db
    }

    /// The pending work list, front first.
    pub closed spec fn spec_stack(self) -> Seq<PageIterItem> {
        self.stack@
    }

    /// A walkable iterator.
    pub open spec fn wf(self) -> bool {
        self.spec_db().wf()
    }

    /// Emits the record of the entry at the front of the work list and
    /// appends the pages it references.
    #[verifier::rlimit(50)]
    pub fn next(&mut self) -> (r: Option<Result<PageInfo, DatabaseError>>)
        requires
            old(self).wf(),
        ensures
            final(self).wf(),
            final(self).spec_db() == old(self).spec_db(),
            old(self).spec_stack().len() == 0 ==> r is None && final(self).spec_stack()
                == old(self).spec_stack(),
            old(self).spec_stack().len() > 0 ==> ({
                let (res, children) = spec_page_step(
                    old(self).spec_db().spec_data(),
                    old(self).spec_db().spec_page_size() as int,
                    old(self).spec_stack()[0],
                );
                &&& final(self).spec_stack() == old(self).spec_stack().drop_first() + children
                &&& r == Some(res)
            }),
    {
        let ghost s = self.db.spec_data();
        let ghost ps = self.db.spec_page_size() as int;
        if self.stack.len() == 0 {
            return None;
        }
        let item = self.stack.remove(0);
        proof {
            assert(self.spec_stack() =~= old(self).spec_stack().drop_first());
        }
        if let PageType::Free = item.typ {
            let info = PageInfo {
                id: item.page_id,
                typ: PageType::Free,
                overflow: 0,
                capacity: self.db.page_size as u64,
                used: 0,
                parent_page_id: None,
            };
            proof {
                assert(self.spec_stack() =~= old(self).spec_stack().drop_first() + Seq::<
                    PageIterItem,
                >::empty());
            }
            return Some(Ok(info));
        }
        let page = match self.db.read_page(item.page_id) {
            Ok(p) => p,
            Err(e) => {
                proof {
                    assert(self.spec_stack() =~= old(self).spec_stack().drop_first() + Seq::<
                        PageIterItem,
                    >::empty());
                }
                return Some(Err(e));
            },
        };
        let header = page.page_header();
        let capacity = page.capacity() as u64;
        let used = page.used() as u64;
        match page {
            Page::MetaPage(_) => {
                let info = PageInfo {
                    id: item.page_id,
                    typ: PageType::Meta,
                    overflow: header.overflow as u64,
                    capacity,
                    used,
                    parent_page_id: None,
                };
                proof {
                    assert(self.spec_stack() =~= old(self).spec_stack().drop_first() + Seq::<
                        PageIterItem,
                    >::empty());
                }
                Some(Ok(info))
            },
            Page::FreelistPage(fp) => {
                let ids = match fp.free_pages() {
                    Ok(v) => v,
                    Err(e) => {
                        let e2 = e.into_database_error();
                        proof {
                            assert(self.spec_stack() =~= old(self).spec_stack().drop_first()
                                + Seq::<PageIterItem>::empty());
                        }
                        return Some(Err(e2));
                    },
                };
                let ghost idsv = ids@.map_values(|p: Pgid| p.0);
                let ghost base = self.spec_stack();
                let mut j: usize = 0;
                while j < ids.len()
                    invariant
                        j <= ids@.len(),
                        idsv == ids@.map_values(|p: Pgid| p.0),
                        self.spec_stack() =~= base + spec_free_children(
                            idsv.subrange(0, j as int),
                        ),
                        self.db == old(self).db,
                    decreases ids@.len() - j,
                {
                    let ghost pre = self.spec_stack();
                    self.stack.push(
                        PageIterItem {
                            parent_page_id: None,
                            page_id: ids[j].0,
                            typ: PageType::Free,
                        },
                    );
                    proof {
                        assert(idsv.subrange(0, j + 1).drop_last() =~= idsv.subrange(0, j as int));
                        assert(idsv.subrange(0, j + 1).last() == idsv[j as int]);
                        assert(idsv[j as int] == ids@[j as int].0);
                        assert(self.spec_stack() =~= pre.push(
                            PageIterItem {
                                parent_page_id: None,
                                page_id: idsv[j as int],
                                typ: PageType::Free,
                            },
                        ));
                    }
                    j = j + 1;
                }
                let info = PageInfo {
                    id: item.page_id,
                    typ: PageType::Freelist,
                    overflow: header.overflow as u64,
                    capacity,
                    used,
                    parent_page_id: None,
                };
                proof {
                    assert(idsv.subrange(0, idsv.len() as int) =~= idsv);
                }
                Some(Ok(info))
            },
            Page::BranchPage(bp) => {
                let els = match bp.branch_elements() {
                    Ok(v) => v,
                    Err(e) => {
                        let e2 = e.into_database_error();
                        proof {
                            assert(self.spec_stack() =~= old(self).spec_stack().drop_first()
                                + Seq::<PageIterItem>::empty());
                        }
                        return Some(Err(e2));
                    },
                };
                let ghost elsv = els@.map_values(|e: crate::pages::BranchElement| e@);
                let ghost base = self.spec_stack();
                let mut j: usize = 0;
                while j < els.len()
                    invariant
                        j <= els@.len(),
                        elsv == els@.map_values(|e: crate::pages::BranchElement| e@),
                        self.spec_stack() =~= base + spec_branch_children(
                            elsv.subrange(0, j as int),
                            item.page_id,
                        ),
                        self.db == old(self).db,
                    decreases els@.len() - j,
                {
                    let ghost pre = self.spec_stack();
                    self.stack.push(
                        PageIterItem {
                            parent_page_id: Some(item.page_id),
                            page_id: els[j].pgid.0,
                            typ: PageType::DataBranch,
                        },
                    );
                    proof {
                        assert(elsv.subrange(0, j + 1).drop_last() =~= elsv.subrange(0, j as int));
                        assert(elsv.subrange(0, j + 1).last() == elsv[j as int]);
                        assert(elsv[j as int] == els@[j as int]@);
                        assert(self.spec_stack() =~= pre.push(
                            PageIterItem {
                                parent_page_id: Some(item.page_id),
                                page_id: elsv[j as int].pgid,
                                typ: PageType::DataBranch,
                            },
                        ));
                    }
                    j = j + 1;
                }
                let info = PageInfo {
                    id: item.page_id,
                    typ: PageType::DataBranch,
                    overflow: header.overflow as u64,
                    capacity,
                    used,
                    parent_page_id: item.parent_page_id,
                };
                proof {
                    assert(elsv.subrange(0, elsv.len() as int) =~= elsv);
                }
                Some(Ok(info))
            },
            Page::LeafPage(lp) => {
                let els = match lp.leaf_elements() {
                    Ok(v) => v,
                    Err(e) => {
                        let e2 = e.into_database_error();
                        proof {
                            assert(self.spec_stack() =~= old(self).spec_stack().drop_first()
                                + Seq::<PageIterItem>::empty());
                        }
                        return Some(Err(e2));
                    },
                };
                let ghost elsv = els@.map_values(|e: crate::pages::LeafElement| e@);
                let ghost base = self.spec_stack();
                let mut j: usize = 0;
                while j < els.len()
                    invariant
                        j <= els@.len(),
                        elsv == els@.map_values(|e: crate::pages::LeafElement| e@),
                        self.spec_stack() =~= base + spec_leaf_children(
                            elsv.subrange(0, j as int),
                            item.page_id,
                        ),
                        self.db == old(self).db,
                    decreases els@.len() - j,
                {
                    let ghost pre = self.spec_stack();
                    proof {
                        assert(elsv.subrange(0, j + 1).drop_last() =~= elsv.subrange(0, j as int));
                        assert(elsv.subrange(0, j + 1).last() == elsv[j as int]);
                        assert(elsv[j as int] == els@[j as int]@);
                    }
                    match &els[j] {
                        crate::pages::LeafElement::Bucket { name: _, root_pgid, pgid: _ } => {
                            self.stack.push(
                                PageIterItem {
                                    parent_page_id: Some(item.page_id),
                                    page_id: root_pgid.0,
                                    typ: PageType::DataLeaf,
                                },
                            );
                            proof {
                                assert(self.spec_stack() =~= pre + spec_leaf_children(
                                    elsv.subrange(0, j + 1),
                                    item.page_id,
                                ).subrange(
                                    spec_leaf_children(
                                        elsv.subrange(0, j as int),
                                        item.page_id,
                                    ).len() as int,
                                    spec_leaf_children(elsv.subrange(0, j + 1), item.page_id).len() as int,
                                ));
                            }
                        },
                        _ => {},
                    }
                    j = j + 1;
                }
                let info = PageInfo {
                    id: item.page_id,
                    typ: PageType::DataLeaf,
                    overflow: header.overflow as u64,
                    capacity,
                    used,
                    parent_page_id: item.parent_page_id,
                };
                proof {
                    assert(elsv.subrange(0, elsv.len() as int) =~= elsv);
                }
                Some(Ok(info))
            },
        }
    }
}

impl DB {
    /// Starts the page walk: both meta pages, the active freelist, and
    /// the active root, in that order.
    pub fn iter_pages<'a>(&'a self) -> (r: PageIterator<'a>)
        requires
            self.wf(),
        ensures
            r.wf(),
            r.spec_db() == *self,
            r.spec_stack() =~= ({
                let (m, _) = spec_active_of(self.spec_data(), self.spec_page_size() as int);
                seq![
                    PageIterItem { parent_page_id: None, page_id: 0, typ: PageType::Meta },
                    PageIterItem { parent_page_id: None, page_id: 1, typ: PageType::Meta },
                    PageIterItem {
                        parent_page_id: None,
                        page_id: m.freelist_pgid.0,
                        typ: PageType::Freelist,
                    },
                    PageIterItem {
                        parent_page_id: None,
                        page_id: m.root_pgid.0,
                        typ: PageType::DataBranch,
                    },
                ]
            }),
    {
        let (meta, _) = self.get_meta();
        let mut stack: Vec<PageIterItem> = Vec::new();
        stack.push(PageIterItem { parent_page_id: None, page_id: 0, typ: PageType::Meta });
        stack.push(PageIterItem { parent_page_id: None, page_id: 1, typ: PageType::Meta });
        stack.push(
            PageIterItem {
                parent_page_id: None,
                page_id: meta.freelist_pgid.0,
                typ: PageType::Freelist,
            },
        );
        stack.push(
            PageIterItem {
                parent_page_id: None,
                page_id: meta.root_pgid.0,
                typ: PageType::DataBranch,
            },
        );
        PageIterator { db: self, stack }
    }
}

/// Running the bucket iterator: item-iterator runs are taken until one
/// yields something other than a plain key/value pair; `k` bounds the
/// pairs skipped in one call.
pub open spec fn spec_bucket_run(s: Seq<u8>, ps: int, stack: Seq<IterItemV>, k: nat) -> (
    Seq<IterItemV>,
    Option<Result<DbItemV, DatabaseError>>,
)
    decreases k,
{
    if k == 0 {
        (stack, Some(Err(DatabaseError::InvalidData("item stream too long"))))
    } else {
        let (st, out) = spec_item_run(s, ps, stack, (s.len() + 1) as nat);
        match out {
            Some(Ok(DbItemV::KeyValue(_))) => spec_bucket_run(s, ps, st, (k - 1) as nat),
            _ => (st, out),
        }
    }
}

/// The bucket iterator: the item iterator with plain key/value pairs
/// filtered out, preserving depth-first pre-order.
pub struct BucketIterator<'a> {
    iter: DbItemIterator<'a>,
}

impl<'a> BucketIterator<'a> {
    /// The database the iterator walks.
    pub closed spec fn spec_db(self) -> DB {
        self.iter.spec_db()
    }

    /// The underlying item iterator's stack.
    pub closed spec fn spec_stack(self) -> Seq<IterItemV> {
        self.iter.spec_stack()
    }

    /// A walkable iterator.
    pub open spec fn wf(self) -> bool {
        &&& self.spec_db().wf()
        &&& spec_stack_ok(self.spec_stack())
    }

    /// Forwards the next bucket or inline bucket of the walk, dropping
    /// the key/value pairs in between.
    pub fn next(&mut self) -> (r: Option<Result<Bucket, DatabaseError>>)
        requires
            old(self).wf(),
        ensures
            final(self).wf(),
            final(self).spec_db() == old(self).spec_db(),
            ({
                let (st, out) = spec_bucket_run(
                    old(self).spec_db().spec_data(),
                    old(self).spec_db().spec_page_size() as int,
                    old(self).spec_stack(),
                    (old(self).spec_db().spec_data().len() + 1) as nat,
                );
                &&& final(self).spec_stack() == st
                &&& (match (r, out) {
                    (None, None) => true,
                    (Some(Ok(b)), Some(Ok(DbItemV::Bucket(bv)))) => b@ == bv,
                    (Some(Ok(b)), Some(Ok(DbItemV::InlineBucket(bv)))) => b@ == bv,
                    (Some(Err(e)), Some(Err(ev))) => e == ev,
                    _ => false,
                })
            }),
    {
        let ghost s = self.iter.spec_db().spec_data();
        let ghost ps = self.iter.spec_db().spec_page_size() as int;
        let ghost st0 = self.spec_stack();
        let len0 = self.iter.db.data.len();
        let mut remaining: usize = len0;
        loop
            invariant
                self.wf(),
                self.spec_db() == old(self).spec_db(),
                st0 == old(self).spec_stack(),
                s == self.spec_db().spec_data(),
                ps == self.spec_db().spec_page_size() as int,
                remaining <= len0,
                len0 == s.len(),
                spec_bucket_run(s, ps, self.spec_stack(), (remaining + 1) as nat) == spec_bucket_run(
                    s,
                    ps,
                    st0,
                    (len0 + 1) as nat,
                ),
            decreases remaining,
        {
            let ghost st_pre = self.spec_stack();
            let item = self.iter.next();
            match item {
                None => {
                    return None;
                },
                Some(Ok(DbItem::Bucket(b))) => {
                    return Some(Ok(b));
                },
                Some(Ok(DbItem::InlineBucket(b))) => {
                    return Some(Ok(b));
                },
                Some(Ok(DbItem::KeyValue(_))) => {
                    proof {
                        let run = spec_item_run(s, ps, st_pre, (s.len() + 1) as nat);
                        assert(run.0 == self.spec_stack());
                        assert(run.1 matches Some(Ok(DbItemV::KeyValue(_))));
                        assert(spec_bucket_run(s, ps, st_pre, (remaining + 1) as nat)
                            == spec_bucket_run(s, ps, self.spec_stack(), remaining as nat));
                    }
                    if remaining == 0 {
                        return Some(Err(DatabaseError::InvalidData("item stream too long")));
                    }
                    remaining = remaining - 1;
                },
                Some(Err(e)) => {
                    return Some(Err(e));
                },
            }
        }
    }
}

impl DB {
    /// Starts the bucket walk: the item walk with pairs filtered out.
    pub fn iter_buckets<'a>(&'a self) -> (r: BucketIterator<'a>)
        requires
            self.wf(),
        ensures
            r.wf(),
            r.spec_db() == *self,
            r.spec_stack() =~= seq![
                IterItemV {
                    parent_bucket: None,
                    node: ItemNodeV::Page(
                        spec_active_of(self.spec_data(), self.spec_page_size() as int).0.root_pgid.0,
                    ),
                    index: 0,
                    depth: None,
                },
            ],
    {
        BucketIterator { iter: self.iter_items() }
    }
}

/// What scanning a leaf for a lookup yields: the pair, a sub-bucket to
/// descend into, or nothing.
pub enum ScanOutV {
    Found(KeyValueDV),
    Descend(u64),
    Missing,
}

/// The executable form of a leaf scan's outcome.
pub enum ScanAction {
    Found(KeyValue),
    Descend(u64),
    Missing,
}

/// The first pair at or after `j` whose key is `key`.
pub open spec fn spec_items_find_from(
    items: Seq<crate::pages::KeyValueV>,
    key: Seq<u8>,
    j: int,
) -> Option<crate::pages::KeyValueV>
    decreases items.len() - j,
{
    if j < 0 || j >= items.len() {
        None
    } else if items[j].key == key {
        Some(items[j])
    } else {
        spec_items_find_from(items, key, j + 1)
    }
}

/// Scanning a leaf's elements from position `j` during a lookup: a pair
/// matches when the path is consumed; a named bucket is descended into;
/// an inline bucket is searched when it is the last path component.
pub open spec fn spec_leaf_scan(
    els: Seq<crate::pages::LeafElementV>,
    path: Seq<Seq<u8>>,
    pi: int,
    key: Seq<u8>,
    j: int,
) -> ScanOutV
    decreases els.len() - j,
{
    if j < 0 || j >= els.len() {
        ScanOutV::Missing
    } else {
        match els[j] {
            crate::pages::LeafElementV::KeyValue(kv) => {
                if kv.key == key && pi == path.len() {
                    ScanOutV::Found(KeyValueDV { key: kv.key, value: kv.value, depth: 0 })
                } else {
                    spec_leaf_scan(els, path, pi, key, j + 1)
                }
            },
            crate::pages::LeafElementV::Bucket { name, root_pgid, pgid: _ } => {
                if pi < path.len() && name == path[pi] {
                    ScanOutV::Descend(root_pgid)
                } else {
                    spec_leaf_scan(els, path, pi, key, j + 1)
                }
            },
            crate::pages::LeafElementV::InlineBucket { name, root_pgid: _, pgid: _, items } => {
                if path.len() - pi == 1 && name == path[pi] {
                    match spec_items_find_from(items, key, 0) {
                        Some(kv) => ScanOutV::Found(
                            KeyValueDV { key: kv.key, value: kv.value, depth: 0 },
                        ),
                        None => spec_leaf_scan(els, path, pi, key, j + 1),
                    }
                } else {
                    spec_leaf_scan(els, path, pi, key, j + 1)
                }
            },
        }
    }
}

/// Binary search over branch keys between `lo` and `hi`: whether an
/// equal key was hit, and the hit position or the insertion point.
pub open spec fn spec_binsearch(
    els: Seq<crate::pages::BranchElementV>,
    key: Seq<u8>,
    lo: int,
    hi: int,
) -> (bool, int)
    decreases hi - lo,
{
    if lo >= hi {
        (false, lo)
    } else {
        let mid = lo + (hi - lo) / 2;
        if crate::pages::spec_bytes_lt(els[mid].key, key) {
            spec_binsearch(els, key, mid + 1, hi)
        } else if crate::pages::spec_bytes_lt(key, els[mid].key) {
            spec_binsearch(els, key, lo, mid)
        } else {
            (true, mid)
        }
    }
}

/// The child a branch page routes a key to: the exact hit, else one
/// before the insertion point, floored at 0.
pub open spec fn spec_branch_pick(els: Seq<crate::pages::BranchElementV>, key: Seq<u8>) -> int {
    let (found, idx) = spec_binsearch(els, key, 0, els.len() as int);
    if found {
        idx
    } else if idx > 0 {
        idx - 1
    } else {
        0
    }
}

/// What the point lookup yields, descending from page `pgid` with the
/// path components from `pi` on; `fuel` bounds the descent, and only a
/// cyclic page graph can use it up.
pub open spec fn spec_lookup(
    s: Seq<u8>,
    ps: int,
    pgid: u64,
    path: Seq<Seq<u8>>,
    pi: int,
    key: Seq<u8>,
    fuel: nat,
) -> Option<KeyValueDV>
    decreases fuel,
{
    if fuel == 0 {
        None
    } else {
        match spec_read_page(s, ps, pgid as int) {
            Err(_) => None,
            Ok(kind) => {
                let buf = spec_page_buffer(s, ps, pgid as int)->Ok_0;
                match kind {
                    PageKind::Branch => {
                        match crate::pages::spec_branch_elements(buf) {
                            Err(_) => None,
                            Ok(els) => {
                                if els.len() == 0 {
                                    None
                                } else {
                                    spec_lookup(
                                        s,
                                        ps,
                                        els[spec_branch_pick(els, key)].pgid,
                                        path,
                                        pi,
                                        key,
                                        (fuel - 1) as nat,
                                    )
                                }
                            },
                        }
                    },
                    PageKind::Leaf => {
                        match crate::pages::spec_leaf_elements(buf) {
                            Err(_) => None,
                            Ok(els) => {
                                match spec_leaf_scan(els, path, pi, key, 0) {
                                    ScanOutV::Found(kv) => Some(kv),
                                    ScanOutV::Descend(p) => spec_lookup(
                                        s,
                                        ps,
                                        p,
                                        path,
                                        pi + 1,
                                        key,
                                        (fuel - 1) as nat,
                                    ),
                                    ScanOutV::Missing => None,
                                }
                            },
                        }
                    },
                    _ => None,
                }
            },
        }
    }
}

/// Picks the child a branch page routes `key` to, by binary search.
fn branch_pick(els: &Vec<crate::pages::BranchElement>, key: &Vec<u8>) -> (r: usize)
    requires
        els@.len() > 0,
    ensures
        r as int == spec_branch_pick(
            els@.map_values(|e: crate::pages::BranchElement| e@),
            key@,
        ),
        r < els@.len(),
{
    let ghost elsv = els@.map_values(|e: crate::pages::BranchElement| e@);
    let n = els.len();
    let mut lo: usize = 0;
    let mut hi: usize = n;
    loop
        invariant
            lo <= hi <= n,
            1 <= n,
            n == els@.len(),
            elsv == els@.map_values(|e: crate::pages::BranchElement| e@),
            spec_binsearch(elsv, key@, lo as int, hi as int) == spec_binsearch(
                elsv,
                key@,
                0,
                n as int,
            ),
        decreases hi - lo,
    {
        if lo >= hi {
            let idx = if lo > 0 {
                lo - 1
            } else {
                0
            };
            return idx;
        }
        let mid = lo + (hi - lo) / 2;
        proof {
            assert(elsv[mid as int] == els@[mid as int]@);
        }
        if crate::pages::bytes_lt(els[mid].key.as_slice(), key.as_slice()) {
            lo = mid + 1;
        } else if crate::pages::bytes_lt(key.as_slice(), els[mid].key.as_slice()) {
            hi = mid;
        } else {
            return mid;
        }
    }
}

/// Searches an inline bucket's pairs for an exact key.
fn items_find(items: &Vec<crate::pages::KeyValue>, key: &Vec<u8>) -> (r: Option<KeyValue>)
    ensures
        ({
            let fv = spec_items_find_from(
                items@.map_values(|kv: crate::pages::KeyValue| kv@),
                key@,
                0,
            );
            match (r, fv) {
                (Some(kv), Some(kvv)) => kv@ == (KeyValueDV {
                    key: kvv.key,
                    value: kvv.value,
                    depth: 0,
                }),
                (None, None) => true,
                _ => false,
            }
        }),
{
    let ghost itemsv = items@.map_values(|kv: crate::pages::KeyValue| kv@);
    let m = items.len();
    let mut t: usize = 0;
    while t < m
        invariant
            t <= m,
            m == items@.len(),
            itemsv == items@.map_values(|kv: crate::pages::KeyValue| kv@),
            spec_items_find_from(itemsv, key@, t as int) == spec_items_find_from(itemsv, key@, 0),
        decreases m - t,
    {
        proof {
            assert(itemsv[t as int] == items@[t as int]@);
        }
        if crate::pages::bytes_eq(items[t].key.as_slice(), key.as_slice()) {
            let kv = KeyValue {
                key: slice_to_vec(items[t].key.as_slice()),
                value: slice_to_vec(items[t].value.as_slice()),
                depth: 0,
            };
            return Some(kv);
        }
        t = t + 1;
    }
    None
}

/// Scans a leaf's elements for a lookup, from the first element on.
fn scan_leaf(
    els: &Vec<crate::pages::LeafElement>,
    buckets: &Vec<Vec<u8>>,
    pi: usize,
    key: &Vec<u8>,
) -> (r: ScanAction)
    requires
        pi <= buckets@.len(),
    ensures
        ({
            let sv = spec_leaf_scan(
                els@.map_values(|e: crate::pages::LeafElement| e@),
                buckets@.map_values(|b: Vec<u8>| b@),
                pi as int,
                key@,
                0,
            );
            match (r, sv) {
                (ScanAction::Found(kv), ScanOutV::Found(kvv)) => kv@ == kvv,
                (ScanAction::Descend(p), ScanOutV::Descend(pv)) => p == pv && pi
                    < buckets@.len(),
                (ScanAction::Missing, ScanOutV::Missing) => true,
                _ => false,
            }
        }),
{
    let ghost elsv = els@.map_values(|e: crate::pages::LeafElement| e@);
    let ghost pathv = buckets@.map_values(|b: Vec<u8>| b@);
    let n = els.len();
    let mut j: usize = 0;
    while j < n
        invariant
            j <= n,
            n == els@.len(),
            pi <= buckets@.len(),
            elsv == els@.map_values(|e: crate::pages::LeafElement| e@),
            pathv == buckets@.map_values(|b: Vec<u8>| b@),
            spec_leaf_scan(elsv, pathv, pi as int, key@, j as int) == spec_leaf_scan(
                elsv,
                pathv,
                pi as int,
                key@,
                0,
            ),
        decreases n - j,
    {
        proof {
            assert(elsv[j as int] == els@[j as int]@);
        }
        match &els[j] {
            crate::pages::LeafElement::KeyValue(kv0) => {
                if pi == buckets.len() && crate::pages::bytes_eq(
                    kv0.key.as_slice(),
                    key.as_slice(),
                ) {
                    let kv = KeyValue {
                        key: slice_to_vec(kv0.key.as_slice()),
                        value: slice_to_vec(kv0.value.as_slice()),
                        depth: 0,
                    };
                    return ScanAction::Found(kv);
                }
            },
            crate::pages::LeafElement::Bucket { name, root_pgid, pgid: _ } => {
                if pi < buckets.len() && crate::pages::bytes_eq(
                    name.as_slice(),
                    buckets[pi].as_slice(),
                ) {
                    proof {
                        assert(pathv[pi as int] == buckets@[pi as int]@);
                    }
                    return ScanAction::Descend(root_pgid.0);
                }
            },
            crate::pages::LeafElement::InlineBucket { name, root_pgid: _, pgid: _, items } => {
                let last_component = buckets.len() - pi == 1;
                if last_component && crate::pages::bytes_eq(
                    name.as_slice(),
                    buckets[pi].as_slice(),
                ) {
                    proof {
                        assert(pathv[pi as int] == buckets@[pi as int]@);
                    }
                    match items_find(items, key) {
                        Some(kv) => {
                            return ScanAction::Found(kv);
                        },
                        None => {},
                    }
                }
            },
        }
        j = j + 1;
    }
    ScanAction::Missing
}

impl DB {
    /// Looks `key` up under the bucket path `buckets`, descending from
    /// the active root by binary search on branch keys.
    pub fn get_key_value(&self, buckets: &Vec<Vec<u8>>, key: &Vec<u8>) -> (r: Option<KeyValue>)
        requires
            self.wf(),
        ensures
            ({
                let root = spec_active_of(
                    self.spec_data(),
                    self.spec_page_size() as int,
                ).0.root_pgid.0;
                let sv = spec_lookup(
                    self.spec_data(),
                    self.spec_page_size() as int,
                    root,
                    buckets@.map_values(|b: Vec<u8>| b@),
                    0,
                    key@,
                    (self.spec_data().len() + 1) as nat,
                );
                match (r, sv) {
                    (Some(kv), Some(kvv)) => kv@ == kvv,
                    (None, None) => true,
                    _ => false,
                }
            }),
    {
        let ghost s = self.spec_data();
        let ghost ps = self.spec_page_size() as int;
        let ghost pathv = buckets@.map_values(|b: Vec<u8>| b@);
        let (meta, _) = self.get_meta();
        let mut pgid: u64 = meta.root_pgid.0;
        let mut pi: usize = 0;
        let nbuckets = buckets.len();
        let len0 = self.data.len();
        let mut remaining: usize = len0;
        loop
            invariant
                self.wf(),
                s == self.spec_data(),
                ps == self.spec_page_size() as int,
                pathv == buckets@.map_values(|b: Vec<u8>| b@),
                pi <= nbuckets,
                nbuckets == buckets@.len(),
                remaining <= len0,
                len0 == s.len(),
                spec_lookup(s, ps, pgid, pathv, pi as int, key@, (remaining + 1) as nat)
                    == spec_lookup(
                    s,
                    ps,
                    spec_active_of(s, ps).0.root_pgid.0,
                    pathv,
                    0,
                    key@,
                    (len0 + 1) as nat,
                ),
            decreases remaining,
        {
            let page = match self.read_page(pgid) {
                Ok(p) => p,
                Err(_) => {
                    return None;
                },
            };
            match page {
                Page::BranchPage(bp) => {
                    let els = match bp.branch_elements() {
                        Ok(v) => v,
                        Err(_) => {
                            return None;
                        },
                    };
                    if els.len() == 0 {
                        return None;
                    }
                    let idx = branch_pick(&els, key);
                    proof {
                        let elsv = els@.map_values(|e: crate::pages::BranchElement| e@);
                        assert(elsv[idx as int] == els@[idx as int]@);
                    }
                    let next = els[idx].pgid.0;
                    proof {
                        assert(spec_lookup(s, ps, pgid, pathv, pi as int, key@, (remaining
                            + 1) as nat) == spec_lookup(
                            s,
                            ps,
                            next,
                            pathv,
                            pi as int,
                            key@,
                            remaining as nat,
                        ));
                    }
                    if remaining == 0 {
                        return None;
                    }
                    remaining = remaining - 1;
                    pgid = next;
                },
                Page::LeafPage(lp) => {
                    let els = match lp.leaf_elements() {
                        Ok(v) => v,
                        Err(_) => {
                            return None;
                        },
                    };
                    match scan_leaf(&els, buckets, pi, key) {
                        ScanAction::Found(kv) => {
                            return Some(kv);
                        },
                        ScanAction::Missing => {
                            return None;
                        },
                        ScanAction::Descend(p) => {
                            proof {
                                assert(pi < buckets@.len());
                                assert(spec_lookup(s, ps, pgid, pathv, pi as int, key@, (remaining
                                    + 1) as nat) == spec_lookup(
                                    s,
                                    ps,
                                    p,
                                    pathv,
                                    pi as int + 1,
                                    key@,
                                    remaining as nat,
                                ));
                            }
                            if remaining == 0 {
                                return None;
                            }
                            remaining = remaining - 1;
                            pgid = p;
                            pi = pi + 1;
                        },
                    }
                },
                Page::MetaPage(_) => {
                    return None;
                },
                Page::FreelistPage(_) => {
                    return None;
                },
            }
        }
    }
}

/// The depth of an item, whatever its form.
pub open spec fn spec_item_depth(it: DbItemV) -> u64 {
    match it {
        DbItemV::KeyValue(kv) => kv.depth,
        DbItemV::Bucket(b) => b.depth,
        DbItemV::InlineBucket(b) => b.depth,
    }
}

/// Depth discipline of the walk: an item emitted from the top frame
/// carries that frame's depth plus one, and 0 when the frame is the
/// root. Branch descents reuse the frame's depth, so only bucket
/// nesting deepens the walk.
pub proof fn lemma_emitted_depth(s: Seq<u8>, ps: int, stack: Seq<IterItemV>)
    requires
        stack.len() > 0,
    ensures
        spec_item_step(s, ps, stack).1 matches StepOutV::Emit(it) ==> spec_item_depth(it)
            == spec_depth_next(stack.last().depth),
{
}

/// Pre-order of the walk: when a bucket descriptor is emitted, the
/// frame that will walk its contents is on top of the stack, at the
/// bucket's depth — so everything inside the bucket comes after the
/// descriptor and deeper than it.
pub proof fn lemma_bucket_preorder_step(s: Seq<u8>, ps: int, stack: Seq<IterItemV>)
    requires
        stack.len() > 0,
    ensures
        ({
            let (st2, out) = spec_item_step(s, ps, stack);
            &&& (out matches StepOutV::Emit(DbItemV::Bucket(b)) ==> {
                &&& st2.len() == stack.len() + 1
                &&& st2.last() == (IterItemV {
                    parent_bucket: Some(b.name),
                    node: ItemNodeV::Page(b.page_id),
                    index: 0,
                    depth: Some(b.depth),
                })
            })
            &&& (out matches StepOutV::Emit(DbItemV::InlineBucket(b)) ==> {
                &&& st2.len() == stack.len() + 1
                &&& st2.last().node is Elements
                &&& st2.last().index == 0
                &&& st2.last().depth == Some(b.depth)
            })
        }),
{
}

/// An inline bucket with no pairs is emitted once and contributes
/// nothing more: the very next step on its frame pops it silently.
pub proof fn lemma_inline_empty_bucket(s: Seq<u8>, ps: int, stack: Seq<IterItemV>)
    requires
        stack.len() > 0,
    ensures
        ({
            let (st2, out) = spec_item_step(s, ps, stack);
            out matches StepOutV::Emit(DbItemV::InlineBucket(b)) ==> (match st2.last().node {
                ItemNodeV::Elements(kvs) => kvs.len() == 0 ==> spec_item_step(s, ps, st2) == (
                    st2.drop_last(),
                    StepOutV::Skip,
                ),
                _ => true,
            })
        }),
{
}

/// Two valid meta records with equal transaction ids resolve to the one
/// in page 1.
pub proof fn lemma_meta_tie_prefers_page_one(m0: Meta, m1: Meta)
    requires
        m0.txid == m1.txid,
    ensures
        spec_active_meta(Some(m0), Some(m1)) == (m1, 1u64),
{
}

/// Whether a leaf element is a plain pair carrying exactly `key`.
pub open spec fn spec_is_kv_match(e: crate::pages::LeafElementV, key: Seq<u8>) -> bool {
    e matches crate::pages::LeafElementV::KeyValue(kv) && kv.key == key
}

/// Completeness of the leaf scan once the bucket path is consumed: it
/// finds a pair exactly when one with the key exists, never descends,
/// and the value it reports is that of a matching element.
pub proof fn lemma_leaf_scan_complete(
    els: Seq<crate::pages::LeafElementV>,
    path: Seq<Seq<u8>>,
    pi: int,
    key: Seq<u8>,
    j: int,
)
    requires
        pi == path.len(),
        0 <= j <= els.len(),
    ensures
        !(spec_leaf_scan(els, path, pi, key, j) is Descend),
        (spec_leaf_scan(els, path, pi, key, j) is Missing) <==> (forall|t: int|
            j <= t < els.len() ==> !spec_is_kv_match(#[trigger] els[t], key)),
        spec_leaf_scan(els, path, pi, key, j) matches ScanOutV::Found(kv) ==> kv.key == key
            && kv.depth == 0 && (exists|t: int|
            j <= t < els.len() && spec_is_kv_match(#[trigger] els[t], key) && (els[t]
                matches crate::pages::LeafElementV::KeyValue(kv0) && kv0.value == kv.value)),
    decreases els.len() - j,
{
    if j < els.len() {
        lemma_leaf_scan_complete(els, path, pi, key, j + 1);
    }
}

/// The point lookup on a leaf root with an empty bucket path: it
/// returns a pair exactly when the leaf stores one under the key, and
/// the value is the stored one.
pub proof fn lemma_lookup_on_leaf_root(s: Seq<u8>, ps: int, pgid: u64, key: Seq<u8>, fuel: nat)
    requires
        fuel > 0,
        spec_read_page(s, ps, pgid as int) == Ok::<PageKind, DatabaseError>(PageKind::Leaf),
        crate::pages::spec_leaf_elements(spec_page_buffer(s, ps, pgid as int)->Ok_0) is Ok,
    ensures
        ({
            let els = crate::pages::spec_leaf_elements(
                spec_page_buffer(s, ps, pgid as int)->Ok_0,
            )->Ok_0;
            let path = Seq::<Seq<u8>>::empty();
            &&& ((spec_lookup(s, ps, pgid, path, 0, key, fuel) is Some) <==> exists|t: int|
                0 <= t < els.len() && spec_is_kv_match(#[trigger] els[t], key))
            &&& (spec_lookup(s, ps, pgid, path, 0, key, fuel) matches Some(kv) ==> kv.key == key
                && (exists|t: int|
                0 <= t < els.len() && spec_is_kv_match(#[trigger] els[t], key) && (els[t]
                    matches crate::pages::LeafElementV::KeyValue(kv0) && kv0.value
                    == kv.value)))
        }),
{
    let els = crate::pages::spec_leaf_elements(spec_page_buffer(s, ps, pgid as int)->Ok_0)->Ok_0;
    lemma_leaf_scan_complete(els, Seq::<Seq<u8>>::empty(), 0, key, 0);
}

/// A successful probe names a candidate whose meta window validates and
/// stores the candidate itself.
proof fn lemma_probe_names_valid_meta(s: Seq<u8>, i: u64, ps: u32)
    requires
        spec_probe_from(s, i) == Some(ps),
        9 <= i,
    ensures
        ps as int + 80 <= s.len(),
        spec_meta_validate(s.subrange(ps as int, ps as int + 80)) is Ok,
        spec_meta_validate(s.subrange(ps as int, ps as int + 80))->Ok_0.page_size == ps,
        ps >= 512,
    decreases 21 - i,
{
    if i > 20 {
    } else {
        let cand = 1u64 << i;
        assert(1u64 << i <= 0x100000u64 && 1u64 << i >= 512u64) by (bit_vector)
            requires
                9 <= i <= 20u64,
        ;
        if cand + 80 <= s.len() && (match spec_meta_validate(
            s.subrange(cand as int, cand as int + 80),
        ) {
            Ok(m) => m.page_size as u64 == cand,
            Err(_) => false,
        }) {
        } else {
            lemma_probe_names_valid_meta(s, (i + 1) as u64, ps);
        }
    }
}

/// With no explicit page size, opening succeeds exactly when discovery
/// converges on a non-zero page size, and the database then uses the
/// discovered size. (A valid meta that stores a zero page size is the
/// one discovered-but-unopenable image.)
pub proof fn lemma_discovery_decides_open(s: Seq<u8>)
    ensures
        (spec_open_result(s, None) is Ok) <==> (spec_discover(s) matches Some(ps) && ps != 0),
        spec_open_result(s, None) matches Ok(ps) ==> spec_discover(s) == Some(ps),
{
    match spec_discover(s) {
        None => {},
        Some(ps) => {
            if ps != 0 {
                match spec_meta0_page_size(s) {
                    Some(ps0) => {
                        assert(spec_load_meta(s, ps as int, 0) is Some);
                    },
                    None => {
                        lemma_probe_names_valid_meta(s, 9, ps);
                        assert(1 * (ps as int) == ps as int);
                        assert(spec_load_meta(s, ps as int, 1) is Some);
                    },
                }
            }
        },
    }
}

/// Binary search on an ordered branch page narrows correctly: a hit
/// names an equal key; a miss names the insertion point, with every
/// key before it below the target and every key from it on above.
proof fn lemma_binsearch_sorted(
    els: Seq<crate::pages::BranchElementV>,
    key: Seq<u8>,
    lo: int,
    hi: int,
)
    requires
        crate::pages::spec_branch_keys_ascending(els),
        0 <= lo <= hi <= els.len(),
        forall|j: int| 0 <= j < lo ==> crate::pages::spec_bytes_lt((#[trigger] els[j]).key, key),
        forall|j: int|
            hi <= j < els.len() ==> crate::pages::spec_bytes_lt(key, (#[trigger] els[j]).key),
    ensures
        ({
            let (found, idx) = spec_binsearch(els, key, lo, hi);
            if found {
                0 <= idx < els.len() && els[idx].key == key
            } else {
                &&& lo <= idx <= hi
                &&& forall|j: int|
                    0 <= j < idx ==> crate::pages::spec_bytes_lt((#[trigger] els[j]).key, key)
                &&& forall|j: int|
                    idx <= j < els.len() ==> crate::pages::spec_bytes_lt(
                        key,
                        (#[trigger] els[j]).key,
                    )
            }
        }),
    decreases hi - lo,
{
    if lo >= hi {
    } else {
        let mid = lo + (hi - lo) / 2;
        if crate::pages::spec_bytes_lt(els[mid].key, key) {
            assert forall|j: int| 0 <= j < mid + 1 implies crate::pages::spec_bytes_lt(
                (#[trigger] els[j]).key,
                key,
            ) by {
                if j < mid {
                    crate::pages::lemma_ascending_keys_total(els, j, mid);
                    crate::pages::lemma_bytes_lt_trans(els[j].key, els[mid].key, key);
                }
            }
            lemma_binsearch_sorted(els, key, mid + 1, hi);
        } else if crate::pages::spec_bytes_lt(key, els[mid].key) {
            assert forall|j: int| mid <= j < els.len() implies crate::pages::spec_bytes_lt(
                key,
                (#[trigger] els[j]).key,
            ) by {
                if j > mid {
                    crate::pages::lemma_ascending_keys_total(els, mid, j);
                    crate::pages::lemma_bytes_lt_trans(key, els[mid].key, els[j].key);
                }
            }
            lemma_binsearch_sorted(els, key, lo, mid);
        } else {
            crate::pages::lemma_bytes_lt_connex(els[mid].key, key);
        }
    }
}

/// On a branch page with strictly ascending keys, the routing pick
/// follows the format's rule: an exact hit lands on the equal key; a
/// miss lands one before the first greater key, floored at 0.
pub proof fn lemma_branch_pick_sorted(els: Seq<crate::pages::BranchElementV>, key: Seq<u8>)
    requires
        crate::pages::spec_branch_keys_ascending(els),
        els.len() > 0,
    ensures
        0 <= spec_branch_pick(els, key) < els.len(),
        (exists|t: int| 0 <= t < els.len() && (#[trigger] els[t]).key == key)
            ==> els[spec_branch_pick(els, key)].key == key,
        !(exists|t: int| 0 <= t < els.len() && (#[trigger] els[t]).key == key) ==> ({
            let idx = spec_branch_pick(els, key);
            &&& forall|j: int|
                0 <= j < idx ==> crate::pages::spec_bytes_lt((#[trigger] els[j]).key, key)
            &&& forall|j: int|
                idx < j < els.len() ==> crate::pages::spec_bytes_lt(
                    key,
                    (#[trigger] els[j]).key,
                )
        }),
{
    lemma_binsearch_sorted(els, key, 0, els.len() as int);
    let (found, idx0) = spec_binsearch(els, key, 0, els.len() as int);
    if found {
    } else {
        assert forall|t: int| 0 <= t < els.len() implies (#[trigger] els[t]).key != key by {
            crate::pages::lemma_bytes_lt_irrefl(key);
            if t < idx0 {
                assert(crate::pages::spec_bytes_lt(els[t].key, key));
            } else {
                assert(crate::pages::spec_bytes_lt(key, els[t].key));
            }
        }
    }
}

/// Each dequeued work-list entry of the page walk is reported exactly
/// once, under its own page id.
pub proof fn lemma_page_step_reports_dequeued(s: Seq<u8>, ps: int, item: PageIterItem)
    ensures
        spec_page_step(s, ps, item).0 matches Ok(info) ==> info.id == item.page_id,
{
}

} // verus!
