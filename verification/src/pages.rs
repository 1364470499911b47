//! Typed pages over raw buffers: classification by the header's flag
//! bits, `used`/`capacity` accounting, and extraction of branch and leaf
//! elements (key/value pairs, nested buckets, inline buckets).

use vstd::prelude::*;
use vstd::slice::{slice_subrange, slice_to_vec};
use crate::bolt::{
    read_u32, read_u64, spec_branch_element_header_at, spec_bucket_header_at,
    spec_leaf_element_header_at, spec_meta_validate, spec_page_header, spec_read_u64,
    BranchElementHeader, LeafElementHeader, Meta, PageHeader, Pgid, BRANCH_ELEMENT_HEADER_SIZE,
    BUCKET_HEADER_SIZE, LEAF_ELEMENT_HEADER_SIZE, META_SIZE, PAGE_HEADER_SIZE,
};
use crate::errors::Error;

verus! {

/// Which of the four page forms a buffer holds.
#[derive(Debug, Clone, Copy, PartialEq, Eq, Structural)]
pub enum PageKind {
    Meta,
    Freelist,
    Branch,
    Leaf,
}

/// The page form that the header's flag bits ask for, if any; the branch
/// bit is tried before the leaf bit, and meta and freelist before both.
pub open spec fn spec_page_kind(s: Seq<u8>) -> Option<PageKind> {
    let f = spec_page_header(s).flags;
    if f.spec_is_meta() {
        Some(PageKind::Meta)
    } else if f.spec_is_freelist() {
        Some(PageKind::Freelist)
    } else if f.spec_is_branch() {
        Some(PageKind::Branch)
    } else if f.spec_is_leaf() {
        Some(PageKind::Leaf)
    } else {
        None
    }
}

/// Whether the buffer holds exactly the pages its header announces:
/// `(overflow + 1) * page_size` bytes.
pub open spec fn spec_buffer_sized(s: Seq<u8>, ps: int) -> bool {
    ps * (spec_page_header(s).overflow + 1) == s.len()
}

/// Bytes of a meta page that are in use: the page header plus the meta
/// record.
pub open spec fn spec_meta_used() -> int {
    PAGE_HEADER_SIZE + META_SIZE
}

/// The freelist's element count and the extra lead-in bytes: the header
/// `count` itself, or, when it is the 0xFFFF sentinel, the u64 stored
/// right after the page header.
pub open spec fn spec_freelist_count_offset(s: Seq<u8>) -> Result<(int, int), Error> {
    let h = spec_page_header(s);
    if h.count != 0xFFFF {
        Ok((h.count as int, 0))
    } else if s.len() < 24 {
        Err(Error::TooSmallData { expect: 24, got: s.len() as usize })
    } else {
        Ok((spec_read_u64(s, 16) as int, 8))
    }
}

/// Bytes of a freelist page that are in use: header, optional count word,
/// and one u64 per free page id.
pub open spec fn spec_freelist_used(s: Seq<u8>) -> Result<int, Error> {
    match spec_freelist_count_offset(s) {
        Err(e) => Err(e),
        Ok((count, offset)) => {
            let used = PAGE_HEADER_SIZE + offset + count * 8;
            if used > usize::MAX {
                Err(Error::InvalidData("freelist length overflow"))
            } else {
                Ok(used)
            }
        },
    }
}

/// The ids listed by a freelist page.
pub open spec fn spec_free_pages(s: Seq<u8>) -> Result<Seq<u64>, Error> {
    match spec_freelist_count_offset(s) {
        Err(e) => Err(e),
        Ok((count, offset)) => {
            if PAGE_HEADER_SIZE + offset + count * 8 > s.len() {
                Err(Error::InvalidData("freelist entries out of page bounds"))
            } else {
                Ok(Seq::new(count as nat, |i: int| spec_read_u64(s, PAGE_HEADER_SIZE + offset + 8 * i)))
            }
        },
    }
}

/// Byte position of the `i`-th branch or leaf element header.
pub open spec fn spec_elem_base(i: int) -> int {
    PAGE_HEADER_SIZE + 16 * i
}

/// The `i`-th branch element header, when it lies within the buffer.
pub open spec fn spec_branch_hdr_at(s: Seq<u8>, i: int) -> Result<BranchElementHeader, Error> {
    let base = spec_elem_base(i);
    if base > s.len() {
        Err(Error::InvalidData("slice out of bounds for branch element header"))
    } else if s.len() - base < 16 {
        Err(Error::TooSmallData { expect: 16, got: (s.len() - base) as usize })
    } else {
        Ok(spec_branch_element_header_at(s, base))
    }
}

/// The `i`-th leaf element header, when it lies within the buffer.
pub open spec fn spec_leaf_hdr_at(s: Seq<u8>, i: int) -> Result<LeafElementHeader, Error> {
    let base = spec_elem_base(i);
    if base > s.len() {
        Err(Error::InvalidData("slice out of bounds for leaf element header"))
    } else if s.len() - base < 16 {
        Err(Error::TooSmallData { expect: 16, got: (s.len() - base) as usize })
    } else {
        Ok(spec_leaf_element_header_at(s, base))
    }
}

/// Bytes of a branch page that are in use: up to and including the last
/// element's key.
pub open spec fn spec_branch_used(s: Seq<u8>) -> Result<int, Error> {
    let h = spec_page_header(s);
    if h.count == 0 {
        Ok(PAGE_HEADER_SIZE as int)
    } else {
        match spec_branch_hdr_at(s, h.count - 1) {
            Err(e) => Err(e),
            Ok(eh) => {
                let u = spec_elem_base(h.count - 1) + eh.pos + eh.ksize;
                if u > usize::MAX {
                    Err(Error::InvalidData("page used size overflow"))
                } else {
                    Ok(u)
                }
            },
        }
    }
}

/// Bytes of a leaf page that are in use: up to and including the last
/// element's value.
pub open spec fn spec_leaf_used(s: Seq<u8>) -> Result<int, Error> {
    let h = spec_page_header(s);
    if h.count == 0 {
        Ok(PAGE_HEADER_SIZE as int)
    } else {
        match spec_leaf_hdr_at(s, h.count - 1) {
            Err(e) => Err(e),
            Ok(eh) => {
                let u = spec_elem_base(h.count - 1) + eh.pos + eh.ksize + eh.vsize;
                if u > usize::MAX {
                    Err(Error::InvalidData("page used size overflow"))
                } else {
                    Ok(u)
                }
            },
        }
    }
}

/// What `used` resolves to for a buffer classified as `kind`.
pub open spec fn spec_used_for(s: Seq<u8>, kind: PageKind) -> Result<int, Error> {
    match kind {
        PageKind::Meta => Ok(spec_meta_used()),
        PageKind::Freelist => spec_freelist_used(s),
        PageKind::Branch => spec_branch_used(s),
        PageKind::Leaf => spec_leaf_used(s),
    }
}

/// What classifying `(s, ps)` yields: the page form, or the first failing
/// check among page size, header length, known flags, buffer size, and
/// the `used` computation.
pub open spec fn spec_page_new(s: Seq<u8>, ps: int) -> Result<PageKind, Error> {
    if ps == 0 {
        Err(Error::InvalidData("page size cannot be zero"))
    } else if s.len() < PAGE_HEADER_SIZE {
        Err(Error::TooSmallData { expect: PAGE_HEADER_SIZE, got: s.len() as usize })
    } else {
        match spec_page_kind(s) {
            None => Err(Error::InvalidData("unknown page flags")),
            Some(kind) => {
                if !spec_buffer_sized(s, ps) {
                    Err(Error::InvalidData("data size mismatch with page size and overflow"))
                } else {
                    match spec_used_for(s, kind) {
                        Err(e) => Err(e),
                        Ok(_) => Ok(kind),
                    }
                }
            },
        }
    }
}

/// The checks a typed page's constructor runs for form `kind`: header
/// length, buffer size, then the `used` computation.
pub open spec fn spec_typed_page_check(s: Seq<u8>, ps: int, kind: PageKind) -> Result<int, Error> {
    if s.len() < PAGE_HEADER_SIZE {
        Err(Error::TooSmallData { expect: PAGE_HEADER_SIZE, got: s.len() as usize })
    } else if !spec_buffer_sized(s, ps) {
        Err(Error::InvalidData("data size mismatch with page size and overflow"))
    } else {
        spec_used_for(s, kind)
    }
}

/// A key together with the child page that holds keys at or after it.
#[derive(Debug, Clone, PartialEq, Eq)]
pub struct BranchElement {
    pub key: Vec<u8>,
    pub pgid: Pgid,
}

/// The spec-level form of a branch element.
pub struct BranchElementV {
    pub key: Seq<u8>,
    pub pgid: u64,
}

impl View for BranchElement {
    type V = BranchElementV;

    open spec fn view(&self) -> BranchElementV {
        BranchElementV { key: self.key@, pgid: self.pgid.0 }
    }
}

/// A key/value pair stored in a leaf page.
#[derive(Debug, Clone, Default, PartialEq, Eq)]
pub struct KeyValue {
    pub key: Vec<u8>,
    pub value: Vec<u8>,
}

/// The spec-level form of a key/value pair.
pub struct KeyValueV {
    pub key: Seq<u8>,
    pub value: Seq<u8>,
}

impl View for KeyValue {
    type V = KeyValueV;

    open spec fn view(&self) -> KeyValueV {
        KeyValueV { key: self.key@, value: self.value@ }
    }
}

/// An element stored in a leaf page: a plain pair, a nested bucket on its
/// own page, or a bucket stored inline in this page.
#[derive(Debug, Clone, PartialEq, Eq)]
pub enum LeafElement {
    /// A nested bucket whose contents live on `root_pgid`.
    Bucket { name: Vec<u8>, root_pgid: Pgid, pgid: Pgid },
    /// A small bucket stored inside this leaf page; `root_pgid` is 0 and
    /// the pairs are materialized in `items`.
    InlineBucket { name: Vec<u8>, root_pgid: Pgid, pgid: Pgid, items: Vec<KeyValue> },
    /// A plain key/value pair.
    KeyValue(KeyValue),
}

/// The spec-level form of a leaf element.
pub enum LeafElementV {
    Bucket { name: Seq<u8>, root_pgid: u64, pgid: u64 },
    InlineBucket { name: Seq<u8>, root_pgid: u64, pgid: u64, items: Seq<KeyValueV> },
    KeyValue(KeyValueV),
}

impl View for LeafElement {
    type V = LeafElementV;

    open spec fn view(&self) -> LeafElementV {
        match self {
            LeafElement::Bucket { name, root_pgid, pgid } => LeafElementV::Bucket {
                name: name@,
                root_pgid: root_pgid.0,
                pgid: pgid.0,
            },
            LeafElement::InlineBucket { name, root_pgid, pgid, items } => {
                LeafElementV::InlineBucket {
                    name: name@,
                    root_pgid: root_pgid.0,
                    pgid: pgid.0,
                    items: items@.map_values(|kv: KeyValue| kv@),
                }
            },
            LeafElement::KeyValue(kv) => LeafElementV::KeyValue(kv@),
        }
    }
}

/// The key of element `i`, read with header `h`: bytes
/// `[base + pos, base + pos + ksize)` of the buffer.
pub open spec fn spec_branch_key_of(s: Seq<u8>, h: BranchElementHeader, i: int) -> Result<
    Seq<u8>,
    Error,
> {
    let key_start = spec_elem_base(i) + h.pos;
    let key_end = key_start + h.ksize;
    if key_end > s.len() {
        Err(Error::TooSmallData { expect: key_end as usize, got: s.len() as usize })
    } else {
        Ok(s.subrange(key_start, key_end))
    }
}

/// The `i`-th branch element: its header, then its key.
pub open spec fn spec_branch_elem_at(s: Seq<u8>, i: int) -> Result<BranchElementV, Error> {
    match spec_branch_hdr_at(s, i) {
        Err(e) => Err(e),
        Ok(h) => match spec_branch_key_of(s, h, i) {
            Err(e) => Err(e),
            Ok(key) => Ok(BranchElementV { key, pgid: h.pgid.0 }),
        },
    }
}

/// The first `i` branch elements, or the error of the first that fails.
pub open spec fn spec_branch_elements_upto(s: Seq<u8>, i: int) -> Result<
    Seq<BranchElementV>,
    Error,
>
    decreases i,
{
    if i <= 0 {
        Ok(Seq::empty())
    } else {
        match spec_branch_elements_upto(s, i - 1) {
            Err(e) => Err(e),
            Ok(pre) => match spec_branch_elem_at(s, i - 1) {
                Err(e) => Err(e),
                Ok(el) => Ok(pre.push(el)),
            },
        }
    }
}

/// All branch elements of the page, in stored order.
pub open spec fn spec_branch_elements(s: Seq<u8>) -> Result<Seq<BranchElementV>, Error> {
    spec_branch_elements_upto(s, spec_page_header(s).count as int)
}

/// An error among the first `i` branch elements decides the whole list.
proof fn lemma_branch_upto_err(s: Seq<u8>, i: int, k: int)
    requires
        0 <= i <= k,
        spec_branch_elements_upto(s, i) is Err,
    ensures
        spec_branch_elements_upto(s, k) == spec_branch_elements_upto(s, i),
    decreases k - i,
{
    if k > i {
        lemma_branch_upto_err(s, i, k - 1);
    }
}

/// The key/value pair of element `i`, read with header `h`; a bucket
/// element is refused.
pub open spec fn spec_kv_of(s: Seq<u8>, h: LeafElementHeader, i: int) -> Result<KeyValueV, Error> {
    if h.flags == 1 {
        Err(Error::UnexpectBucketLeaf)
    } else {
        let key_start = spec_elem_base(i) + h.pos;
        let key_end = key_start + h.ksize;
        let value_end = key_end + h.vsize;
        if value_end > s.len() {
            Err(Error::TooSmallData { expect: value_end as usize, got: s.len() as usize })
        } else {
            Ok(KeyValueV { key: s.subrange(key_start, key_end), value: s.subrange(key_end, value_end) })
        }
    }
}

/// The `i`-th pair of an inline bucket's body `b`: like a leaf element,
/// but nested buckets are refused.
pub open spec fn spec_inline_kv_at(b: Seq<u8>, i: int) -> Result<KeyValueV, Error> {
    match spec_leaf_hdr_at(b, i) {
        Err(e) => Err(e),
        Ok(h) => {
            if h.flags == 1 {
                Err(Error::InvalidData("bucket element in inline bucket"))
            } else {
                spec_kv_of(b, h, i)
            }
        },
    }
}

/// The first `i` pairs of an inline bucket's body, or the error of the
/// first that fails.
pub open spec fn spec_inline_items_upto(b: Seq<u8>, i: int) -> Result<Seq<KeyValueV>, Error>
    decreases i,
{
    if i <= 0 {
        Ok(Seq::empty())
    } else {
        match spec_inline_items_upto(b, i - 1) {
            Err(e) => Err(e),
            Ok(pre) => match spec_inline_kv_at(b, i - 1) {
                Err(e) => Err(e),
                Ok(kv) => Ok(pre.push(kv)),
            },
        }
    }
}

/// The pairs of an inline bucket's body: a standalone leaf page image
/// sized to the slice, holding key/value elements only.
pub open spec fn spec_inline_items(b: Seq<u8>) -> Result<Seq<KeyValueV>, Error> {
    if b.len() < PAGE_HEADER_SIZE {
        Err(Error::TooSmallData { expect: PAGE_HEADER_SIZE, got: b.len() as usize })
    } else if spec_page_header(b).overflow != 0 {
        Err(Error::InvalidData("data size mismatch with page size and overflow"))
    } else {
        spec_inline_items_upto(b, spec_page_header(b).count as int)
    }
}

/// The `i`-th leaf element of the page whose stored id is `page_id`,
/// read with header `h`.
pub open spec fn spec_leaf_elem_of(s: Seq<u8>, page_id: u64, h: LeafElementHeader, i: int) -> Result<
    LeafElementV,
    Error,
> {
    if h.flags != 1 {
        match spec_kv_of(s, h, i) {
            Err(e) => Err(e),
            Ok(kv) => Ok(LeafElementV::KeyValue(kv)),
        }
    } else {
        let key_start = spec_elem_base(i) + h.pos;
        let key_end = key_start + h.ksize;
        let value_end = key_end + h.vsize;
        if value_end > s.len() {
            Err(Error::TooSmallData { expect: value_end as usize, got: s.len() as usize })
        } else {
            let name = s.subrange(key_start, key_end);
            if value_end - key_end < BUCKET_HEADER_SIZE {
                Err(Error::TooSmallData {
                    expect: BUCKET_HEADER_SIZE,
                    got: (value_end - key_end) as usize,
                })
            } else {
                let bh = spec_bucket_header_at(s, key_end);
                if bh.root.0 != 0 {
                    Ok(LeafElementV::Bucket { name, root_pgid: bh.root.0, pgid: page_id })
                } else {
                    match spec_inline_items(s.subrange(key_end + BUCKET_HEADER_SIZE, value_end)) {
                        Err(e) => Err(e),
                        Ok(items) => Ok(LeafElementV::InlineBucket {
                            name,
                            root_pgid: 0,
                            pgid: page_id,
                            items,
                        }),
                    }
                }
            }
        }
    }
}

/// The `i`-th leaf element: its header, then its contents.
pub open spec fn spec_leaf_elem_at(s: Seq<u8>, i: int) -> Result<LeafElementV, Error> {
    match spec_leaf_hdr_at(s, i) {
        Err(e) => Err(e),
        Ok(h) => spec_leaf_elem_of(s, spec_page_header(s).id.0, h, i),
    }
}

/// The first `i` leaf elements, or the error of the first that fails.
pub open spec fn spec_leaf_elements_upto(s: Seq<u8>, i: int) -> Result<Seq<LeafElementV>, Error>
    decreases i,
{
    if i <= 0 {
        Ok(Seq::empty())
    } else {
        match spec_leaf_elements_upto(s, i - 1) {
            Err(e) => Err(e),
            Ok(pre) => match spec_leaf_elem_at(s, i - 1) {
                Err(e) => Err(e),
                Ok(el) => Ok(pre.push(el)),
            },
        }
    }
}

/// All leaf elements of the page, in stored order.
pub open spec fn spec_leaf_elements(s: Seq<u8>) -> Result<Seq<LeafElementV>, Error> {
    spec_leaf_elements_upto(s, spec_page_header(s).count as int)
}

/// A page buffer typed as a meta page.
#[derive(Debug, Clone)]
pub struct MetaPage {
    data: Vec<u8>,
    header: PageHeader,
    page_size: usize,
    used: usize,
}

/// A page buffer typed as a freelist page.
#[derive(Debug, Clone)]
pub struct FreelistPage {
    data: Vec<u8>,
    header: PageHeader,
    page_size: usize,
    used: usize,
}

/// A page buffer typed as a branch page.
#[derive(Debug, Clone)]
pub struct BranchPage {
    data: Vec<u8>,
    header: PageHeader,
    page_size: usize,
    used: usize,
}

/// A page buffer typed as a leaf page.
#[derive(Debug, Clone)]
pub struct LeafPage {
    data: Vec<u8>,
    header: PageHeader,
    page_size: usize,
    used: usize,
}

impl View for MetaPage {
    type V = Seq<u8>;

    closed spec fn view(&self) -> Seq<u8> {
        self.data@
    }
}

impl View for FreelistPage {
    type V = Seq<u8>;

    closed spec fn view(&self) -> Seq<u8> {
        self.data@
    }
}

impl View for BranchPage {
    type V = Seq<u8>;

    closed spec fn view(&self) -> Seq<u8> {
        self.data@
    }
}

impl View for LeafPage {
    type V = Seq<u8>;

    closed spec fn view(&self) -> Seq<u8> {
        self.data@
    }
}

/// The checks shared by every typed page's constructor: decode the
/// header, then hold the buffer to `(overflow + 1) * page_size` bytes.
fn check_page_buffer(data: &Vec<u8>, page_size: usize) -> (r: Result<PageHeader, Error>)
    ensures
        match r {
            Ok(h) => data@.len() >= PAGE_HEADER_SIZE && h == spec_page_header(data@)
                && spec_buffer_sized(data@, page_size as int),
            Err(e) => {
                if data@.len() < PAGE_HEADER_SIZE {
                    e == (Error::TooSmallData { expect: PAGE_HEADER_SIZE, got: data@.len() as usize })
                } else {
                    !spec_buffer_sized(data@, page_size as int) && e == Error::InvalidData(
                        "data size mismatch with page size and overflow",
                    )
                }
            },
        },
{
    let header = match PageHeader::try_from(data.as_slice()) {
        Ok(h) => h,
        Err(e) => {
            return Err(e);
        },
    };
    proof {
        assert((page_size as u128) * ((header.overflow as u128) + 1) <= 0xFFFF_FFFF_FFFF_FFFFu128
            * 0x1_0000_0000u128) by (nonlinear_arith)
            requires
                page_size as u128 <= 0xFFFF_FFFF_FFFF_FFFFu128,
                header.overflow as u128 + 1 <= 0x1_0000_0000u128,
        ;
    }
    let expected = (page_size as u128) * ((header.overflow as u128) + 1);
    if expected != data.len() as u128 {
        return Err(Error::InvalidData("data size mismatch with page size and overflow"));
    }
    Ok(header)
}

impl MetaPage {
    /// Everything the constructor established about this page.
    pub closed spec fn wf(self) -> bool {
        &&& self.data@.len() >= PAGE_HEADER_SIZE
        &&& self.header == spec_page_header(self.data@)
        &&& spec_buffer_sized(self.data@, self.page_size as int)
        &&& self.used == spec_meta_used()
    }

    /// The page size the page was classified with.
    pub closed spec fn spec_page_size(self) -> int {
        self.page_size as int
    }

    /// Types a buffer as a meta page.
    pub fn new(data: Vec<u8>, page_size: usize) -> (r: Result<MetaPage, Error>)
        ensures
            match r {
                Ok(p) => p.wf() && p@ == data@ && p.spec_page_size() == page_size as int
                    && spec_typed_page_check(data@, page_size as int, PageKind::Meta) is Ok,
                Err(e) => spec_typed_page_check(data@, page_size as int, PageKind::Meta)
                    == Err::<int, Error>(e),
            },
    {
        let header = match check_page_buffer(&data, page_size) {
            Ok(h) => h,
            Err(e) => {
                return Err(e);
            },
        };
        Ok(MetaPage { data, header, page_size, used: PAGE_HEADER_SIZE + META_SIZE })
    }

    pub fn page_header(&self) -> (r: PageHeader)
        requires
            self.wf(),
        ensures
            r == spec_page_header(self@),
    {
        self.header
    }

    pub fn used(&self) -> (r: usize)
        requires
            self.wf(),
        ensures
            r == spec_meta_used(),
    {
        self.used
    }

    /// Decodes and re-validates the meta record stored in this page.
    pub fn meta(&self) -> (r: Result<Meta, Error>)
        ensures
            r == spec_meta_validate(self@),
    {
        Meta::try_from(self.data.as_slice())
    }
}

impl FreelistPage {
    /// Everything the constructor established about this page.
    pub closed spec fn wf(self) -> bool {
        &&& self.data@.len() >= PAGE_HEADER_SIZE
        &&& self.header == spec_page_header(self.data@)
        &&& spec_buffer_sized(self.data@, self.page_size as int)
        &&& spec_freelist_used(self.data@) == Ok::<int, Error>(self.used as int)
    }

    /// The page size the page was classified with.
    pub closed spec fn spec_page_size(self) -> int {
        self.page_size as int
    }

    /// Types a buffer as a freelist page.
    pub fn new(data: Vec<u8>, page_size: usize) -> (r: Result<FreelistPage, Error>)
        ensures
            match r {
                Ok(p) => p.wf() && p@ == data@ && p.spec_page_size() == page_size as int
                    && spec_typed_page_check(data@, page_size as int, PageKind::Freelist) is Ok,
                Err(e) => spec_typed_page_check(data@, page_size as int, PageKind::Freelist)
                    == Err::<int, Error>(e),
            },
    {
        let header = match check_page_buffer(&data, page_size) {
            Ok(h) => h,
            Err(e) => {
                return Err(e);
            },
        };
        let used = match Self::calculate_used(&header, &data) {
            Ok(u) => u,
            Err(e) => {
                return Err(e);
            },
        };
        Ok(FreelistPage { data, header, page_size, used })
    }

    pub fn page_header(&self) -> (r: PageHeader)
        requires
            self.wf(),
        ensures
            r == spec_page_header(self@),
    {
        self.header
    }

    pub fn used(&self) -> (r: usize)
        requires
            self.wf(),
        ensures
            spec_freelist_used(self@) == Ok::<int, Error>(r as int),
    {
        self.used
    }

    /// The header, the optional count word, and 8 bytes per listed id.
    fn calculate_used(header: &PageHeader, data: &Vec<u8>) -> (r: Result<usize, Error>)
        requires
            data@.len() >= PAGE_HEADER_SIZE,
            *header == spec_page_header(data@),
        ensures
            match r {
                Ok(u) => spec_freelist_used(data@) == Ok::<int, Error>(u as int),
                Err(e) => spec_freelist_used(data@) == Err::<int, Error>(e),
            },
    {
        let (count, offset): (u64, usize) = if header.count != 0xFFFF {
            (header.count as u64, 0)
        } else {
            if data.len() < 24 {
                return Err(Error::TooSmallData { expect: 24, got: data.len() });
            }
            (read_u64(data.as_slice(), PAGE_HEADER_SIZE), 8)
        };
        let used = (PAGE_HEADER_SIZE as u128) + (offset as u128) + (count as u128) * 8;
        if used > usize::MAX as u128 {
            return Err(Error::InvalidData("freelist length overflow"));
        }
        Ok(used as usize)
    }

    /// The ids this freelist declares free, in stored order.
    pub fn free_pages(&self) -> (r: Result<Vec<Pgid>, Error>)
        requires
            self.wf(),
        ensures
            match r {
                Ok(v) => spec_free_pages(self@) == Ok::<Seq<u64>, Error>(
                    v@.map_values(|p: Pgid| p.0),
                ),
                Err(e) => spec_free_pages(self@) == Err::<Seq<u64>, Error>(e),
            },
    {
        let data = self.data.as_slice();
        let n = data.len();
        let (count, offset): (u64, usize) = if self.header.count != 0xFFFF {
            (self.header.count as u64, 0)
        } else {
            if n < 24 {
                return Err(Error::TooSmallData { expect: 24, got: n });
            }
            (read_u64(data, PAGE_HEADER_SIZE), 8)
        };
        let needed = (PAGE_HEADER_SIZE as u128) + (offset as u128) + (count as u128) * 8;
        if needed > n as u128 {
            return Err(Error::InvalidData("freelist entries out of page bounds"));
        }
        let count_us = count as usize;
        let mut freelist: Vec<Pgid> = Vec::new();
        let mut i: usize = 0;
        while i < count_us
            invariant
                count_us == count,
                spec_freelist_count_offset(self.data@) == Ok::<(int, int), Error>(
                    (count as int, offset as int),
                ),
                PAGE_HEADER_SIZE + offset + count * 8 <= n,
                n == self.data@.len(),
                data@ == self.data@,
                i <= count_us,
                freelist@.len() == i as int,
                forall|j: int|
                    0 <= j < i ==> (#[trigger] freelist@[j]).0 == spec_read_u64(
                        self.data@,
                        PAGE_HEADER_SIZE + offset + 8 * j,
                    ),
            decreases count_us - i,
        {
            let id = read_u64(data, i * 8 + PAGE_HEADER_SIZE + offset);
            freelist.push(Pgid(id));
            i = i + 1;
        }
        proof {
            assert(spec_free_pages(self@) matches Ok(ids) && ids =~= freelist@.map_values(
                |p: Pgid| p.0,
            ));
        }
        Ok(freelist)
    }
}

impl BranchPage {
    /// Everything the constructor established about this page.
    pub closed spec fn wf(self) -> bool {
        &&& self.data@.len() >= PAGE_HEADER_SIZE
        &&& self.header == spec_page_header(self.data@)
        &&& spec_buffer_sized(self.data@, self.page_size as int)
        &&& spec_branch_used(self.data@) == Ok::<int, Error>(self.used as int)
    }

    /// The page size the page was classified with.
    pub closed spec fn spec_page_size(self) -> int {
        self.page_size as int
    }

    /// Types a buffer as a branch page.
    pub fn new(data: Vec<u8>, page_size: usize) -> (r: Result<BranchPage, Error>)
        ensures
            match r {
                Ok(p) => p.wf() && p@ == data@ && p.spec_page_size() == page_size as int
                    && spec_typed_page_check(data@, page_size as int, PageKind::Branch) is Ok,
                Err(e) => spec_typed_page_check(data@, page_size as int, PageKind::Branch)
                    == Err::<int, Error>(e),
            },
    {
        let header = match check_page_buffer(&data, page_size) {
            Ok(h) => h,
            Err(e) => {
                return Err(e);
            },
        };
        let used = match Self::calculate_used(&header, &data) {
            Ok(u) => u,
            Err(e) => {
                return Err(e);
            },
        };
        Ok(BranchPage { data, header, page_size, used })
    }

    pub fn page_header(&self) -> (r: PageHeader)
        requires
            self.wf(),
        ensures
            r == spec_page_header(self@),
    {
        self.header
    }

    pub fn used(&self) -> (r: usize)
        requires
            self.wf(),
        ensures
            spec_branch_used(self@) == Ok::<int, Error>(r as int),
    {
        self.used
    }

    /// Offset one past the last element's key.
    fn calculate_used(header: &PageHeader, data: &Vec<u8>) -> (r: Result<usize, Error>)
        requires
            data@.len() >= PAGE_HEADER_SIZE,
            *header == spec_page_header(data@),
        ensures
            match r {
                Ok(u) => spec_branch_used(data@) == Ok::<int, Error>(u as int),
                Err(e) => spec_branch_used(data@) == Err::<int, Error>(e),
            },
    {
        if header.count == 0 {
            return Ok(PAGE_HEADER_SIZE);
        }
        let n = data.len();
        let last: usize = (header.count - 1) as usize;
        let base = PAGE_HEADER_SIZE + last * BRANCH_ELEMENT_HEADER_SIZE;
        if base > n {
            return Err(Error::InvalidData("slice out of bounds for branch element header"));
        }
        if n - base < 16 {
            return Err(Error::TooSmallData { expect: 16, got: n - base });
        }
        let pos = read_u32(data.as_slice(), base);
        let ksize = read_u32(data.as_slice(), base + 4);
        let used = (base as u64) + (pos as u64) + (ksize as u64);
        if used > usize::MAX as u64 {
            return Err(Error::InvalidData("page used size overflow"));
        }
        Ok(used as usize)
    }

    /// All branch elements of this page, in stored order.
    pub fn branch_elements(&self) -> (r: Result<Vec<BranchElement>, Error>)
        requires
            self.wf(),
        ensures
            match r {
                Ok(v) => spec_branch_elements(self@) == Ok::<Seq<BranchElementV>, Error>(
                    v@.map_values(|e: BranchElement| e@),
                ),
                Err(e) => spec_branch_elements(self@) == Err::<Seq<BranchElementV>, Error>(e),
            },
    {
        let data = self.data.as_slice();
        let n = data.len();
        let count = self.header.count as usize;
        let ghost cnt = spec_page_header(self.data@).count as int;
        let mut elements: Vec<BranchElement> = Vec::new();
        let mut i: usize = 0;
        while i < count
            invariant
                self.wf(),
                count == spec_page_header(self.data@).count,
                cnt == count as int,
                n == self.data@.len(),
                data@ == self.data@,
                i <= count,
                spec_branch_elements_upto(self.data@, i as int) matches Ok(pre) && pre
                    =~= elements@.map_values(|e: BranchElement| e@),
            decreases count - i,
        {
            let ghost s = self.data@;
            let ghost gi = i as int;
            let base = PAGE_HEADER_SIZE + i * BRANCH_ELEMENT_HEADER_SIZE;
            if base > n {
                let e = Error::InvalidData("slice out of bounds for branch element header");
                proof {
                    assert(spec_branch_hdr_at(s, gi) == Err::<BranchElementHeader, Error>(e));
                    assert(spec_branch_elements_upto(s, gi + 1) == Err::<
                        Seq<BranchElementV>,
                        Error,
                    >(e));
                    lemma_branch_upto_err(s, gi + 1, cnt);
                }
                return Err(e);
            }
            if n - base < 16 {
                let e = Error::TooSmallData { expect: 16, got: n - base };
                proof {
                    assert(spec_branch_hdr_at(s, gi) == Err::<BranchElementHeader, Error>(e));
                    assert(spec_branch_elements_upto(s, gi + 1) == Err::<
                        Seq<BranchElementV>,
                        Error,
                    >(e));
                    lemma_branch_upto_err(s, gi + 1, cnt);
                }
                return Err(e);
            }
            let h = BranchElementHeader {
                pos: read_u32(data, base),
                ksize: read_u32(data, base + 4),
                pgid: Pgid(read_u64(data, base + 8)),
            };
            proof {
                assert(spec_branch_hdr_at(s, gi) == Ok::<BranchElementHeader, Error>(h));
            }
            let elem = match BranchElement::from_page(self, &h, i as u16) {
                Ok(e) => e,
                Err(e) => {
                    proof {
                        assert(spec_branch_elem_at(s, gi) == Err::<BranchElementV, Error>(e));
                        assert(spec_branch_elements_upto(s, gi + 1) == Err::<
                            Seq<BranchElementV>,
                            Error,
                        >(e));
                        lemma_branch_upto_err(s, gi + 1, cnt);
                    }
                    return Err(e);
                },
            };
            let ghost prev = elements@.map_values(|e: BranchElement| e@);
            elements.push(elem);
            proof {
                assert(spec_branch_elem_at(s, gi) == Ok::<BranchElementV, Error>(elem@));
                assert(elements@.map_values(|e: BranchElement| e@) =~= prev.push(elem@));
            }
            i = i + 1;
        }
        proof {
            assert(spec_branch_elements(self@) == Ok::<Seq<BranchElementV>, Error>(
                elements@.map_values(|e: BranchElement| e@),
            ));
        }
        Ok(elements)
    }
}

impl BranchElement {
    /// Copies out the key of element `idx`, read with header `elem`.
    pub fn from_page(page: &BranchPage, elem: &BranchElementHeader, idx: u16) -> (r: Result<
        BranchElement,
        Error,
    >)
        requires
            page.wf(),
        ensures
            match r {
                Ok(el) => spec_branch_key_of(page@, *elem, idx as int) == Ok::<Seq<u8>, Error>(
                    el.key@,
                ) && el.pgid == elem.pgid,
                Err(e) => spec_branch_key_of(page@, *elem, idx as int) == Err::<Seq<u8>, Error>(e),
            },
    {
        let data = page.data.as_slice();
        let n = data.len();
        let base = (PAGE_HEADER_SIZE as u64) + (idx as u64) * (BRANCH_ELEMENT_HEADER_SIZE as u64);
        let key_start = base + elem.pos as u64;
        let key_end = key_start + elem.ksize as u64;
        if key_end > n as u64 {
            return Err(Error::TooSmallData { expect: key_end as usize, got: n });
        }
        let key = slice_to_vec(slice_subrange(data, key_start as usize, key_end as usize));
        Ok(BranchElement { key, pgid: elem.pgid })
    }
}

/// An error among the first `i` leaf elements decides the whole list.
proof fn lemma_leaf_upto_err(s: Seq<u8>, i: int, k: int)
    requires
        0 <= i <= k,
        spec_leaf_elements_upto(s, i) is Err,
    ensures
        spec_leaf_elements_upto(s, k) == spec_leaf_elements_upto(s, i),
    decreases k - i,
{
    if k > i {
        lemma_leaf_upto_err(s, i, k - 1);
    }
}

/// An error among the first `i` inline pairs decides the whole list.
proof fn lemma_inline_upto_err(b: Seq<u8>, i: int, k: int)
    requires
        0 <= i <= k,
        spec_inline_items_upto(b, i) is Err,
    ensures
        spec_inline_items_upto(b, k) == spec_inline_items_upto(b, i),
    decreases k - i,
{
    if k > i {
        lemma_inline_upto_err(b, i, k - 1);
    }
}

impl KeyValue {
    /// Copies out the key and value of element `idx` of a leaf page
    /// buffer, read with header `elem`; `elem` must not be a bucket.
    pub fn from_page(page: &[u8], elem: &LeafElementHeader, idx: u16) -> (r: Result<
        KeyValue,
        Error,
    >)
        ensures
            match r {
                Ok(kv) => spec_kv_of(page@, *elem, idx as int) matches Ok(kvv) && kvv.key == kv.key@
                    && kvv.value == kv.value@,
                Err(e) => spec_kv_of(page@, *elem, idx as int) == Err::<KeyValueV, Error>(e),
            },
    {
        if elem.is_bucket() {
            return Err(Error::UnexpectBucketLeaf);
        }
        let n = page.len();
        let base = (PAGE_HEADER_SIZE as u64) + (idx as u64) * (LEAF_ELEMENT_HEADER_SIZE as u64);
        let key_start = base + elem.pos as u64;
        let key_end = key_start + elem.ksize as u64;
        let value_end = key_end + elem.vsize as u64;
        if value_end > n as u64 {
            return Err(Error::TooSmallData { expect: value_end as usize, got: n });
        }
        let key = slice_to_vec(slice_subrange(page, key_start as usize, key_end as usize));
        let value = slice_to_vec(slice_subrange(page, key_end as usize, value_end as usize));
        Ok(KeyValue { key, value })
    }
}

/// Parses an inline bucket's body: a standalone leaf page image that may
/// hold key/value elements only.
fn inline_items(b: &[u8]) -> (r: Result<Vec<KeyValue>, Error>)
    ensures
        match r {
            Ok(v) => spec_inline_items(b@) matches Ok(items) && items =~= v@.map_values(
                |kv: KeyValue| kv@,
            ),
            Err(e) => spec_inline_items(b@) == Err::<Seq<KeyValueV>, Error>(e),
        },
{
    let n = b.len();
    if n < PAGE_HEADER_SIZE {
        return Err(Error::TooSmallData { expect: PAGE_HEADER_SIZE, got: n });
    }
    let h = PageHeader::decode(b);
    if h.overflow != 0 {
        return Err(Error::InvalidData("data size mismatch with page size and overflow"));
    }
    let count = h.count as usize;
    let ghost cnt = spec_page_header(b@).count as int;
    let mut items: Vec<KeyValue> = Vec::new();
    let mut i: usize = 0;
    while i < count
        invariant
            count == spec_page_header(b@).count,
            spec_page_header(b@).overflow == 0,
            cnt == count as int,
            n == b@.len(),
            n >= PAGE_HEADER_SIZE,
            i <= count,
            spec_inline_items_upto(b@, i as int) matches Ok(pre) && pre =~= items@.map_values(
                |kv: KeyValue| kv@,
            ),
        decreases count - i,
    {
        let ghost gi = i as int;
        let base = PAGE_HEADER_SIZE + i * LEAF_ELEMENT_HEADER_SIZE;
        if base > n {
            let e = Error::InvalidData("slice out of bounds for leaf element header");
            proof {
                assert(spec_leaf_hdr_at(b@, gi) == Err::<LeafElementHeader, Error>(e));
                assert(spec_inline_items_upto(b@, gi + 1) == Err::<Seq<KeyValueV>, Error>(e));
                lemma_inline_upto_err(b@, gi + 1, cnt);
            }
            return Err(e);
        }
        if n - base < 16 {
            let e = Error::TooSmallData { expect: 16, got: n - base };
            proof {
                assert(spec_leaf_hdr_at(b@, gi) == Err::<LeafElementHeader, Error>(e));
                assert(spec_inline_items_upto(b@, gi + 1) == Err::<Seq<KeyValueV>, Error>(e));
                lemma_inline_upto_err(b@, gi + 1, cnt);
            }
            return Err(e);
        }
        let eh = LeafElementHeader {
            flags: read_u32(b, base),
            pos: read_u32(b, base + 4),
            ksize: read_u32(b, base + 8),
            vsize: read_u32(b, base + 12),
        };
        proof {
            assert(spec_leaf_hdr_at(b@, gi) == Ok::<LeafElementHeader, Error>(eh));
        }
        if eh.flags == 1 {
            let e = Error::InvalidData("bucket element in inline bucket");
            proof {
                assert(spec_inline_kv_at(b@, gi) == Err::<KeyValueV, Error>(e));
                assert(spec_inline_items_upto(b@, gi + 1) == Err::<Seq<KeyValueV>, Error>(e));
                lemma_inline_upto_err(b@, gi + 1, cnt);
            }
            return Err(e);
        }
        let kv = match KeyValue::from_page(b, &eh, i as u16) {
            Ok(kv) => kv,
            Err(e) => {
                proof {
                    assert(spec_inline_kv_at(b@, gi) == Err::<KeyValueV, Error>(e));
                    assert(spec_inline_items_upto(b@, gi + 1) == Err::<Seq<KeyValueV>, Error>(e));
                    lemma_inline_upto_err(b@, gi + 1, cnt);
                }
                return Err(e);
            },
        };
        let ghost prev = items@.map_values(|kv: KeyValue| kv@);
        items.push(kv);
        proof {
            assert(spec_inline_kv_at(b@, gi) matches Ok(kvv) && kvv == kv@);
            assert(items@.map_values(|kv: KeyValue| kv@) =~= prev.push(kv@));
        }
        i = i + 1;
    }
    Ok(items)
}

impl LeafPage {
    /// Everything the constructor established about this page.
    pub closed spec fn wf(self) -> bool {
        &&& self.data@.len() >= PAGE_HEADER_SIZE
        &&& self.header == spec_page_header(self.data@)
        &&& spec_buffer_sized(self.data@, self.page_size as int)
        &&& spec_leaf_used(self.data@) == Ok::<int, Error>(self.used as int)
    }

    /// The page size the page was classified with.
    pub closed spec fn spec_page_size(self) -> int {
        self.page_size as int
    }

    /// Types a buffer as a leaf page.
    pub fn new(data: Vec<u8>, page_size: usize) -> (r: Result<LeafPage, Error>)
        ensures
            match r {
                Ok(p) => p.wf() && p@ == data@ && p.spec_page_size() == page_size as int
                    && spec_typed_page_check(data@, page_size as int, PageKind::Leaf) is Ok,
                Err(e) => spec_typed_page_check(data@, page_size as int, PageKind::Leaf)
                    == Err::<int, Error>(e),
            },
    {
        let header = match check_page_buffer(&data, page_size) {
            Ok(h) => h,
            Err(e) => {
                return Err(e);
            },
        };
        let used = match Self::calculate_used(&header, &data) {
            Ok(u) => u,
            Err(e) => {
                return Err(e);
            },
        };
        Ok(LeafPage { data, header, page_size, used })
    }

    pub fn page_header(&self) -> (r: PageHeader)
        requires
            self.wf(),
        ensures
            r == spec_page_header(self@),
    {
        self.header
    }

    pub fn used(&self) -> (r: usize)
        requires
            self.wf(),
        ensures
            spec_leaf_used(self@) == Ok::<int, Error>(r as int),
    {
        self.used
    }

    /// The raw page buffer.
    pub fn as_slice(&self) -> (r: &[u8])
        ensures
            r@ == self@,
    {
        self.data.as_slice()
    }

    /// Offset one past the last element's value.
    fn calculate_used(header: &PageHeader, data: &Vec<u8>) -> (r: Result<usize, Error>)
        requires
            data@.len() >= PAGE_HEADER_SIZE,
            *header == spec_page_header(data@),
        ensures
            match r {
                Ok(u) => spec_leaf_used(data@) == Ok::<int, Error>(u as int),
                Err(e) => spec_leaf_used(data@) == Err::<int, Error>(e),
            },
    {
        if header.count == 0 {
            return Ok(PAGE_HEADER_SIZE);
        }
        let n = data.len();
        let last: usize = (header.count - 1) as usize;
        let base = PAGE_HEADER_SIZE + last * LEAF_ELEMENT_HEADER_SIZE;
        if base > n {
            return Err(Error::InvalidData("slice out of bounds for leaf element header"));
        }
        if n - base < 16 {
            return Err(Error::TooSmallData { expect: 16, got: n - base });
        }
        let pos = read_u32(data.as_slice(), base + 4);
        let ksize = read_u32(data.as_slice(), base + 8);
        let vsize = read_u32(data.as_slice(), base + 12);
        let used = (base as u64) + (pos as u64) + (ksize as u64) + (vsize as u64);
        if used > usize::MAX as u64 {
            return Err(Error::InvalidData("page used size overflow"));
        }
        Ok(used as usize)
    }

    /// All leaf elements of this page, in stored order.
    pub fn leaf_elements(&self) -> (r: Result<Vec<LeafElement>, Error>)
        requires
            self.wf(),
        ensures
            match r {
                Ok(v) => spec_leaf_elements(self@) matches Ok(els) && els =~= v@.map_values(
                    |e: LeafElement| e@,
                ),
                Err(e) => spec_leaf_elements(self@) == Err::<Seq<LeafElementV>, Error>(e),
            },
    {
        let data = self.data.as_slice();
        let n = data.len();
        let count = self.header.count as usize;
        let ghost cnt = spec_page_header(self.data@).count as int;
        let mut elements: Vec<LeafElement> = Vec::new();
        let mut i: usize = 0;
        while i < count
            invariant
                self.wf(),
                count == spec_page_header(self.data@).count,
                cnt == count as int,
                n == self.data@.len(),
                data@ == self.data@,
                i <= count,
                spec_leaf_elements_upto(self.data@, i as int) matches Ok(pre) && pre
                    =~= elements@.map_values(|e: LeafElement| e@),
            decreases count - i,
        {
            let ghost s = self.data@;
            let ghost gi = i as int;
            let base = PAGE_HEADER_SIZE + i * LEAF_ELEMENT_HEADER_SIZE;
            if base > n {
                let e = Error::InvalidData("slice out of bounds for leaf element header");
                proof {
                    assert(spec_leaf_hdr_at(s, gi) == Err::<LeafElementHeader, Error>(e));
                    assert(spec_leaf_elements_upto(s, gi + 1) == Err::<Seq<LeafElementV>, Error>(
                        e,
                    ));
                    lemma_leaf_upto_err(s, gi + 1, cnt);
                }
                return Err(e);
            }
            if n - base < 16 {
                let e = Error::TooSmallData { expect: 16, got: n - base };
                proof {
                    assert(spec_leaf_hdr_at(s, gi) == Err::<LeafElementHeader, Error>(e));
                    assert(spec_leaf_elements_upto(s, gi + 1) == Err::<Seq<LeafElementV>, Error>(
                        e,
                    ));
                    lemma_leaf_upto_err(s, gi + 1, cnt);
                }
                return Err(e);
            }
            let eh = LeafElementHeader {
                flags: read_u32(data, base),
                pos: read_u32(data, base + 4),
                ksize: read_u32(data, base + 8),
                vsize: read_u32(data, base + 12),
            };
            proof {
                assert(spec_leaf_hdr_at(s, gi) == Ok::<LeafElementHeader, Error>(eh));
            }
            let elem = match LeafElement::from_page(self, &eh, i as u16) {
                Ok(el) => el,
                Err(e) => {
                    proof {
                        assert(spec_leaf_elem_at(s, gi) == Err::<LeafElementV, Error>(e));
                        assert(spec_leaf_elements_upto(s, gi + 1) == Err::<
                            Seq<LeafElementV>,
                            Error,
                        >(e));
                        lemma_leaf_upto_err(s, gi + 1, cnt);
                    }
                    return Err(e);
                },
            };
            let ghost prev = elements@.map_values(|e: LeafElement| e@);
            elements.push(elem);
            proof {
                assert(spec_leaf_elem_at(s, gi) matches Ok(ev) && ev == elem@);
                assert(elements@.map_values(|e: LeafElement| e@) =~= prev.push(elem@));
            }
            i = i + 1;
        }
        Ok(elements)
    }
}

impl LeafElement {
    /// Reads element `idx` of a leaf page with header `elem`: a plain
    /// pair, a nested bucket reference, or an inline bucket parsed in
    /// place.
    pub fn from_page(page: &LeafPage, elem: &LeafElementHeader, idx: u16) -> (r: Result<
        LeafElement,
        Error,
    >)
        requires
            page.wf(),
        ensures
            match r {
                Ok(el) => spec_leaf_elem_of(page@, spec_page_header(page@).id.0, *elem, idx as int)
                    matches Ok(ev) && ev == el@,
                Err(e) => spec_leaf_elem_of(page@, spec_page_header(page@).id.0, *elem, idx as int)
                    == Err::<LeafElementV, Error>(e),
            },
    {
        if !elem.is_bucket() {
            return match KeyValue::from_page(page.data.as_slice(), elem, idx) {
                Ok(kv) => Ok(LeafElement::KeyValue(kv)),
                Err(e) => Err(e),
            };
        }
        let data = page.data.as_slice();
        let n = data.len();
        let base = (PAGE_HEADER_SIZE as u64) + (idx as u64) * (LEAF_ELEMENT_HEADER_SIZE as u64);
        let key_start = base + elem.pos as u64;
        let key_end = key_start + elem.ksize as u64;
        let value_end = key_end + elem.vsize as u64;
        if value_end > n as u64 {
            return Err(Error::TooSmallData { expect: value_end as usize, got: n });
        }
        let name = slice_to_vec(slice_subrange(data, key_start as usize, key_end as usize));
        if elem.vsize < BUCKET_HEADER_SIZE as u32 {
            return Err(
                Error::TooSmallData { expect: BUCKET_HEADER_SIZE, got: elem.vsize as usize },
            );
        }
        let root = read_u64(data, key_end as usize);
        if root != 0 {
            return Ok(
                LeafElement::Bucket { name, root_pgid: Pgid(root), pgid: page.header.id },
            );
        }
        let inner = slice_subrange(
            data,
            key_end as usize + BUCKET_HEADER_SIZE,
            value_end as usize,
        );
        match inline_items(inner) {
            Ok(items) => Ok(
                LeafElement::InlineBucket {
                    name,
                    root_pgid: Pgid(0),
                    pgid: page.header.id,
                    items,
                },
            ),
            Err(e) => Err(e),
        }
    }
}

/// A classified page: the buffer together with the form its flag bits
/// announce.
#[derive(Debug, Clone)]
pub enum Page {
    MetaPage(MetaPage),
    FreelistPage(FreelistPage),
    BranchPage(BranchPage),
    LeafPage(LeafPage),
}

impl Page {
    /// Everything classification established about this page.
    pub open spec fn wf(self) -> bool {
        match self {
            Page::MetaPage(p) => p.wf(),
            Page::FreelistPage(p) => p.wf(),
            Page::BranchPage(p) => p.wf(),
            Page::LeafPage(p) => p.wf(),
        }
    }

    /// The raw bytes of the page buffer.
    pub open spec fn spec_data(self) -> Seq<u8> {
        match self {
            Page::MetaPage(p) => p@,
            Page::FreelistPage(p) => p@,
            Page::BranchPage(p) => p@,
            Page::LeafPage(p) => p@,
        }
    }

    /// The page size the page was classified with.
    pub open spec fn spec_size(self) -> int {
        match self {
            Page::MetaPage(p) => p.spec_page_size(),
            Page::FreelistPage(p) => p.spec_page_size(),
            Page::BranchPage(p) => p.spec_page_size(),
            Page::LeafPage(p) => p.spec_page_size(),
        }
    }

    /// Which of the four forms this page is.
    pub open spec fn kind(self) -> PageKind {
        match self {
            Page::MetaPage(_) => PageKind::Meta,
            Page::FreelistPage(_) => PageKind::Freelist,
            Page::BranchPage(_) => PageKind::Branch,
            Page::LeafPage(_) => PageKind::Leaf,
        }
    }

    /// Classifies a buffer by its header's flag bits: meta, then
    /// freelist, then branch, then leaf.
    pub fn new(data: Vec<u8>, page_size: usize) -> (r: Result<Page, Error>)
        ensures
            match r {
                Ok(p) => p.wf() && p.spec_data() == data@ && p.spec_size() == page_size as int
                    && spec_page_new(data@, page_size as int) == Ok::<PageKind, Error>(p.kind()),
                Err(e) => spec_page_new(data@, page_size as int) == Err::<PageKind, Error>(e),
            },
    {
        if page_size == 0 {
            return Err(Error::InvalidData("page size cannot be zero"));
        }
        let header = match PageHeader::try_from(data.as_slice()) {
            Ok(h) => h,
            Err(e) => {
                return Err(e);
            },
        };
        if header.flags.is_meta_page() {
            match MetaPage::new(data, page_size) {
                Ok(p) => Ok(Page::MetaPage(p)),
                Err(e) => Err(e),
            }
        } else if header.flags.is_freelist_page() {
            match FreelistPage::new(data, page_size) {
                Ok(p) => Ok(Page::FreelistPage(p)),
                Err(e) => Err(e),
            }
        } else if header.flags.is_branch_page() {
            match BranchPage::new(data, page_size) {
                Ok(p) => Ok(Page::BranchPage(p)),
                Err(e) => Err(e),
            }
        } else if header.flags.is_leaf_page() {
            match LeafPage::new(data, page_size) {
                Ok(p) => Ok(Page::LeafPage(p)),
                Err(e) => Err(e),
            }
        } else {
            Err(Error::InvalidData("unknown page flags"))
        }
    }

    /// The raw page buffer.
    pub fn as_slice(&self) -> (r: &[u8])
        ensures
            r@ == self.spec_data(),
    {
        match self {
            Page::MetaPage(p) => p.data.as_slice(),
            Page::FreelistPage(p) => p.data.as_slice(),
            Page::BranchPage(p) => p.data.as_slice(),
            Page::LeafPage(p) => p.data.as_slice(),
        }
    }

    /// The header stored at the start of the page.
    pub fn page_header(&self) -> (r: PageHeader)
        requires
            self.wf(),
        ensures
            r == spec_page_header(self.spec_data()),
    {
        match self {
            Page::MetaPage(p) => p.page_header(),
            Page::FreelistPage(p) => p.page_header(),
            Page::BranchPage(p) => p.page_header(),
            Page::LeafPage(p) => p.page_header(),
        }
    }

    /// Bytes of the page that are in use.
    pub fn used(&self) -> (r: usize)
        requires
            self.wf(),
        ensures
            spec_used_for(self.spec_data(), self.kind()) == Ok::<int, Error>(r as int),
    {
        match self {
            Page::MetaPage(p) => p.used(),
            Page::FreelistPage(p) => p.used(),
            Page::BranchPage(p) => p.used(),
            Page::LeafPage(p) => p.used(),
        }
    }

    /// The page size the page was classified with.
    pub fn page_size(&self) -> (r: usize)
        requires
            self.wf(),
        ensures
            r as int == self.spec_size(),
    {
        match self {
            Page::MetaPage(p) => p.page_size,
            Page::FreelistPage(p) => p.page_size,
            Page::BranchPage(p) => p.page_size,
            Page::LeafPage(p) => p.page_size,
        }
    }

    /// The whole buffer's length: `(overflow + 1) * page_size`.
    pub fn capacity(&self) -> (r: usize)
        ensures
            r == self.spec_data().len(),
    {
        self.as_slice().len()
    }
}

/// Lexicographic order on byte strings, decided at position `i` onward;
/// a proper prefix sorts first.
pub open spec fn spec_bytes_lt_from(a: Seq<u8>, b: Seq<u8>, i: int) -> bool
    decreases b.len() - i,
{
    if i >= b.len() {
        false
    } else if i >= a.len() {
        true
    } else if a[i] < b[i] {
        true
    } else if a[i] > b[i] {
        false
    } else {
        spec_bytes_lt_from(a, b, i + 1)
    }
}

/// Lexicographic order on byte strings.
pub open spec fn spec_bytes_lt(a: Seq<u8>, b: Seq<u8>) -> bool {
    spec_bytes_lt_from(a, b, 0)
}

/// Decides the lexicographic order of two byte strings.
pub fn bytes_lt(a: &[u8], b: &[u8]) -> (r: bool)
    ensures
        r == spec_bytes_lt(a@, b@),
{
    let an = a.len();
    let bn = b.len();
    let mut i: usize = 0;
    loop
        invariant
            i <= an,
            i <= bn,
            an == a@.len(),
            bn == b@.len(),
            spec_bytes_lt(a@, b@) == spec_bytes_lt_from(a@, b@, i as int),
        decreases bn - i,
    {
        if i >= bn {
            return false;
        }
        if i >= an {
            return true;
        }
        let x = *vstd::slice::slice_index_get(a, i);
        let y = *vstd::slice::slice_index_get(b, i);
        if x < y {
            return true;
        }
        if x > y {
            return false;
        }
        i = i + 1;
    }
}

/// Decides byte-for-byte equality of two byte strings.
pub fn bytes_eq(a: &[u8], b: &[u8]) -> (r: bool)
    ensures
        r == (a@ == b@),
{
    let an = a.len();
    let bn = b.len();
    if an != bn {
        proof {
            assert(a@.len() != b@.len());
        }
        return false;
    }
    let mut i: usize = 0;
    while i < an
        invariant
            i <= an,
            an == a@.len(),
            an == b@.len(),
            forall|j: int| 0 <= j < i ==> a@[j] == b@[j],
        decreases an - i,
    {
        let x = *vstd::slice::slice_index_get(a, i);
        let y = *vstd::slice::slice_index_get(b, i);
        if x != y {
            proof {
                assert(a@[i as int] != b@[i as int]);
            }
            return false;
        }
        i = i + 1;
    }
    proof {
        assert(a@ =~= b@);
    }
    true
}

/// Whether the keys of a branch page's elements are strictly ascending.
pub open spec fn spec_branch_keys_ascending(els: Seq<BranchElementV>) -> bool {
    forall|i: int| 0 <= i && i + 1 < els.len() ==> spec_bytes_lt(#[trigger] els[i].key, els[i + 1].key)
}

impl BranchPage {
    /// The raw page buffer.
    pub fn as_slice(&self) -> (r: &[u8])
        ensures
            r@ == self@,
    {
        self.data.as_slice()
    }

    /// Decides whether this page's element keys are strictly ascending,
    /// as the format requires of every branch page.
    pub fn keys_strictly_ascending(&self) -> (r: Result<bool, Error>)
        requires
            self.wf(),
        ensures
            match r {
                Ok(asc) => spec_branch_elements(self@) matches Ok(els) && asc
                    == spec_branch_keys_ascending(els),
                Err(e) => spec_branch_elements(self@) == Err::<Seq<BranchElementV>, Error>(e),
            },
    {
        let elements = match self.branch_elements() {
            Ok(v) => v,
            Err(e) => {
                return Err(e);
            },
        };
        let ghost els = elements@.map_values(|e: BranchElement| e@);
        let n = elements.len();
        if n == 0 {
            return Ok(true);
        }
        let limit = n - 1;
        let mut i: usize = 0;
        while i < limit
            invariant
                self.wf(),
                spec_branch_elements(self@) matches Ok(es) && es == els,
                n == elements@.len(),
                limit == n - 1,
                els == elements@.map_values(|e: BranchElement| e@),
                i <= limit,
                forall|j: int|
                    0 <= j < i ==> spec_bytes_lt(#[trigger] els[j].key, els[j + 1].key),
            decreases limit - i,
        {
            let a = &elements[i];
            let b = &elements[i + 1];
            let ghost gi = i as int;
            proof {
                assert(els[gi] == elements@[gi]@);
                assert(els[gi + 1] == elements@[gi + 1]@);
            }
            if !bytes_lt(a.key.as_slice(), b.key.as_slice()) {
                proof {
                    assert(!spec_bytes_lt(els[gi].key, els[gi + 1].key));
                }
                return Ok(false);
            }
            i = i + 1;
        }
        Ok(true)
    }
}

/// The freelist sentinel: with `count == 0xFFFF` the u64 right after the
/// page header is the true count, and the ids follow it.
pub proof fn lemma_freelist_sentinel(s: Seq<u8>)
    requires
        s.len() >= 24,
        spec_page_header(s).count == 0xFFFF,
    ensures
        spec_freelist_count_offset(s) == Ok::<(int, int), Error>((
            spec_read_u64(s, 16) as int,
            8,
        )),
        spec_free_pages(s) matches Ok(ids) ==> {
            &&& ids.len() == spec_read_u64(s, 16)
            &&& forall|i: int|
                0 <= i < ids.len() ==> #[trigger] ids[i] == spec_read_u64(s, 24 + 8 * i)
        },
{
}

/// Two byte strings with neither below the other agree from position
/// `i` on, and have equal lengths.
proof fn lemma_bytes_lt_from_connex(a: Seq<u8>, b: Seq<u8>, i: int)
    requires
        0 <= i <= a.len(),
        i <= b.len(),
        !spec_bytes_lt_from(a, b, i),
        !spec_bytes_lt_from(b, a, i),
    ensures
        a.len() == b.len(),
        forall|k: int| i <= k < a.len() ==> a[k] == b[k],
    decreases a.len() - i,
{
    if i >= a.len() && i >= b.len() {
    } else if i >= b.len() {
        assert(spec_bytes_lt_from(b, a, i));
    } else if i >= a.len() {
        assert(spec_bytes_lt_from(a, b, i));
    } else {
        assert(a[i] == b[i]);
        lemma_bytes_lt_from_connex(a, b, i + 1);
    }
}

/// The lexicographic order is connex: byte strings with neither below
/// the other are equal.
pub proof fn lemma_bytes_lt_connex(a: Seq<u8>, b: Seq<u8>)
    requires
        !spec_bytes_lt(a, b),
        !spec_bytes_lt(b, a),
    ensures
        a == b,
{
    lemma_bytes_lt_from_connex(a, b, 0);
    assert(a =~= b);
}

/// Transitivity of the order, decided from position `i` on.
proof fn lemma_bytes_lt_from_trans(a: Seq<u8>, b: Seq<u8>, c: Seq<u8>, i: int)
    requires
        0 <= i,
        spec_bytes_lt_from(a, b, i),
        spec_bytes_lt_from(b, c, i),
    ensures
        spec_bytes_lt_from(a, c, i),
    decreases b.len() - i,
{
    if i >= a.len() {
    } else if a[i] == b[i] && b[i] == c[i] {
        lemma_bytes_lt_from_trans(a, b, c, i + 1);
    }
}

/// The lexicographic order is transitive.
pub proof fn lemma_bytes_lt_trans(a: Seq<u8>, b: Seq<u8>, c: Seq<u8>)
    requires
        spec_bytes_lt(a, b),
        spec_bytes_lt(b, c),
    ensures
        spec_bytes_lt(a, c),
{
    lemma_bytes_lt_from_trans(a, b, c, 0);
}

/// A branch page whose adjacent keys ascend is ordered throughout:
/// every earlier element key lies strictly below every later one.
pub proof fn lemma_ascending_keys_total(els: Seq<BranchElementV>, i: int, j: int)
    requires
        spec_branch_keys_ascending(els),
        0 <= i < j < els.len(),
    ensures
        spec_bytes_lt(els[i].key, els[j].key),
    decreases j - i,
{
    if i + 1 == j {
        assert(spec_bytes_lt(els[i].key, els[i + 1].key));
    } else {
        lemma_ascending_keys_total(els, i, j - 1);
        assert(spec_bytes_lt(els[j - 1].key, els[j].key));
        lemma_bytes_lt_trans(els[i].key, els[j - 1].key, els[j].key);
    }
}

/// The lexicographic order is irreflexive.
pub proof fn lemma_bytes_lt_irrefl(a: Seq<u8>)
    ensures
        !spec_bytes_lt(a, a),
{
    lemma_bytes_lt_from_irrefl(a, 0);
}

proof fn lemma_bytes_lt_from_irrefl(a: Seq<u8>, i: int)
    requires
        0 <= i,
    ensures
        !spec_bytes_lt_from(a, a, i),
    decreases a.len() - i,
{
    if i < a.len() {
        lemma_bytes_lt_from_irrefl(a, i + 1);
    }
}

} // verus!
