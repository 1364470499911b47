//! The on-disk building blocks of the file format: fixed-layout headers
//! decoded from little-endian bytes, and the meta record with its
//! magic/version/checksum validation.

use vstd::prelude::*;
use vstd::bytes::*;
use vstd::slice::slice_subrange;
use crate::errors::Error;
use fnv_rs::{Fnv64, FnvHasher};

verus! {

/// Size in bytes of the page header at the start of every page.
pub const PAGE_HEADER_SIZE: usize = 16;

/// Size in bytes of one branch element header.
pub const BRANCH_ELEMENT_HEADER_SIZE: usize = 16;

/// Size in bytes of one leaf element header.
pub const LEAF_ELEMENT_HEADER_SIZE: usize = 16;

/// Size in bytes of the bucket header stored as a bucket key's value.
pub const BUCKET_HEADER_SIZE: usize = 16;

/// Size in bytes of the meta record that follows a meta page's header.
pub const META_SIZE: usize = 64;

/// Marker value indicating that a file is a database of this format.
pub const MAGIC_NUMBER: u32 = 0xED0CDAED;

/// The data file format version.
pub const DATAFILE_VERSION: u32 = 2;

/// The mask of the page-flag bits that have a meaning.
pub const PAGE_FLAG_MASK: u16 = 0x17;

/// The little-endian u16 stored at `off` in `s`.
pub open spec fn spec_read_u16(s: Seq<u8>, off: int) -> u16 {
    spec_u16_from_le_bytes(s.subrange(off, off + 2))
}

/// The little-endian u32 stored at `off` in `s`.
pub open spec fn spec_read_u32(s: Seq<u8>, off: int) -> u32 {
    spec_u32_from_le_bytes(s.subrange(off, off + 4))
}

/// The little-endian u64 stored at `off` in `s`.
pub open spec fn spec_read_u64(s: Seq<u8>, off: int) -> u64 {
    spec_u64_from_le_bytes(s.subrange(off, off + 8))
}

/// Reads the little-endian u16 at `offset`.
pub fn read_u16(data: &[u8], offset: usize) -> (r: u16)
    requires
        offset + 2 <= data@.len(),
    ensures
        r == spec_read_u16(data@, offset as int),
{
    let n = data.len();
    u16_from_le_bytes(slice_subrange(data, offset, offset + 2))
}

/// Reads the little-endian u32 at `offset`.
pub fn read_u32(data: &[u8], offset: usize) -> (r: u32)
    requires
        offset + 4 <= data@.len(),
    ensures
        r == spec_read_u32(data@, offset as int),
{
    let n = data.len();
    u32_from_le_bytes(slice_subrange(data, offset, offset + 4))
}

/// Reads the little-endian u64 at `offset`.
pub fn read_u64(data: &[u8], offset: usize) -> (r: u64)
    requires
        offset + 8 <= data@.len(),
    ensures
        r == spec_read_u64(data@, offset as int),
{
    let n = data.len();
    u64_from_le_bytes(slice_subrange(data, offset, offset + 8))
}

/// The big-endian FNV-1a-64 digest of a byte sequence, the function the
/// meta checksum is computed with.
pub uninterp spec fn fnv64_of(s: Seq<u8>) -> u64;

/// Relies on fnv_rs::Fnv64::hash: the FNV-1a-64 digest depends on the bytes
/// alone, and its result is the 8-byte big-endian form of the 64-bit state.
#[verifier::external_body]
pub(crate) fn fnv64(data: &[u8]) -> (r: u64)
    ensures
        r == fnv64_of(data@),
{
    let hash = Fnv64::hash(data);
    let mut bytes = [0u8; 8];
    bytes.copy_from_slice(hash.as_bytes());
    u64::from_be_bytes(bytes)
}

/// The index of a page within the file; a page starts at byte
/// `id * page_size`.
#[derive(Debug, Clone, Copy, PartialEq, Eq, PartialOrd, Ord, Hash, Structural)]
pub struct Pgid(pub u64);

impl From<u64> for Pgid {
    fn from(id: u64) -> (r: Pgid) {
        Pgid(id)
    }
}

impl vstd::std_specs::convert::FromSpecImpl<u64> for Pgid {
    open spec fn obeys_from_spec() -> bool {
        true
    }

    open spec fn from_spec(id: u64) -> Pgid {
        Pgid(id)
    }
}

impl From<Pgid> for u64 {
    fn from(id: Pgid) -> (r: u64) {
        id.0
    }
}

impl vstd::std_specs::convert::FromSpecImpl<Pgid> for u64 {
    open spec fn obeys_from_spec() -> bool {
        true
    }

    open spec fn from_spec(id: Pgid) -> u64 {
        id.0
    }
}

/// The decimal digit `d` as a character.
pub open spec fn spec_digit_char(d: int) -> char {
    if d == 0 {
        '0'
    } else if d == 1 {
        '1'
    } else if d == 2 {
        '2'
    } else if d == 3 {
        '3'
    } else if d == 4 {
        '4'
    } else if d == 5 {
        '5'
    } else if d == 6 {
        '6'
    } else if d == 7 {
        '7'
    } else if d == 8 {
        '8'
    } else {
        '9'
    }
}

/// The decimal representation of `v`, most significant digit first.
pub open spec fn spec_u64_decimal(v: int) -> Seq<char>
    decreases v,
{
    if v < 10 {
        seq![spec_digit_char(v)]
    } else {
        spec_u64_decimal(v / 10).push(spec_digit_char(v % 10))
    }
}

/// One decimal digit as a string slice.
fn digit_str(d: u64) -> (r: &'static str)
    requires
        d < 10,
    ensures
        r@ == seq![spec_digit_char(d as int)],
{
    proof {
        reveal_strlit("0");
        reveal_strlit("1");
        reveal_strlit("2");
        reveal_strlit("3");
        reveal_strlit("4");
        reveal_strlit("5");
        reveal_strlit("6");
        reveal_strlit("7");
        reveal_strlit("8");
        reveal_strlit("9");
    }
    let r = match d {
        0 => "0",
        1 => "1",
        2 => "2",
        3 => "3",
        4 => "4",
        5 => "5",
        6 => "6",
        7 => "7",
        8 => "8",
        _ => "9",
    };
    proof {
        assert(r@ =~= seq![spec_digit_char(d as int)]);
    }
    r
}

/// The decimal representation of `v` as a string.
pub fn u64_decimal_string(v: u64) -> (r: String)
    ensures
        r@ == spec_u64_decimal(v as int),
    decreases v,
{
    if v < 10 {
        String::from_str(digit_str(v))
    } else {
        let q = u64_decimal_string(v / 10);
        q.concat(digit_str(v % 10))
    }
}

impl Pgid {
    /// The page id in decimal, as text.
    pub fn to_string(&self) -> (r: String)
        ensures
            r@ == spec_u64_decimal(self.0 as int),
    {
        u64_decimal_string(self.0)
    }
}

/// The type bits of a page: branch, leaf, meta or freelist.
#[derive(Debug, Clone, Copy, PartialEq, Eq, Hash, Structural)]
pub struct PageFlag(pub u16);

impl PageFlag {
    /// True when the branch bit (0x01) is set.
    pub open spec fn spec_is_branch(self) -> bool {
        self.0 & 0x01u16 != 0
    }

    /// True when the leaf bit (0x02) is set.
    pub open spec fn spec_is_leaf(self) -> bool {
        self.0 & 0x02u16 != 0
    }

    /// True when the meta bit (0x04) is set.
    pub open spec fn spec_is_meta(self) -> bool {
        self.0 & 0x04u16 != 0
    }

    /// True when the freelist bit (0x10) is set.
    pub open spec fn spec_is_freelist(self) -> bool {
        self.0 & 0x10u16 != 0
    }

    /// Keeps only the bits that have a meaning.
    pub fn from_bits_truncate(bits: u16) -> (r: PageFlag)
        ensures
            r.0 == bits & PAGE_FLAG_MASK,
    {
        PageFlag(bits & PAGE_FLAG_MASK)
    }

    /// The raw bit mask.
    pub fn as_u16(&self) -> (r: u16)
        ensures
            r == self.0,
    {
        self.0
    }

    pub fn is_branch_page(&self) -> (r: bool)
        ensures
            r == self.spec_is_branch(),
    {
        self.0 & 0x01 != 0
    }

    pub fn is_leaf_page(&self) -> (r: bool)
        ensures
            r == self.spec_is_leaf(),
    {
        self.0 & 0x02 != 0
    }

    pub fn is_meta_page(&self) -> (r: bool)
        ensures
            r == self.spec_is_meta(),
    {
        self.0 & 0x04 != 0
    }

    pub fn is_freelist_page(&self) -> (r: bool)
        ensures
            r == self.spec_is_freelist(),
    {
        self.0 & 0x10 != 0
    }
}

/// The name a flag value is rendered with; combined or unknown bit
/// patterns get the generic form.
pub open spec fn spec_page_flag_name(f: PageFlag) -> Seq<char> {
    if f.0 == 0x01 {
        "PageFlag(BranchPageFlag)"@
    } else if f.0 == 0x02 {
        "PageFlag(LeafPageFlag)"@
    } else if f.0 == 0x04 {
        "PageFlag(MetaPageFlag)"@
    } else if f.0 == 0x10 {
        "PageFlag(FreelistPageFlag)"@
    } else {
        "PageFlag(?)"@
    }
}

impl PageFlag {
    /// Renders the flag under its name.
    pub fn to_string(&self) -> (r: String)
        ensures
            r@ == spec_page_flag_name(*self),
    {
        if self.0 == 0x01 {
            String::from_str("PageFlag(BranchPageFlag)")
        } else if self.0 == 0x02 {
            String::from_str("PageFlag(LeafPageFlag)")
        } else if self.0 == 0x04 {
            String::from_str("PageFlag(MetaPageFlag)")
        } else if self.0 == 0x10 {
            String::from_str("PageFlag(FreelistPageFlag)")
        } else {
            String::from_str("PageFlag(?)")
        }
    }
}

/// The fixed 16-byte header at the start of every page.
#[derive(Debug, Clone, Copy, PartialEq, Eq, Structural)]
pub struct PageHeader {
    /// The identifier stored in the page, starting from 0.
    pub id: Pgid,
    /// The page's type bits.
    pub flags: PageFlag,
    /// Number of elements in the page; for a freelist page, 0xFFFF means
    /// the true count is stored in the first 8 bytes after the header.
    pub count: u16,
    /// The page's data continues over this many additional pages.
    pub overflow: u32,
}

/// The page header stored at the start of `s`.
pub open spec fn spec_page_header(s: Seq<u8>) -> PageHeader {
    PageHeader {
        id: Pgid(spec_read_u64(s, 0)),
        flags: PageFlag(spec_read_u16(s, 8) & PAGE_FLAG_MASK),
        count: spec_read_u16(s, 10),
        overflow: spec_read_u32(s, 12),
    }
}

/// The 16-byte image of a page header.
pub open spec fn spec_encode_page_header(h: PageHeader) -> Seq<u8> {
    spec_u64_to_le_bytes(h.id.0) + spec_u16_to_le_bytes(h.flags.0) + spec_u16_to_le_bytes(h.count)
        + spec_u32_to_le_bytes(h.overflow)
}

impl PageHeader {
    /// Decodes the header from the first 16 bytes.
    pub fn decode(data: &[u8]) -> (r: PageHeader)
        requires
            data@.len() >= PAGE_HEADER_SIZE,
        ensures
            r == spec_page_header(data@),
    {
        PageHeader {
            id: Pgid(read_u64(data, 0)),
            flags: PageFlag::from_bits_truncate(read_u16(data, 8)),
            count: read_u16(data, 10),
            overflow: read_u32(data, 12),
        }
    }

    /// Decodes the header, failing when fewer than 16 bytes are given.
    pub fn try_from(data: &[u8]) -> (r: Result<PageHeader, Error>)
        ensures
            data@.len() >= PAGE_HEADER_SIZE ==> r == Ok::<PageHeader, Error>(
                spec_page_header(data@),
            ),
            data@.len() < PAGE_HEADER_SIZE ==> r == Err::<PageHeader, Error>(
                Error::TooSmallData { expect: PAGE_HEADER_SIZE, got: data@.len() as usize },
            ),
    {
        if data.len() < PAGE_HEADER_SIZE {
            return Err(Error::TooSmallData { expect: PAGE_HEADER_SIZE, got: data.len() });
        }
        Ok(Self::decode(data))
    }
}

/// Decoding an encoded page header gives the header back: the image
/// determines the structure.
pub proof fn lemma_page_header_roundtrip(s: Seq<u8>)
    requires
        s.len() >= PAGE_HEADER_SIZE,
    ensures
        spec_encode_page_header(spec_page_header(s)).len() == PAGE_HEADER_SIZE,
        spec_page_header(spec_encode_page_header(spec_page_header(s))) == spec_page_header(s),
{
    lemma_auto_spec_u64_to_from_le_bytes();
    lemma_auto_spec_u32_to_from_le_bytes();
    lemma_auto_spec_u16_to_from_le_bytes();
    let h = spec_page_header(s);
    let e = spec_encode_page_header(h);
    assert(e.subrange(0, 8) =~= spec_u64_to_le_bytes(h.id.0));
    assert(e.subrange(8, 10) =~= spec_u16_to_le_bytes(h.flags.0));
    assert(e.subrange(10, 12) =~= spec_u16_to_le_bytes(h.count));
    assert(e.subrange(12, 16) =~= spec_u32_to_le_bytes(h.overflow));
    let raw = spec_read_u16(s, 8);
    assert((raw & PAGE_FLAG_MASK) & PAGE_FLAG_MASK == raw & PAGE_FLAG_MASK) by (bit_vector);
}

/// A page header depends on the first 16 bytes alone.
pub proof fn lemma_page_header_prefix(s1: Seq<u8>, s2: Seq<u8>)
    requires
        s1.len() >= PAGE_HEADER_SIZE,
        s2.len() >= PAGE_HEADER_SIZE,
        forall|i: int| 0 <= i < PAGE_HEADER_SIZE ==> s1[i] == s2[i],
    ensures
        spec_page_header(s1) == spec_page_header(s2),
{
    assert(s1.subrange(0, 8) =~= s2.subrange(0, 8));
    assert(s1.subrange(8, 10) =~= s2.subrange(8, 10));
    assert(s1.subrange(10, 12) =~= s2.subrange(10, 12));
    assert(s1.subrange(12, 16) =~= s2.subrange(12, 16));
}

/// The global record stored in each of the first two pages.
#[derive(Debug, Clone, Copy, PartialEq, Eq, Structural)]
pub struct Meta {
    /// Must equal `MAGIC_NUMBER`.
    pub magic: u32,
    /// Must equal `DATAFILE_VERSION`.
    pub version: u32,
    /// Size in bytes of each page.
    pub page_size: u32,
    /// The root data page of the database.
    pub root_pgid: Pgid,
    pub root_sequence: u64,
    /// The root freelist page of the database.
    pub freelist_pgid: Pgid,
    /// One past the highest page of the database.
    pub max_pgid: Pgid,
    /// The record with the greater transaction id is authoritative.
    pub txid: u64,
    /// Big-endian FNV-1a-64 of bytes [16, 72) of the page.
    pub checksum: u64,
}

/// The meta record stored in a page buffer `s` (the fields start at
/// byte 16, after the page header).
pub open spec fn spec_meta(s: Seq<u8>) -> Meta {
    Meta {
        magic: spec_read_u32(s, 16),
        version: spec_read_u32(s, 20),
        page_size: spec_read_u32(s, 24),
        root_pgid: Pgid(spec_read_u64(s, 32)),
        root_sequence: spec_read_u64(s, 40),
        freelist_pgid: Pgid(spec_read_u64(s, 48)),
        max_pgid: Pgid(spec_read_u64(s, 56)),
        txid: spec_read_u64(s, 64),
        checksum: spec_read_u64(s, 72),
    }
}

/// An 80-byte page image holding the meta record, with a zeroed page
/// header and a zeroed unused word.
pub open spec fn spec_encode_meta(m: Meta) -> Seq<u8> {
    Seq::new(16, |i: int| 0u8) + spec_u32_to_le_bytes(m.magic) + spec_u32_to_le_bytes(m.version)
        + spec_u32_to_le_bytes(m.page_size) + Seq::new(4, |i: int| 0u8) + spec_u64_to_le_bytes(
        m.root_pgid.0,
    ) + spec_u64_to_le_bytes(m.root_sequence) + spec_u64_to_le_bytes(m.freelist_pgid.0)
        + spec_u64_to_le_bytes(m.max_pgid.0) + spec_u64_to_le_bytes(m.txid) + spec_u64_to_le_bytes(
        m.checksum,
    )
}

/// What validating the meta record in page buffer `s` yields: the record,
/// or the first failing check among length, magic, version and checksum.
pub open spec fn spec_meta_validate(s: Seq<u8>) -> Result<Meta, Error> {
    if s.len() < 80 {
        Err(Error::TooSmallData { expect: 80, got: s.len() as usize })
    } else {
        let m = spec_meta(s);
        let id = spec_page_header(s).id.0;
        if m.magic != MAGIC_NUMBER {
            Err(Error::InvalidPageMagic { expect: MAGIC_NUMBER, got: m.magic, id })
        } else if m.version != DATAFILE_VERSION {
            Err(Error::InvalidPageVersion { expect: DATAFILE_VERSION, got: m.version, id })
        } else if m.checksum != fnv64_of(s.subrange(16, 72)) {
            Err(Error::InvalidPageChecksum {
                expect: fnv64_of(s.subrange(16, 72)),
                got: m.checksum,
                id,
            })
        } else {
            Ok(m)
        }
    }
}

impl Meta {
    /// Decodes the record without validating it, failing only when fewer
    /// than 80 bytes are given.
    pub fn decode(data: &[u8]) -> (r: Result<Meta, Error>)
        ensures
            data@.len() >= 80 ==> r == Ok::<Meta, Error>(spec_meta(data@)),
            data@.len() < 80 ==> r == Err::<Meta, Error>(
                Error::TooSmallData { expect: 80, got: data@.len() as usize },
            ),
    {
        if data.len() < 80 {
            return Err(Error::TooSmallData { expect: 80, got: data.len() });
        }
        Ok(Meta {
            magic: read_u32(data, 16),
            version: read_u32(data, 20),
            page_size: read_u32(data, 24),
            root_pgid: Pgid(read_u64(data, 32)),
            root_sequence: read_u64(data, 40),
            freelist_pgid: Pgid(read_u64(data, 48)),
            max_pgid: Pgid(read_u64(data, 56)),
            txid: read_u64(data, 64),
            checksum: read_u64(data, 72),
        })
    }

    /// Decodes and validates the record: magic, version, and the checksum
    /// over bytes [16, 72) of the page buffer.
    pub fn try_from(data: &[u8]) -> (r: Result<Meta, Error>)
        ensures
            r == spec_meta_validate(data@),
    {
        let m = match Self::decode(data) {
            Ok(m) => m,
            Err(e) => {
                return Err(e);
            },
        };
        let header = PageHeader::decode(data);
        if m.magic != MAGIC_NUMBER {
            return Err(Error::InvalidPageMagic {
                expect: MAGIC_NUMBER,
                got: m.magic,
                id: header.id.0,
            });
        }
        if m.version != DATAFILE_VERSION {
            return Err(Error::InvalidPageVersion {
                expect: DATAFILE_VERSION,
                got: m.version,
                id: header.id.0,
            });
        }
        let actual = fnv64(slice_subrange(data, 16, 72));
        if m.checksum != actual {
            return Err(Error::InvalidPageChecksum {
                expect: actual,
                got: m.checksum,
                id: header.id.0,
            });
        }
        Ok(m)
    }
}

/// A valid meta record stores exactly the big-endian FNV-1a-64 digest of
/// bytes [16, 72) of its page as its checksum.
pub proof fn lemma_meta_checksum(s: Seq<u8>)
    requires
        spec_meta_validate(s) is Ok,
    ensures
        spec_meta(s).checksum == fnv64_of(s.subrange(16, 72)),
{
}

/// Decoding an encoded meta record gives the record back.
pub proof fn lemma_meta_roundtrip(s: Seq<u8>)
    requires
        s.len() >= 80,
    ensures
        spec_encode_meta(spec_meta(s)).len() == 80,
        spec_meta(spec_encode_meta(spec_meta(s))) == spec_meta(s),
{
    lemma_auto_spec_u64_to_from_le_bytes();
    lemma_auto_spec_u32_to_from_le_bytes();
    let m = spec_meta(s);
    let e = spec_encode_meta(m);
    assert(e.subrange(16, 20) =~= spec_u32_to_le_bytes(m.magic));
    assert(e.subrange(20, 24) =~= spec_u32_to_le_bytes(m.version));
    assert(e.subrange(24, 28) =~= spec_u32_to_le_bytes(m.page_size));
    assert(e.subrange(32, 40) =~= spec_u64_to_le_bytes(m.root_pgid.0));
    assert(e.subrange(40, 48) =~= spec_u64_to_le_bytes(m.root_sequence));
    assert(e.subrange(48, 56) =~= spec_u64_to_le_bytes(m.freelist_pgid.0));
    assert(e.subrange(56, 64) =~= spec_u64_to_le_bytes(m.max_pgid.0));
    assert(e.subrange(64, 72) =~= spec_u64_to_le_bytes(m.txid));
    assert(e.subrange(72, 80) =~= spec_u64_to_le_bytes(m.checksum));
}

/// The header of one branch element: where its key lies and which child
/// page it points to.
#[derive(Debug, Clone, Copy, PartialEq, Eq, Structural)]
pub struct BranchElementHeader {
    /// Offset of the key, counted from this element header's position.
    pub pos: u32,
    /// The key's length in bytes.
    pub ksize: u32,
    /// The child page holding keys at or after this key.
    pub pgid: Pgid,
}

/// The branch element header stored at `base` in `s`.
pub open spec fn spec_branch_element_header_at(s: Seq<u8>, base: int) -> BranchElementHeader {
    BranchElementHeader {
        pos: spec_read_u32(s, base),
        ksize: spec_read_u32(s, base + 4),
        pgid: Pgid(spec_read_u64(s, base + 8)),
    }
}

/// The 16-byte image of a branch element header.
pub open spec fn spec_encode_branch_element_header(h: BranchElementHeader) -> Seq<u8> {
    spec_u32_to_le_bytes(h.pos) + spec_u32_to_le_bytes(h.ksize) + spec_u64_to_le_bytes(h.pgid.0)
}

impl BranchElementHeader {
    /// Decodes the header from the first 16 bytes.
    pub fn decode(data: &[u8]) -> (r: BranchElementHeader)
        requires
            data@.len() >= BRANCH_ELEMENT_HEADER_SIZE,
        ensures
            r == spec_branch_element_header_at(data@, 0),
    {
        BranchElementHeader {
            pos: read_u32(data, 0),
            ksize: read_u32(data, 4),
            pgid: Pgid(read_u64(data, 8)),
        }
    }

    /// Decodes the header, failing when fewer than 16 bytes are given.
    pub fn try_from(data: &[u8]) -> (r: Result<BranchElementHeader, Error>)
        ensures
            data@.len() >= BRANCH_ELEMENT_HEADER_SIZE ==> r == Ok::<BranchElementHeader, Error>(
                spec_branch_element_header_at(data@, 0),
            ),
            data@.len() < BRANCH_ELEMENT_HEADER_SIZE ==> r == Err::<BranchElementHeader, Error>(
                Error::TooSmallData {
                    expect: BRANCH_ELEMENT_HEADER_SIZE,
                    got: data@.len() as usize,
                },
            ),
    {
        if data.len() < BRANCH_ELEMENT_HEADER_SIZE {
            return Err(
                Error::TooSmallData { expect: BRANCH_ELEMENT_HEADER_SIZE, got: data.len() },
            );
        }
        Ok(Self::decode(data))
    }
}

/// Decoding an encoded branch element header gives the header back.
pub proof fn lemma_branch_element_header_roundtrip(s: Seq<u8>)
    requires
        s.len() >= BRANCH_ELEMENT_HEADER_SIZE,
    ensures
        spec_encode_branch_element_header(spec_branch_element_header_at(s, 0)).len()
            == BRANCH_ELEMENT_HEADER_SIZE,
        spec_branch_element_header_at(
            spec_encode_branch_element_header(spec_branch_element_header_at(s, 0)),
            0,
        ) == spec_branch_element_header_at(s, 0),
{
    lemma_auto_spec_u64_to_from_le_bytes();
    lemma_auto_spec_u32_to_from_le_bytes();
    let h = spec_branch_element_header_at(s, 0);
    let e = spec_encode_branch_element_header(h);
    assert(e.subrange(0, 4) =~= spec_u32_to_le_bytes(h.pos));
    assert(e.subrange(4, 8) =~= spec_u32_to_le_bytes(h.ksize));
    assert(e.subrange(8, 16) =~= spec_u64_to_le_bytes(h.pgid.0));
}

/// The header of one leaf element: its kind, and where its key and value
/// lie.
#[derive(Debug, Clone, Copy, PartialEq, Eq, Structural)]
pub struct LeafElementHeader {
    /// 1 means the element is a bucket; anything else, a key/value pair.
    pub flags: u32,
    /// Offset of the key, counted from this element header's position.
    pub pos: u32,
    /// The key's length in bytes.
    pub ksize: u32,
    /// The value's length in bytes.
    pub vsize: u32,
}

/// The leaf element header stored at `base` in `s`.
pub open spec fn spec_leaf_element_header_at(s: Seq<u8>, base: int) -> LeafElementHeader {
    LeafElementHeader {
        flags: spec_read_u32(s, base),
        pos: spec_read_u32(s, base + 4),
        ksize: spec_read_u32(s, base + 8),
        vsize: spec_read_u32(s, base + 12),
    }
}

/// The 16-byte image of a leaf element header.
pub open spec fn spec_encode_leaf_element_header(h: LeafElementHeader) -> Seq<u8> {
    spec_u32_to_le_bytes(h.flags) + spec_u32_to_le_bytes(h.pos) + spec_u32_to_le_bytes(h.ksize)
        + spec_u32_to_le_bytes(h.vsize)
}

impl LeafElementHeader {
    /// Decodes the header from the first 16 bytes.
    pub fn decode(data: &[u8]) -> (r: LeafElementHeader)
        requires
            data@.len() >= LEAF_ELEMENT_HEADER_SIZE,
        ensures
            r == spec_leaf_element_header_at(data@, 0),
    {
        LeafElementHeader {
            flags: read_u32(data, 0),
            pos: read_u32(data, 4),
            ksize: read_u32(data, 8),
            vsize: read_u32(data, 12),
        }
    }

    /// Decodes the header, failing when fewer than 16 bytes are given.
    pub fn try_from(data: &[u8]) -> (r: Result<LeafElementHeader, Error>)
        ensures
            data@.len() >= LEAF_ELEMENT_HEADER_SIZE ==> r == Ok::<LeafElementHeader, Error>(
                spec_leaf_element_header_at(data@, 0),
            ),
            data@.len() < LEAF_ELEMENT_HEADER_SIZE ==> r == Err::<LeafElementHeader, Error>(
                Error::TooSmallData { expect: LEAF_ELEMENT_HEADER_SIZE, got: data@.len() as usize },
            ),
    {
        if data.len() < LEAF_ELEMENT_HEADER_SIZE {
            return Err(Error::TooSmallData { expect: LEAF_ELEMENT_HEADER_SIZE, got: data.len() });
        }
        Ok(Self::decode(data))
    }

    /// True when the element is a bucket entry.
    pub fn is_bucket(&self) -> (r: bool)
        ensures
            r == (self.flags == 1),
    {
        self.flags == 0x01
    }
}

/// Decoding an encoded leaf element header gives the header back.
pub proof fn lemma_leaf_element_header_roundtrip(s: Seq<u8>)
    requires
        s.len() >= LEAF_ELEMENT_HEADER_SIZE,
    ensures
        spec_encode_leaf_element_header(spec_leaf_element_header_at(s, 0)).len()
            == LEAF_ELEMENT_HEADER_SIZE,
        spec_leaf_element_header_at(
            spec_encode_leaf_element_header(spec_leaf_element_header_at(s, 0)),
            0,
        ) == spec_leaf_element_header_at(s, 0),
{
    lemma_auto_spec_u32_to_from_le_bytes();
    let h = spec_leaf_element_header_at(s, 0);
    let e = spec_encode_leaf_element_header(h);
    assert(e.subrange(0, 4) =~= spec_u32_to_le_bytes(h.flags));
    assert(e.subrange(4, 8) =~= spec_u32_to_le_bytes(h.pos));
    assert(e.subrange(8, 12) =~= spec_u32_to_le_bytes(h.ksize));
    assert(e.subrange(12, 16) =~= spec_u32_to_le_bytes(h.vsize));
}

/// The on-file record stored as a bucket key's value: the bucket's root
/// page, or 0 when the bucket is stored inline after this record.
#[derive(Debug, Clone, Copy, PartialEq, Eq, Structural)]
pub struct BucketHeader {
    /// The bucket's root-level page; 0 for an inline bucket.
    pub root: Pgid,
    pub sequence: u64,
}

/// The bucket header stored at `base` in `s`.
pub open spec fn spec_bucket_header_at(s: Seq<u8>, base: int) -> BucketHeader {
    BucketHeader { root: Pgid(spec_read_u64(s, base)), sequence: spec_read_u64(s, base + 8) }
}

/// The 16-byte image of a bucket header.
pub open spec fn spec_encode_bucket_header(h: BucketHeader) -> Seq<u8> {
    spec_u64_to_le_bytes(h.root.0) + spec_u64_to_le_bytes(h.sequence)
}

impl BucketHeader {
    /// Decodes the header from the first 16 bytes.
    pub fn decode(data: &[u8]) -> (r: BucketHeader)
        requires
            data@.len() >= BUCKET_HEADER_SIZE,
        ensures
            r == spec_bucket_header_at(data@, 0),
    {
        BucketHeader { root: Pgid(read_u64(data, 0)), sequence: read_u64(data, 8) }
    }

    /// Decodes the header, failing when fewer than 16 bytes are given.
    pub fn try_from(data: &[u8]) -> (r: Result<BucketHeader, Error>)
        ensures
            data@.len() >= BUCKET_HEADER_SIZE ==> r == Ok::<BucketHeader, Error>(
                spec_bucket_header_at(data@, 0),
            ),
            data@.len() < BUCKET_HEADER_SIZE ==> r == Err::<BucketHeader, Error>(
                Error::TooSmallData { expect: BUCKET_HEADER_SIZE, got: data@.len() as usize },
            ),
    {
        if data.len() < BUCKET_HEADER_SIZE {
            return Err(Error::TooSmallData { expect: BUCKET_HEADER_SIZE, got: data.len() });
        }
        Ok(Self::decode(data))
    }

    /// True when the bucket's contents are stored inline after this
    /// header.
    pub fn is_inline(self) -> (r: bool)
        ensures
            r == (self.root.0 == 0),
    {
        self.root.0 == 0
    }
}

/// Decoding an encoded bucket header gives the header back.
pub proof fn lemma_bucket_header_roundtrip(s: Seq<u8>)
    requires
        s.len() >= BUCKET_HEADER_SIZE,
    ensures
        spec_encode_bucket_header(spec_bucket_header_at(s, 0)).len() == BUCKET_HEADER_SIZE,
        spec_bucket_header_at(spec_encode_bucket_header(spec_bucket_header_at(s, 0)), 0)
            == spec_bucket_header_at(s, 0),
{
    lemma_auto_spec_u64_to_from_le_bytes();
    let h = spec_bucket_header_at(s, 0);
    let e = spec_encode_bucket_header(h);
    assert(e.subrange(0, 8) =~= spec_u64_to_le_bytes(h.root.0));
    assert(e.subrange(8, 16) =~= spec_u64_to_le_bytes(h.sequence));
}

} // verus!
