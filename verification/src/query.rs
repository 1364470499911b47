//! The computational core of the tabular query layer: projecting page
//! records into columns, materializing bucket rows, batching the page
//! stream, and the unreachable-page report.

use vstd::prelude::*;
use vstd::slice::slice_to_vec;
use crate::db::{Bucket, PageInfo, PageIterItem, PageIterator, PageType};
use crate::errors::DatabaseError;
use crate::db::{spec_page_step, spec_read_page};

verus! {

/// Rows per batch served to the query engine.
pub const BATCH_SIZE: usize = 1024;

/// The name a page's classification is rendered with.
pub open spec fn spec_page_type_name(t: PageType) -> Seq<char> {
    match t {
        PageType::Meta => "Meta"@,
        PageType::DataLeaf => "DataLeaf"@,
        PageType::DataBranch => "DataBranch"@,
        PageType::Freelist => "Freelist"@,
        PageType::Free => "Free"@,
    }
}

/// Renders a page's classification.
pub fn page_type_name(t: PageType) -> (r: String)
    ensures
        r@ == spec_page_type_name(t),
{
    match t {
        PageType::Meta => String::from_str("Meta"),
        PageType::DataLeaf => String::from_str("DataLeaf"),
        PageType::DataBranch => String::from_str("DataBranch"),
        PageType::Freelist => String::from_str("Freelist"),
        PageType::Free => String::from_str("Free"),
    }
}

/// One column of the `pages` relation, in the schema's order: id, type
/// name, overflow, capacity, used, parent page id.
#[derive(Debug, Clone, PartialEq, Eq)]
pub enum PageColumn {
    Id(Vec<u64>),
    Typ(Vec<String>),
    Overflow(Vec<u64>),
    Capacity(Vec<u64>),
    Used(Vec<u64>),
    Parent(Vec<Option<u64>>),
}

/// Whether `col` is the column of `batch` that schema position `idx`
/// asks for, value for value.
pub open spec fn spec_col_ok(batch: Seq<PageInfo>, idx: int, col: PageColumn) -> bool {
    if idx == 0 {
        col matches PageColumn::Id(v) && v@ == batch.map_values(|p: PageInfo| p.id)
    } else if idx == 1 {
        col matches PageColumn::Typ(v) && v@.len() == batch.len() && (forall|j: int|
            0 <= j < batch.len() ==> (#[trigger] v@[j])@ == spec_page_type_name(batch[j].typ))
    } else if idx == 2 {
        col matches PageColumn::Overflow(v) && v@ == batch.map_values(|p: PageInfo| p.overflow)
    } else if idx == 3 {
        col matches PageColumn::Capacity(v) && v@ == batch.map_values(|p: PageInfo| p.capacity)
    } else if idx == 4 {
        col matches PageColumn::Used(v) && v@ == batch.map_values(|p: PageInfo| p.used)
    } else if idx == 5 {
        col matches PageColumn::Parent(v) && v@ == batch.map_values(
            |p: PageInfo| p.parent_page_id,
        )
    } else {
        false
    }
}

/// Builds exactly the requested columns of the `pages` relation, in the
/// requested order; an index outside the schema is refused.
pub fn build_page_columns(batch: &Vec<PageInfo>, projection: &Vec<usize>) -> (r: Result<
    Vec<PageColumn>,
    DatabaseError,
>)
    ensures
        match r {
            Ok(cols) => {
                &&& cols@.len() == projection@.len()
                &&& forall|i: int|
                    0 <= i < projection@.len() ==> spec_col_ok(
                        batch@,
                        projection@[i] as int,
                        #[trigger] cols@[i],
                    )
            },
            Err(e) => (exists|i: int|
                0 <= i < projection@.len() && #[trigger] projection@[i] > 5) && e
                == DatabaseError::InvalidData("unknown column"),
        },
{
    let mut cols: Vec<PageColumn> = Vec::new();
    let np = projection.len();
    let nb = batch.len();
    let mut i: usize = 0;
    while i < np
        invariant
            i <= np,
            np == projection@.len(),
            nb == batch@.len(),
            cols@.len() == i as int,
            forall|t: int|
                0 <= t < i ==> spec_col_ok(batch@, projection@[t] as int, #[trigger] cols@[t]),
        decreases np - i,
    {
        let idx = projection[i];
        if idx > 5 {
            return Err(DatabaseError::InvalidData("unknown column"));
        }
        let mut ids: Vec<u64> = Vec::new();
        let mut typs: Vec<String> = Vec::new();
        let mut parents: Vec<Option<u64>> = Vec::new();
        let mut j: usize = 0;
        while j < nb
            invariant
                j <= nb,
                nb == batch@.len(),
                idx <= 5,
                ids@.len() == j as int,
                typs@.len() == j as int,
                parents@.len() == j as int,
                forall|t: int|
                    0 <= t < j ==> #[trigger] ids@[t] == (if idx == 0 {
                        batch@[t].id
                    } else if idx == 2 {
                        batch@[t].overflow
                    } else if idx == 3 {
                        batch@[t].capacity
                    } else if idx == 4 {
                        batch@[t].used
                    } else {
                        0u64
                    }),
                forall|t: int|
                    0 <= t < j ==> (#[trigger] typs@[t])@ == spec_page_type_name(batch@[t].typ),
                forall|t: int|
                    0 <= t < j ==> #[trigger] parents@[t] == batch@[t].parent_page_id,
            decreases nb - j,
        {
            let p = &batch[j];
            if idx == 0 {
                ids.push(p.id);
            } else if idx == 2 {
                ids.push(p.overflow);
            } else if idx == 3 {
                ids.push(p.capacity);
            } else if idx == 4 {
                ids.push(p.used);
            } else {
                ids.push(0);
            }
            typs.push(page_type_name(p.typ));
            parents.push(p.parent_page_id);
            j = j + 1;
        }
        let col = if idx == 0 {
            PageColumn::Id(ids)
        } else if idx == 1 {
            PageColumn::Typ(typs)
        } else if idx == 2 {
            PageColumn::Overflow(ids)
        } else if idx == 3 {
            PageColumn::Capacity(ids)
        } else if idx == 4 {
            PageColumn::Used(ids)
        } else {
            PageColumn::Parent(parents)
        };
        proof {
            if idx == 0 {
                assert(ids@ =~= batch@.map_values(|p: PageInfo| p.id));
            } else if idx == 2 {
                assert(ids@ =~= batch@.map_values(|p: PageInfo| p.overflow));
            } else if idx == 3 {
                assert(ids@ =~= batch@.map_values(|p: PageInfo| p.capacity));
            } else if idx == 4 {
                assert(ids@ =~= batch@.map_values(|p: PageInfo| p.used));
            } else if idx == 5 {
                assert(parents@ =~= batch@.map_values(|p: PageInfo| p.parent_page_id));
            }
        }
        cols.push(col);
        i = i + 1;
    }
    Ok(cols)
}

/// What one call that fills a batch from the page iterator yields: up to
/// `n` records, the advanced work list, and the error that cut the
/// batch short, if any.
pub open spec fn spec_page_batch(s: Seq<u8>, ps: int, stack: Seq<PageIterItem>, n: nat) -> (
    Seq<PageIterItem>,
    Seq<PageInfo>,
    Option<DatabaseError>,
)
    decreases n,
{
    if n == 0 || stack.len() == 0 {
        (stack, Seq::empty(), None)
    } else {
        let (res, children) = spec_page_step(s, ps, stack[0]);
        let st1 = stack.drop_first() + children;
        match res {
            Err(e) => (st1, Seq::empty(), Some(e)),
            Ok(info) => {
                let (st2, rest, err) = spec_page_batch(s, ps, st1, (n - 1) as nat);
                (st2, seq![info] + rest, err)
            },
        }
    }
}

/// Fills the next batch of the page stream: up to `BATCH_SIZE` records,
/// fewer when `limit` caps the stream. `None` ends the stream; an error
/// from the walk ends the batch and is surfaced instead of it.
#[verifier::rlimit(50)]
pub fn next_pages_batch<'a>(
    iter: &mut PageIterator<'a>,
    processed: &mut usize,
    limit: Option<usize>,
) -> (r: Option<Result<Vec<PageInfo>, DatabaseError>>)
    requires
        old(iter).wf(),
        limit is None ==> *old(processed) <= usize::MAX - BATCH_SIZE,
    ensures
        final(iter).wf(),
        final(iter).spec_db() == old(iter).spec_db(),
        limit matches Some(l) && *old(processed) >= l ==> r is None && *final(processed)
            == *old(processed) && final(iter).spec_stack() == old(iter).spec_stack(),
        !(limit matches Some(l) && *old(processed) >= l) ==> ({
            let n: nat = match limit {
                Some(l) => if l - *old(processed) < BATCH_SIZE {
                    (l - *old(processed)) as nat
                } else {
                    BATCH_SIZE as nat
                },
                None => BATCH_SIZE as nat,
            };
            let (stf, infos, err) = spec_page_batch(
                old(iter).spec_db().spec_data(),
                old(iter).spec_db().spec_page_size() as int,
                old(iter).spec_stack(),
                n,
            );
            &&& final(iter).spec_stack() == stf
            &&& (match (r, err) {
                (Some(Err(e)), Some(ev)) => e == ev,
                (None, None) => infos.len() == 0 && *final(processed) == *old(processed),
                (Some(Ok(batch)), None) => batch@ == infos && infos.len() > 0 && *final(processed)
                    == *old(processed) + infos.len(),
                _ => false,
            })
        }),
{
    let ghost s = iter.spec_db().spec_data();
    let ghost ps = iter.spec_db().spec_page_size() as int;
    let ghost st0 = iter.spec_stack();
    let batch_size: usize = match limit {
        Some(l) => {
            if *processed >= l {
                return None;
            }
            if l - *processed < BATCH_SIZE {
                l - *processed
            } else {
                BATCH_SIZE
            }
        },
        None => BATCH_SIZE,
    };
    let mut batch: Vec<PageInfo> = Vec::new();
    let mut k: usize = 0;
    loop
        invariant
            iter.wf(),
            iter.spec_db() == old(iter).spec_db(),
            st0 == old(iter).spec_stack(),
            s == iter.spec_db().spec_data(),
            ps == iter.spec_db().spec_page_size() as int,
            *processed == *old(processed),
            !(limit matches Some(l) && *old(processed) >= l),
            limit is None ==> *old(processed) <= usize::MAX - BATCH_SIZE,
            batch_size as nat == (match limit {
                Some(l) => if l - *old(processed) < BATCH_SIZE {
                    (l - *old(processed)) as nat
                } else {
                    BATCH_SIZE as nat
                },
                None => BATCH_SIZE as nat,
            }),
            k <= batch_size,
            batch@.len() == k as int,
            ({
                let (stf, infos, err) = spec_page_batch(
                    s,
                    ps,
                    iter.spec_stack(),
                    (batch_size - k) as nat,
                );
                spec_page_batch(s, ps, st0, batch_size as nat) == (
                    stf,
                    batch@ + infos,
                    err,
                )
            }),
        ensures
            iter.wf(),
            iter.spec_db() == old(iter).spec_db(),
            *processed == *old(processed),
            batch@.len() <= batch_size,
            spec_page_batch(s, ps, st0, batch_size as nat) == (
                iter.spec_stack(),
                batch@,
                None::<DatabaseError>,
            ),
        decreases batch_size - k,
    {
        if k == batch_size {
            proof {
                assert(batch@ + Seq::<PageInfo>::empty() =~= batch@);
            }
            break;
        }
        let ghost st_pre = iter.spec_stack();
        match iter.next() {
            None => {
                proof {
                    assert(batch@ + Seq::<PageInfo>::empty() =~= batch@);
                }
                break;
            },
            Some(Err(e)) => {
                proof {
                    assert(batch@ + Seq::<PageInfo>::empty() =~= batch@);
                }
                return Some(Err(e));
            },
            Some(Ok(info)) => {
                let ghost pre = batch@;
                batch.push(info);
                proof {
                    let (stf, infos, err) = spec_page_batch(
                        s,
                        ps,
                        iter.spec_stack(),
                        (batch_size - k - 1) as nat,
                    );
                    assert(pre + (seq![info] + infos) =~= batch@ + infos);
                }
                k = k + 1;
            },
        }
    }
    if batch.len() == 0 {
        None
    } else {
        *processed = *processed + batch.len();
        Some(Ok(batch))
    }
}

/// The decimal digit `d` as an ASCII byte.
pub open spec fn spec_digit_byte(d: int) -> u8 {
    (48 + d) as u8
}

/// The decimal representation of `v` as ASCII bytes, most significant
/// digit first.
pub open spec fn spec_u64_decimal_bytes(v: int) -> Seq<u8>
    decreases v,
{
    if v < 10 {
        seq![spec_digit_byte(v)]
    } else {
        spec_u64_decimal_bytes(v / 10).push(spec_digit_byte(v % 10))
    }
}

/// The decimal representation of `v` as ASCII bytes.
pub fn u64_decimal_bytes(v: u64) -> (r: Vec<u8>)
    ensures
        r@ == spec_u64_decimal_bytes(v as int),
    decreases v,
{
    if v < 10 {
        let mut r: Vec<u8> = Vec::new();
        r.push(48 + (v as u8));
        proof {
            assert(r@ =~= seq![spec_digit_byte(v as int)]);
        }
        r
    } else {
        let mut r = u64_decimal_bytes(v / 10);
        r.push(48 + ((v % 10) as u8));
        r
    }
}

/// The row identifier of a bucket: its name, a slash, and its page id
/// in decimal.
pub open spec fn spec_bucket_id(name: Seq<u8>, page_id: u64) -> Seq<u8> {
    name + seq![47u8] + spec_u64_decimal_bytes(page_id as int)
}

/// One row of the `buckets` relation.
#[derive(Debug, Clone, PartialEq, Eq)]
pub struct BucketRow {
    /// `name/page_id`, the row's identifier.
    pub id: Vec<u8>,
    pub name: Vec<u8>,
    pub page_id: u64,
    pub is_inline: bool,
    pub depth: u64,
    /// The enclosing bucket's name; `None` for a root bucket.
    pub parent_name: Option<Vec<u8>>,
}

/// Whether `row` renders `b`.
pub open spec fn spec_bucket_row_ok(b: crate::db::BucketV, row: BucketRow) -> bool {
    &&& row.id@ == spec_bucket_id(b.name, b.page_id)
    &&& row.name@ == b.name
    &&& row.page_id == b.page_id
    &&& row.is_inline == b.is_inline
    &&& row.depth == b.depth
    &&& (match row.parent_name {
        Some(p) => b.parent_bucket.len() > 0 && p@ == b.parent_bucket,
        None => b.parent_bucket.len() == 0,
    })
}

/// Materializes the `buckets` relation: one row per bucket, in walk
/// order.
pub fn build_bucket_rows(buckets: &Vec<Bucket>) -> (r: Vec<BucketRow>)
    ensures
        r@.len() == buckets@.len(),
        forall|i: int|
            0 <= i < buckets@.len() ==> spec_bucket_row_ok(buckets@[i]@, #[trigger] r@[i]),
{
    let n = buckets.len();
    let mut rows: Vec<BucketRow> = Vec::new();
    let mut i: usize = 0;
    while i < n
        invariant
            i <= n,
            n == buckets@.len(),
            rows@.len() == i as int,
            forall|t: int|
                0 <= t < i ==> spec_bucket_row_ok(buckets@[t]@, #[trigger] rows@[t]),
        decreases n - i,
    {
        let b = &buckets[i];
        let mut id: Vec<u8> = slice_to_vec(b.name.as_slice());
        id.push(47);
        let mut digits = u64_decimal_bytes(b.page_id);
        id.append(&mut digits);
        let parent_name: Option<Vec<u8>> = if b.parent_bucket.len() == 0 {
            None
        } else {
            Some(slice_to_vec(b.parent_bucket.as_slice()))
        };
        let row = BucketRow {
            id,
            name: slice_to_vec(b.name.as_slice()),
            page_id: b.page_id,
            is_inline: b.is_inline,
            depth: b.depth,
            parent_name,
        };
        proof {
            assert(row.id@ =~= spec_bucket_id(b@.name, b@.page_id));
        }
        rows.push(row);
        i = i + 1;
    }
    rows
}

/// Whether some reachable page has id `id`.
pub open spec fn spec_known_page(pages: Seq<PageInfo>, id: u64) -> bool {
    exists|j: int| 0 <= j < pages.len() && (#[trigger] pages[j]).id == id
}

/// Decides whether a page id occurs in a reachable-page listing.
fn contains_page_id(pages: &Vec<PageInfo>, id: u64) -> (r: bool)
    ensures
        r == spec_known_page(pages@, id),
{
    let n = pages.len();
    let mut j: usize = 0;
    while j < n
        invariant
            j <= n,
            n == pages@.len(),
            forall|t: int| 0 <= t < j ==> (#[trigger] pages@[t]).id != id,
        decreases n - j,
    {
        if pages[j].id == id {
            return true;
        }
        j = j + 1;
    }
    false
}

/// The ids in `[0, max_pgid)` that the reachable-page walk never
/// reported, in ascending order.
pub fn unreachable_pages(pages: &Vec<PageInfo>, max_pgid: u64) -> (r: Vec<u64>)
    ensures
        forall|k: int|
            0 <= k < r@.len() ==> #[trigger] r@[k] < max_pgid && !spec_known_page(pages@, r@[k]),
        forall|id: u64|
            id < max_pgid && !spec_known_page(pages@, id) ==> r@.contains(id),
        forall|k: int| 0 <= k && k + 1 < r@.len() ==> #[trigger] r@[k] < r@[k + 1],
{
    let mut r: Vec<u64> = Vec::new();
    let mut id: u64 = 0;
    while id < max_pgid
        invariant
            id <= max_pgid,
            forall|k: int|
                0 <= k < r@.len() ==> #[trigger] r@[k] < id && !spec_known_page(pages@, r@[k]),
            forall|x: u64| x < id && !spec_known_page(pages@, x) ==> r@.contains(x),
            forall|k: int| 0 <= k && k + 1 < r@.len() ==> #[trigger] r@[k] < r@[k + 1],
        decreases max_pgid - id,
    {
        if !contains_page_id(pages, id) {
            let ghost pre = r@;
            r.push(id);
            proof {
                assert(r@ =~= pre.push(id));
                assert forall|x: u64| pre.contains(x) implies r@.contains(x) by {
                    let j = choose|j: int| 0 <= j < pre.len() && pre[j] == x;
                    assert(r@[j] == x);
                }
                assert(r@[pre.len() as int] == id);
                assert(r@.contains(id));
            }
        }
        id = id + 1;
    }
    r
}

/// One node of the bucket tree: a bucket and the buckets nested in it.
#[derive(Debug, PartialEq, Eq)]
pub struct BucketTreeNode {
    pub bucket: Bucket,
    pub children: Vec<BucketTreeNode>,
}

/// The pre-order flattening of a forest of bucket nodes.
pub open spec fn spec_flatten_forest(nodes: Seq<BucketTreeNode>) -> Seq<crate::db::BucketV>
    decreases nodes,
{
    if nodes.len() == 0 {
        Seq::empty()
    } else {
        spec_flatten_node(nodes[0]) + spec_flatten_forest(nodes.subrange(1, nodes.len() as int))
    }
}

/// The pre-order flattening of one bucket node.
pub open spec fn spec_flatten_node(n: BucketTreeNode) -> Seq<crate::db::BucketV>
    decreases n,
{
    seq![n.bucket@] + spec_flatten_forest(n.children@)
}

/// Flattening distributes over appending a node to a forest.
proof fn lemma_flatten_push(nodes: Seq<BucketTreeNode>, x: BucketTreeNode)
    ensures
        spec_flatten_forest(nodes.push(x)) == spec_flatten_forest(nodes) + spec_flatten_node(x),
    decreases nodes,
{
    if nodes.len() == 0 {
        assert(nodes.push(x).subrange(1, 1) =~= Seq::<BucketTreeNode>::empty());
        assert(nodes.push(x)[0] == x);
        assert(spec_flatten_forest(nodes.push(x).subrange(1, 1)) =~= Seq::<
            crate::db::BucketV,
        >::empty());
        assert(spec_flatten_node(x) + Seq::<crate::db::BucketV>::empty() =~= spec_flatten_node(
            x,
        ));
        assert(spec_flatten_forest(nodes.push(x)) =~= spec_flatten_node(x));
        assert(spec_flatten_forest(nodes) + spec_flatten_node(x) =~= spec_flatten_node(x));
    } else {
        lemma_flatten_push(nodes.subrange(1, nodes.len() as int), x);
        assert(nodes.push(x).subrange(1, nodes.len() as int + 1) =~= nodes.subrange(
            1,
            nodes.len() as int,
        ).push(x));
        assert(nodes.push(x)[0] == nodes[0]);
        assert(spec_flatten_forest(nodes.push(x)) =~= spec_flatten_forest(nodes)
            + spec_flatten_node(x));
    }
}

/// Copies a bucket descriptor.
fn clone_bucket(b: &Bucket) -> (r: Bucket)
    ensures
        r@ == b@,
{
    Bucket {
        parent_bucket: slice_to_vec(b.parent_bucket.as_slice()),
        page_id: b.page_id,
        is_inline: b.is_inline,
        name: slice_to_vec(b.name.as_slice()),
        depth: b.depth,
    }
}

/// Builds the sub-forest of buckets at `depth` starting at `start`:
/// each bucket at that depth takes the following deeper run as its
/// children; the run ends at the first bucket whose depth differs.
fn build_forest(buckets: &Vec<Bucket>, start: usize, depth: u64) -> (r: (
    Vec<BucketTreeNode>,
    usize,
))
    requires
        start <= buckets@.len(),
    ensures
        start <= r.1 <= buckets@.len(),
        spec_flatten_forest(r.0@) == buckets@.map_values(|b: Bucket| b@).subrange(
            start as int,
            r.1 as int,
        ),
        r.1 < buckets@.len() ==> buckets@[r.1 as int]@.depth != depth,
    decreases buckets@.len() - start,
{
    let ghost flat = buckets@.map_values(|b: Bucket| b@);
    let n = buckets.len();
    let mut nodes: Vec<BucketTreeNode> = Vec::new();
    let mut i = start;
    while i < n && buckets[i].depth == depth
        invariant
            start <= i <= n,
            n == buckets@.len(),
            flat == buckets@.map_values(|b: Bucket| b@),
            spec_flatten_forest(nodes@) == flat.subrange(start as int, i as int),
        decreases n - i,
    {
        let bucket = clone_bucket(&buckets[i]);
        let next = i + 1;
        let (children, consumed) = if depth < u64::MAX {
            build_forest(buckets, next, depth + 1)
        } else {
            // Depths are bounded by u64, so nothing can lie one level
            // deeper than the maximum.
            (Vec::new(), next)
        };
        let ghost pre = nodes@;
        let node = BucketTreeNode { bucket, children };
        nodes.push(node);
        proof {
            lemma_flatten_push(pre, node);
            assert(flat[i as int] == buckets@[i as int]@);
            if depth >= u64::MAX {
                assert(Seq::<BucketTreeNode>::empty().subrange(0, 0)
                    =~= Seq::<BucketTreeNode>::empty());
                assert(spec_flatten_forest(node.children@) =~= flat.subrange(
                    next as int,
                    consumed as int,
                ));
            }
            assert(spec_flatten_node(node) =~= flat.subrange(i as int, consumed as int));
            assert(spec_flatten_forest(nodes@) =~= flat.subrange(start as int, consumed as int));
        }
        i = consumed;
    }
    (nodes, i)
}

/// Groups the bucket walk's depth-annotated pre-order into a tree:
/// flattening the result gives back exactly the grouped prefix of the
/// input, and grouping stops at the first entry that is not a root.
pub fn bucket_tree(buckets: &Vec<Bucket>) -> (r: (Vec<BucketTreeNode>, usize))
    ensures
        r.1 <= buckets@.len(),
        spec_flatten_forest(r.0@) == buckets@.map_values(|b: Bucket| b@).subrange(0, r.1 as int),
        r.1 < buckets@.len() ==> buckets@[r.1 as int]@.depth != 0,
{
    build_forest(buckets, 0, 0)
}

} // verus!
