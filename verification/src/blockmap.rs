//! The basic-block address map of an executable: for each machine basic
//! block its address range, the offset of the function that holds it and
//! the index of the IR block it was compiled from.

use crate::stackmap::le_u64;
use intervaltree::IntervalTree;
use vstd::arithmetic::power2::pow2;
use vstd::prelude::*;
use vstd::relations::{sorted_by, total_ordering};

verus! {

/// Says that no IR block corresponds to a machine basic block.
pub const NO_BB: u64 = u64::MAX;

/// Why a block-map section was rejected.
#[derive(Debug, Clone, Copy, PartialEq, Eq, Structural)]
pub enum BlockMapError {
    /// The section ends inside a function's offset.
    UnexpectedEnd,
    /// A LEB128 number is cut short or does not fit 64 bits.
    BadLeb128,
    /// A block's range leaves the 64-bit address space.
    AddressOverflow,
}

/// One machine basic block: it covers the offsets `lo..hi`.
#[derive(Debug, Clone, Copy, PartialEq, Eq, Structural)]
pub struct BlockMapEntry {
    /// Offset of the block's first byte.
    pub lo: u64,
    /// Offset after the block's last byte.
    pub hi: u64,
    /// Function offset.
    pub f_off: u64,
    /// Basic block number or NO_BB if there is no corresponding block.
    pub bb: u64,
}

// ---------------------------------------------------------------------
// The section's format
// ---------------------------------------------------------------------

/// The unsigned LEB128 number that starts at `p`, its lowest bit worth
/// `2^shift`, and the position after it. Each byte gives seven bits, the
/// least significant first; a set top bit says that another byte follows.
/// There is no number where the bytes run out or where a tenth byte would
/// give more than the one bit that is left of 64.
pub open spec fn spec_uleb128(d: Seq<u8>, p: int, shift: nat) -> Option<(nat, int)>
    decreases d.len() - p,
{
    if p < 0 || p >= d.len() {
        None
    } else if shift == 63 && d[p] > 1 {
        None
    } else if d[p] < 128 {
        Some((d[p] as nat * pow2(shift), p + 1))
    } else {
        match spec_uleb128(d, p + 1, shift + 7) {
            None => None,
            Some((v, q)) => Some(((d[p] - 128) as nat * pow2(shift) + v, q)),
        }
    }
}

/// The block description that starts at `p` in the list of the function
/// at `f_off`: the block's offset in the function, its size, one byte of
/// metadata and its IR block index.
pub open spec fn spec_block(d: Seq<u8>, p: int, f_off: u64) -> Result<
    (BlockMapEntry, int),
    BlockMapError,
> {
    match spec_uleb128(d, p, 0) {
        None => Err(BlockMapError::BadLeb128),
        Some((b_off, q1)) => match spec_uleb128(d, q1, 0) {
            None => Err(BlockMapError::BadLeb128),
            Some((b_sz, q2)) => match spec_uleb128(d, q2 + 1, 0) {
                None => Err(BlockMapError::BadLeb128),
                Some((b_idx, q3)) => if f_off + b_off as u64 + b_sz as u64 > u64::MAX {
                    Err(BlockMapError::AddressOverflow)
                } else {
                    Ok(
                        (
                            BlockMapEntry {
                                lo: (f_off + b_off as u64) as u64,
                                hi: (f_off + b_off as u64 + b_sz as u64) as u64,
                                f_off,
                                bb: b_idx as u64,
                            },
                            q3,
                        ),
                    )
                },
            },
        },
    }
}

/// The first `n` block descriptions of the list that starts at `p`, and
/// the position after them.
pub open spec fn spec_blocks(d: Seq<u8>, p: int, f_off: u64, n: nat) -> Result<
    (Seq<BlockMapEntry>, int),
    BlockMapError,
>
    decreases n,
{
    if n == 0 {
        Ok((Seq::empty(), p))
    } else {
        match spec_blocks(d, p, f_off, (n - 1) as nat) {
            Err(e) => Err(e),
            Ok((s, q)) => match spec_block(d, q, f_off) {
                Err(e) => Err(e),
                Ok((b, q2)) => Ok((s.push(b), q2)),
            },
        }
    }
}

/// One function's part of the section, which starts at `p`: the
/// function's offset in eight bytes, the number of its blocks, and the
/// blocks.
pub open spec fn spec_function_blocks(d: Seq<u8>, p: int) -> Result<
    (Seq<BlockMapEntry>, int),
    BlockMapError,
> {
    if p + 8 > d.len() {
        Err(BlockMapError::UnexpectedEnd)
    } else {
        match spec_uleb128(d, p + 8, 0) {
            None => Err(BlockMapError::BadLeb128),
            Some((n, q)) => spec_blocks(d, q, le_u64(d, p), n as u64 as nat),
        }
    }
}

/// The blocks of all the functions from `p` to the end of the section.
pub open spec fn spec_block_map(d: Seq<u8>, p: int) -> Result<Seq<BlockMapEntry>, BlockMapError>
    decreases d.len() - p,
{
    if p >= d.len() {
        Ok(Seq::empty())
    } else {
        match spec_function_blocks(d, p) {
            Err(e) => Err(e),
            Ok((bs, q)) => if q <= p || q > d.len() {
                // Never so: see `lemma_function_blocks_advance`.
                Ok(bs)
            } else {
                match spec_block_map(d, q) {
                    Err(e) => Err(e),
                    Ok(rest) => Ok(bs + rest),
                }
            },
        }
    }
}

/// A LEB128 number takes at least one byte and ends inside the section.
pub proof fn lemma_uleb128_advance(d: Seq<u8>, p: int, shift: nat)
    ensures
        spec_uleb128(d, p, shift) matches Some((_, q)) ==> p < q <= d.len(),
    decreases d.len() - p,
{
    if 0 <= p < d.len() && d[p] >= 128 && !(shift == 63 && d[p] > 1) {
        lemma_uleb128_advance(d, p + 1, shift + 7);
    }
}

/// A block description ends inside the section, after where it starts.
pub proof fn lemma_block_advance(d: Seq<u8>, p: int, f_off: u64)
    ensures
        spec_block(d, p, f_off) matches Ok((_, q)) ==> p < q <= d.len(),
{
    lemma_uleb128_advance(d, p, 0);
    if let Some((_, q1)) = spec_uleb128(d, p, 0) {
        lemma_uleb128_advance(d, q1, 0);
        if let Some((_, q2)) = spec_uleb128(d, q1, 0) {
            lemma_uleb128_advance(d, q2 + 1, 0);
        }
    }
}

/// A list of blocks ends inside the section, at or after where it starts.
pub proof fn lemma_blocks_advance(d: Seq<u8>, p: int, f_off: u64, n: nat)
    requires
        p <= d.len(),
    ensures
        spec_blocks(d, p, f_off, n) matches Ok((_, q)) ==> p <= q <= d.len(),
    decreases n,
{
    if n > 0 {
        lemma_blocks_advance(d, p, f_off, (n - 1) as nat);
        if let Ok((_, q)) = spec_blocks(d, p, f_off, (n - 1) as nat) {
            lemma_block_advance(d, q, f_off);
        }
    }
}

/// A function's part of the section ends inside the section, after where
/// it starts.
pub proof fn lemma_function_blocks_advance(d: Seq<u8>, p: int)
    requires
        0 <= p,
    ensures
        spec_function_blocks(d, p) matches Ok((_, q)) ==> p < q <= d.len(),
{
    if p + 8 <= d.len() {
        lemma_uleb128_advance(d, p + 8, 0);
        if let Some((n, q)) = spec_uleb128(d, p + 8, 0) {
            lemma_blocks_advance(d, q, le_u64(d, p), n as u64 as nat);
        }
    }
}

/// A list of blocks that fails after `k` blocks fails the same way however
/// many more are asked for.
pub proof fn lemma_blocks_error_stays(d: Seq<u8>, p: int, f_off: u64, k: nat, n: nat)
    requires
        k <= n,
        spec_blocks(d, p, f_off, k) is Err,
    ensures
        spec_blocks(d, p, f_off, n) == spec_blocks(d, p, f_off, k),
    decreases n,
{
    if k < n {
        lemma_blocks_error_stays(d, p, f_off, k, (n - 1) as nat);
    }
}

// ---------------------------------------------------------------------
// Order and overlap
// ---------------------------------------------------------------------

/// Entries are listed by start offset; entries that start together by
/// end offset, then function offset, then block index.
pub open spec fn entry_leq(a: BlockMapEntry, b: BlockMapEntry) -> bool {
    a.lo < b.lo || (a.lo == b.lo && (a.hi < b.hi || (a.hi == b.hi && (a.f_off < b.f_off || (a.f_off
        == b.f_off && a.bb <= b.bb)))))
}

pub open spec fn entry_order() -> spec_fn(BlockMapEntry, BlockMapEntry) -> bool {
    |a: BlockMapEntry, b: BlockMapEntry| entry_leq(a, b)
}

/// The block `e` and the range `start..end` have an offset in common.
pub open spec fn overlaps(e: BlockMapEntry, start: u64, end: u64) -> bool {
    end > e.lo && start < e.hi
}

pub open spec fn overlap_pred(start: u64, end: u64) -> spec_fn(BlockMapEntry) -> bool {
    |e: BlockMapEntry| overlaps(e, start, end)
}

/// The block `e` starts at or before `last` and ends after `first`: where
/// `first` is not after `last` and the block is not empty, the block has
/// an offset in common with the offsets from `first` to `last`, both
/// included.
pub open spec fn overlaps_closed(e: BlockMapEntry, first: u64, last: u64) -> bool {
    e.lo <= last && first < e.hi
}

pub open spec fn closed_pred(first: u64, last: u64) -> spec_fn(BlockMapEntry) -> bool {
    |e: BlockMapEntry| overlaps_closed(e, first, last)
}

pub proof fn lemma_entry_order_total()
    ensures
        total_ordering(entry_order()),
{
    let r = entry_order();
    assert(vstd::relations::reflexive(r)) by {
        assert forall|x: BlockMapEntry| #[trigger] r(x, x) by {}
    }
    assert(vstd::relations::antisymmetric(r)) by {
        assert forall|x: BlockMapEntry, y: BlockMapEntry| #[trigger]
            r(x, y) && #[trigger] r(y, x) implies x == y by {}
    }
    assert(vstd::relations::transitive(r)) by {
        assert forall|x: BlockMapEntry, y: BlockMapEntry, z: BlockMapEntry| #[trigger]
            r(x, y) && #[trigger] r(y, z) implies r(x, z) by {}
    }
    assert(vstd::relations::strongly_connected(r)) by {
        assert forall|x: BlockMapEntry, y: BlockMapEntry| #[trigger] r(x, y) || #[trigger] r(y, x) by {}
    }
}

// ---------------------------------------------------------------------
// The interval tree
// ---------------------------------------------------------------------

#[verifier::external_type_specification]
#[verifier::external_body]
#[verifier::reject_recursive_types(K)]
#[verifier::reject_recursive_types(V)]
pub struct ExIntervalTree<K, V>(IntervalTree<K, V>);

/// The entries that an interval tree holds, in the order in which it
/// stores them. Each element of the tree stands for one entry: its range
/// is `lo..hi` and its value is `(f_off, bb)`.
pub uninterp spec fn tree_entries(t: IntervalTree<u64, (u64, u64)>) -> Seq<BlockMapEntry>;

/// Builds an interval tree with `IntervalTree`'s `FromIterator`: the tree
/// holds the given entries, each as often as it was given, in an order of
/// its own.
#[verifier::external_body]
fn tree_from_entries(entries: Vec<BlockMapEntry>) -> (t: IntervalTree<u64, (u64, u64)>)
    ensures
        tree_entries(t).to_multiset() == entries@.to_multiset(),
{
    entries.into_iter().map(|e| (e.lo..e.hi, (e.f_off, e.bb))).collect()
}

/// Calls `IntervalTree::query` with the range `start..end` and collects
/// what it yields: the entries `e` of the tree with `end > e.lo` and
/// `start < e.hi`, each as often as the tree holds it, in no stated order.
#[verifier::external_body]
fn tree_query(t: &IntervalTree<u64, (u64, u64)>, start: u64, end: u64) -> (r: Vec<BlockMapEntry>)
    ensures
        r@.to_multiset() == tree_entries(*t).filter(overlap_pred(start, end)).to_multiset(),
{
    t.query(start..end).map(
        |e| BlockMapEntry { lo: e.range.start, hi: e.range.end, f_off: e.value.0, bb: e.value.1 },
    ).collect()
}

/// Collects what `IntervalTree::iter` yields: every entry of the tree
/// once, in the order in which the tree stores them.
#[verifier::external_body]
fn tree_items(t: &IntervalTree<u64, (u64, u64)>) -> (r: Vec<BlockMapEntry>)
    ensures
        r@ == tree_entries(*t),
{
    t.iter().map(
        |e| BlockMapEntry { lo: e.range.start, hi: e.range.end, f_off: e.value.0, bb: e.value.1 },
    ).collect()
}

/// Whether `a` comes before `b`, or is `b`, in the order of the entries.
fn entry_le(a: &BlockMapEntry, b: &BlockMapEntry) -> (r: bool)
    ensures
        r == entry_leq(*a, *b),
{
    a.lo < b.lo || (a.lo == b.lo && (a.hi < b.hi || (a.hi == b.hi && (a.f_off < b.f_off || (a.f_off
        == b.f_off && a.bb <= b.bb)))))
}

/// Sorts the entries into ascending order: each entry in turn is moved
/// down past the entries before it that come after it.
fn sort_entries(v: &mut Vec<BlockMapEntry>)
    ensures
        final(v)@.to_multiset() == old(v)@.to_multiset(),
        sorted_by(final(v)@, entry_order()),
{
    let n = v.len();
    let mut i: usize = 0;
    while i < n
        invariant
            i <= n,
            n == v.len(),
            v@.to_multiset() == old(v)@.to_multiset(),
            forall|a: int, b: int| 0 <= a < b < i ==> entry_leq(#[trigger] v[a], #[trigger] v[b]),
        decreases n - i,
    {
        let mut j: usize = i;
        while j > 0 && !entry_le(&v[j - 1], &v[j])
            invariant
                j <= i < n,
                n == v.len(),
                v@.to_multiset() == old(v)@.to_multiset(),
                forall|a: int, b: int|
                    0 <= a < b <= i && a != j && b != j ==> entry_leq(
                        #[trigger] v[a],
                        #[trigger] v[b],
                    ),
                forall|b: int| j < b <= i ==> entry_leq(v[j as int], #[trigger] v[b]),
            decreases j,
        {
            let ghost before = v@;
            let lower = v[j - 1];
            let upper = v[j];
            v.set(j - 1, upper);
            v.set(j, lower);
            assert(v@.to_multiset() =~= before.to_multiset()) by {
                broadcast use vstd::multiset::group_multiset_axioms;

                let mid = before.update(j - 1, upper);
                assert(v@ == mid.update(j as int, lower));
                vstd::seq_lib::to_multiset_update(before, j - 1, upper);
                vstd::seq_lib::to_multiset_update(mid, j as int, lower);
                assert(before[j - 1] == lower && before[j as int] == upper);
                assert(before.contains(lower) && before.contains(upper));
                vstd::seq_lib::to_multiset_contains(before, lower);
                vstd::seq_lib::to_multiset_contains(before, upper);
            }
            j -= 1;
        }
        i += 1;
    }
    assert(sorted_by(v@, entry_order())) by {
        assert forall|a: int, b: int| 0 <= a < b < v@.len() implies #[trigger] entry_order()(
            v@[a],
            v@[b],
        ) by {
            assert(entry_leq(v[a], v[b]));
        }
    }
}

/// Reads an unsigned LEB128 number with `leb128::read::unsigned` from a
/// cursor that stands at `pos` in `data`, and says where the cursor stands
/// afterwards. An error of either kind (the bytes run out, or the number
/// does not fit 64 bits) gives `None`.
#[verifier::external_body]
fn read_uleb128(data: &[u8], pos: usize) -> (r: Option<(u64, usize)>)
    ensures
        r == match spec_uleb128(data@, pos as int, 0) {
            Some((v, q)) => Some((v as u64, q as usize)),
            None => None,
        },
{
    let mut crsr = std::io::Cursor::new(data);
    crsr.set_position(pos as u64);
    match leb128::read::unsigned(&mut crsr) {
        Ok(v) => Some((v, crsr.position() as usize)),
        Err(_) => None,
    }
}

/// Reads the eight bytes at `pos` in `data` as a little-endian number.
/// Where fewer than eight bytes are left the result is `None`.
fn read_u64_at(data: &[u8], pos: usize) -> (r: Option<u64>)
    ensures
        r == if pos + 8 <= data@.len() {
            Some(le_u64(data@, pos as int))
        } else {
            None
        },
{
    let end = data.len();
    if end < 8 || pos > end - 8 {
        return None;
    }
    let b0: u64 = data[pos] as u64;
    let b1: u64 = data[pos + 1] as u64;
    let b2: u64 = data[pos + 2] as u64;
    let b3: u64 = data[pos + 3] as u64;
    let b4: u64 = data[pos + 4] as u64;
    let b5: u64 = data[pos + 5] as u64;
    let b6: u64 = data[pos + 6] as u64;
    let b7: u64 = data[pos + 7] as u64;
    let lo: u64 = b0 + b1 * 0x100 + b2 * 0x1_0000 + b3 * 0x100_0000;
    let hi: u64 = b4 + b5 * 0x100 + b6 * 0x1_0000 + b7 * 0x100_0000;
    Some(lo + hi * 0x1_0000_0000)
}

// ---------------------------------------------------------------------
// The block map
// ---------------------------------------------------------------------

/// Maps (unrelocated) block offsets to their corresponding block map entry.
pub struct BlockMap {
    tree: IntervalTree<u64, (u64, u64)>,
}

impl BlockMap {
    /// The entries of the map, in the order in which the tree stores them.
    pub closed spec fn entries(&self) -> Seq<BlockMapEntry> {
        tree_entries(self.tree)
    }

    /// The entries that have an offset in common with `start_off..end_off`,
    /// in ascending order.
    pub open spec fn query_spec(&self, start_off: u64, end_off: u64) -> Seq<BlockMapEntry> {
        self.entries().filter(overlap_pred(start_off, end_off)).sort_by(entry_order())
    }

    /// The entries that start at or before `last_off` and end after
    /// `first_off`, in ascending order: the blocks that hold one of the
    /// offsets from `first_off` to `last_off`, both included.
    pub open spec fn query_closed_spec(&self, first_off: u64, last_off: u64) -> Seq<BlockMapEntry> {
        self.entries().filter(closed_pred(first_off, last_off)).sort_by(entry_order())
    }

    /// Reads one block description and appends its entry to `elems`.
    fn read_block(data: &[u8], pos: usize, f_off: u64, elems: &mut Vec<BlockMapEntry>) -> (r:
        Result<usize, BlockMapError>)
        requires
            pos <= data@.len(),
        ensures
            match (r, spec_block(data@, pos as int, f_off)) {
                (Ok(q), Ok((b, sq))) => q == sq && final(elems)@ == old(elems)@.push(b),
                (Err(e), Err(se)) => e == se,
                _ => false,
            },
    {
        let end = data.len();
        proof {
            lemma_uleb128_advance(data@, pos as int, 0);
        }
        let first = read_uleb128(data, pos);
        if first.is_none() {
            return Err(BlockMapError::BadLeb128);
        }
        let (b_off, q1) = first.unwrap();
        proof {
            lemma_uleb128_advance(data@, q1 as int, 0);
        }
        // We still have to parse the size field, as it's variable-size.
        let second = read_uleb128(data, q1);
        if second.is_none() {
            return Err(BlockMapError::BadLeb128);
        }
        let (b_sz, q2) = second.unwrap();
        // Skip over block meta-data.
        if q2 >= end {
            return Err(BlockMapError::BadLeb128);
        }
        proof {
            lemma_uleb128_advance(data@, q2 + 1, 0);
        }
        let third = read_uleb128(data, q2 + 1);
        if third.is_none() {
            return Err(BlockMapError::BadLeb128);
        }
        let (b_idx, q3) = third.unwrap();
        if b_off > u64::MAX - f_off || b_sz > u64::MAX - f_off - b_off {
            return Err(BlockMapError::AddressOverflow);
        }
        let lo = f_off + b_off;
        let hi = lo + b_sz;
        elems.push(BlockMapEntry { lo, hi, f_off, bb: b_idx });
        Ok(q3)
    }

    /// Reads one function's part of the section and appends its entries
    /// to `elems`.
    fn read_function_blocks(data: &[u8], pos: usize, elems: &mut Vec<BlockMapEntry>) -> (r: Result<
        usize,
        BlockMapError,
    >)
        requires
            pos <= data@.len(),
        ensures
            match (r, spec_function_blocks(data@, pos as int)) {
                (Ok(q), Ok((bs, sq))) => q == sq && pos < q <= data@.len() && final(elems)@ == old(
                    elems,
                )@ + bs,
                (Err(e), Err(se)) => e == se,
                _ => false,
            },
    {
        let end = data.len();
        let head = read_u64_at(data, pos);
        if head.is_none() {
            return Err(BlockMapError::UnexpectedEnd);
        }
        let f_off = head.unwrap();
        proof {
            lemma_uleb128_advance(data@, pos + 8, 0);
            lemma_function_blocks_advance(data@, pos as int);
        }
        let count = read_uleb128(data, pos + 8);
        if count.is_none() {
            return Err(BlockMapError::BadLeb128);
        }
        let (n_blks, start) = count.unwrap();
        let ghost before = elems@;
        let mut q: usize = start;
        let mut i: u64 = 0;
        assert(elems@ =~= before + Seq::<BlockMapEntry>::empty());
        while i < n_blks
            invariant
                i <= n_blks,
                q <= data@.len(),
                start <= data@.len(),
                exists|bs: Seq<BlockMapEntry>|
                    spec_blocks(data@, start as int, f_off, i as nat) == Ok::<
                        (Seq<BlockMapEntry>, int),
                        BlockMapError,
                    >((bs, q as int)) && elems@ == before + bs,
                before == old(elems)@,
                spec_function_blocks(data@, pos as int) == spec_blocks(
                    data@,
                    start as int,
                    f_off,
                    n_blks as nat,
                ),
            decreases n_blks - i,
        {
            let ghost bs = choose|bs: Seq<BlockMapEntry>|
                spec_blocks(data@, start as int, f_off, i as nat) == Ok::<
                    (Seq<BlockMapEntry>, int),
                    BlockMapError,
                >((bs, q as int)) && elems@ == before + bs;
            proof {
                if spec_blocks(data@, start as int, f_off, (i + 1) as nat) is Err {
                    lemma_blocks_error_stays(
                        data@,
                        start as int,
                        f_off,
                        (i + 1) as nat,
                        n_blks as nat,
                    );
                }
                lemma_block_advance(data@, q as int, f_off);
            }
            q = Self::read_block(data, q, f_off, elems)?;
            i += 1;
            proof {
                assert(elems@ =~= before + bs.push(elems@.last()));
            }
        }
        Ok(q)
    }

    /// Parse the block-map section of an executable and return a struct
    /// holding the mappings.
    pub fn new(section: &[u8]) -> (r: Result<BlockMap, BlockMapError>)
        ensures
            match (r, spec_block_map(section@, 0)) {
                (Ok(m), Ok(s)) => m.entries().to_multiset() == s.to_multiset(),
                (Err(e), Err(se)) => e == se,
                _ => false,
            },
    {
        let mut elems: Vec<BlockMapEntry> = Vec::new();
        let mut pos: usize = 0;
        // Keep reading records until we fall outside of the section's bounds.
        while pos < section.len()
            invariant
                pos <= section@.len(),
                spec_block_map(section@, 0) == match spec_block_map(section@, pos as int) {
                    Ok(rest) => Ok::<Seq<BlockMapEntry>, BlockMapError>(elems@ + rest),
                    Err(e) => Err(e),
                },
            decreases section@.len() - pos,
        {
            let ghost before = elems@;
            let ghost p = pos as int;
            pos = Self::read_function_blocks(section, pos, &mut elems)?;
            proof {
                let bs = spec_function_blocks(section@, p)->Ok_0.0;
                match spec_block_map(section@, pos as int) {
                    Ok(rest) => {
                        assert(before + (bs + rest) =~= (before + bs) + rest);
                    },
                    Err(_) => {},
                }
            }
        }
        assert(elems@ + Seq::<BlockMapEntry>::empty() =~= elems@);
        Ok(BlockMap { tree: tree_from_entries(elems) })
    }

    /// The number of machine basic blocks in the map.
    pub fn len(&self) -> (n: usize)
        ensures
            n == self.entries().len(),
    {
        tree_items(&self.tree).len()
    }

    /// Queries the blockmap for blocks whose address range coincides with
    /// `start_off..end_off`, and lists them in ascending order.
    pub fn query(&self, start_off: u64, end_off: u64) -> (r: Vec<BlockMapEntry>)
        ensures
            r@ == self.query_spec(start_off, end_off),
    {
        let mut ents = tree_query(&self.tree, start_off, end_off);
        sort_entries(&mut ents);
        proof {
            let found = self.entries().filter(overlap_pred(start_off, end_off));
            lemma_entry_order_total();
            found.lemma_sort_by_ensures(entry_order());
            vstd::seq_lib::lemma_sorted_unique(ents@, found.sort_by(entry_order()), entry_order());
        }
        ents
    }

    /// The entries of `items` that start at or before `last_off` and end
    /// after `first_off`.
    fn covering(items: &Vec<BlockMapEntry>, first_off: u64, last_off: u64) -> (r: Vec<BlockMapEntry>)
        ensures
            r@ == items@.filter(closed_pred(first_off, last_off)),
    {
        let ghost pred = closed_pred(first_off, last_off);
        let mut out: Vec<BlockMapEntry> = Vec::new();
        let mut i: usize = 0;
        proof {
            reveal(Seq::filter);
            assert(items@.take(0).filter(pred) =~= Seq::empty());
        }
        while i < items.len()
            invariant
                i <= items.len(),
                pred == closed_pred(first_off, last_off),
                out@ == items@.take(i as int).filter(pred),
            decreases items.len() - i,
        {
            let e = items[i];
            proof {
                reveal(Seq::filter);
                assert(items@.take(i + 1).drop_last() =~= items@.take(i as int));
                assert(items@.take(i + 1).last() == e);
            }
            if e.lo <= last_off && first_off < e.hi {
                out.push(e);
            }
            i += 1;
        }
        assert(items@.take(items.len() as int) =~= items@);
        out
    }

    /// Queries the blockmap for the blocks that hold one of the offsets
    /// from `first_off` to `last_off`, both included, and lists them in
    /// ascending order.
    pub fn query_closed(&self, first_off: u64, last_off: u64) -> (r: Vec<BlockMapEntry>)
        ensures
            r@ == self.query_closed_spec(first_off, last_off),
    {
        let mut ents = if last_off < u64::MAX {
            let found = tree_query(&self.tree, first_off, last_off + 1);
            assert(overlap_pred(first_off, (last_off + 1) as u64) =~= closed_pred(
                first_off,
                last_off,
            ));
            found
        } else {
            // No range of 64-bit offsets ends after the last offset: look at every entry.
            let items = tree_items(&self.tree);
            Self::covering(&items, first_off, last_off)
        };
        sort_entries(&mut ents);
        proof {
            let found = self.entries().filter(closed_pred(first_off, last_off));
            lemma_entry_order_total();
            found.lemma_sort_by_ensures(entry_order());
            vstd::seq_lib::lemma_sorted_unique(ents@, found.sort_by(entry_order()), entry_order());
        }
        ents
    }
}

/// No two of the entries have an offset in common.
pub open spec fn disjoint(es: Seq<BlockMapEntry>) -> bool {
    forall|i: int, j: int|
        0 <= i < j < es.len() ==> (#[trigger] es[i]).hi <= (#[trigger] es[j]).lo || es[j].hi
            <= es[i].lo
}

/// The offset `off` lies in the block `e`.
pub open spec fn covers(e: BlockMapEntry, off: u64) -> bool {
    e.lo <= off < e.hi
}

/// Of entries that have no offset in common, at most one covers a given
/// offset, and the entries that overlap the offset are that one.
proof fn lemma_filter_point(es: Seq<BlockMapEntry>, off: u64)
    requires
        disjoint(es),
    ensures
        ({
            let found = es.filter(closed_pred(off, off));
            &&& found.len() <= 1
            &&& found.len() == 1 ==> covers(found[0], off) && es.contains(found[0])
            &&& forall|i: int|
                0 <= i < es.len() && covers(#[trigger] es[i], off) ==> found == seq![es[i]]
        }),
    decreases es.len(),
{
    reveal(Seq::filter);
    let pred = closed_pred(off, off);
    let found = es.filter(pred);
    if es.len() > 0 {
        let init = es.drop_last();
        let last = es.last();
        assert forall|i: int, j: int| 0 <= i < j < init.len() implies (#[trigger] init[i]).hi <= (
        #[trigger] init[j]).lo || init[j].hi <= init[i].lo by {
            assert(init[i] == es[i] && init[j] == es[j]);
        }
        lemma_filter_point(init, off);
        let before = init.filter(pred);
        assert(pred(last) == covers(last, off));
        if before.len() == 1 {
            let k = choose|k: int| 0 <= k < init.len() && init[k] == before[0];
            assert(es[k] == before[0]);
            assert(es[es.len() - 1] == last);
            assert(!covers(last, off));
            assert(es.contains(found[0]));
        }
        if covers(last, off) {
            assert(found =~= seq![last]);
            assert(es[es.len() - 1] == found[0]);
        }
        assert forall|i: int| 0 <= i < es.len() && covers(#[trigger] es[i], off) implies found
            == seq![es[i]] by {
            if i < es.len() - 1 {
                assert(init[i] == es[i]);
                assert(before == seq![init[i]]);
                assert(before.len() == 1);
            }
        }
    }
}

/// An element that stands at two places of a sequence counts twice in
/// the sequence's multiset.
proof fn lemma_twice_counts_twice(es: Seq<BlockMapEntry>, i: int, j: int)
    requires
        0 <= i < j < es.len(),
        es[i] == es[j],
    ensures
        es.to_multiset().count(es[i]) >= 2,
{
    broadcast use vstd::multiset::group_multiset_axioms;

    let head = es.take(j);
    let upto = es.take(j + 1);
    let rest = es.skip(j + 1);
    assert(head[i] == es[i]);
    assert(head.contains(es[i]));
    vstd::seq_lib::to_multiset_contains(head, es[i]);
    assert(upto =~= head.push(es[j]));
    vstd::seq_lib::to_multiset_build(head, es[j]);
    assert(es =~= upto + rest);
    vstd::seq_lib::lemma_multiset_commutative(upto, rest);
}

/// No two of the blocks have an offset in common, a block that is listed
/// twice counting as two.
pub open spec fn disjoint_blocks(m: vstd::multiset::Multiset<BlockMapEntry>) -> bool {
    forall|a: BlockMapEntry, b: BlockMapEntry|
        #![trigger m.count(a), m.count(b)]
        m.count(a) > 0 && m.count(b) > 0 && (a != b || m.count(a) >= 2) ==> a.hi <= b.lo || b.hi
            <= a.lo
}

/// Blocks that have no offset in common have none in whatever order they
/// are listed.
pub proof fn lemma_disjoint_in_any_order(es: Seq<BlockMapEntry>)
    requires
        disjoint_blocks(es.to_multiset()),
    ensures
        disjoint(es),
{
    assert forall|i: int, j: int| 0 <= i < j < es.len() implies (#[trigger] es[i]).hi <= (
    #[trigger] es[j]).lo || es[j].hi <= es[i].lo by {
        let m = es.to_multiset();
        assert(es.contains(es[i]) && es.contains(es[j]));
        vstd::seq_lib::to_multiset_contains(es, es[i]);
        vstd::seq_lib::to_multiset_contains(es, es[j]);
        if es[i] == es[j] {
            lemma_twice_counts_twice(es, i, j);
        }
        assert(m.count(es[i]) > 0 && m.count(es[j]) > 0);
    }
}

/// In a block map whose blocks have no offset in common, the query for a
/// single offset finds at most one block; it finds the block that covers
/// the offset where there is one, and a block that it finds covers the
/// offset.
pub proof fn lemma_point_query(map: &BlockMap, off: u64)
    requires
        disjoint_blocks(map.entries().to_multiset()),
    ensures
        map.query_closed_spec(off, off).len() <= 1,
        map.query_closed_spec(off, off).len() == 1 ==> covers(map.query_closed_spec(off, off)[0], off)
            && map.entries().contains(map.query_closed_spec(off, off)[0]),
        forall|i: int|
            0 <= i < map.entries().len() && covers(#[trigger] map.entries()[i], off)
                ==> map.query_closed_spec(off, off) == seq![map.entries()[i]],
{
    let found = map.entries().filter(closed_pred(off, off));
    lemma_disjoint_in_any_order(map.entries());
    lemma_filter_point(map.entries(), off);
    lemma_entry_order_total();
    found.lemma_sort_by_ensures(entry_order());
    vstd::seq_lib::lemma_sorted_unique(found, found.sort_by(entry_order()), entry_order());
}

/// In a block map whose blocks have no offset in common and all have an
/// IR block, the query for a single offset finds either nothing or
/// exactly one block, and that block has an IR block.
pub proof fn lemma_point_query_has_block(map: &BlockMap, off: u64)
    requires
        disjoint_blocks(map.entries().to_multiset()),
        forall|i: int| 0 <= i < map.entries().len() ==> (#[trigger] map.entries()[i]).bb != NO_BB,
    ensures
        map.query_closed_spec(off, off).len() <= 1,
        map.query_closed_spec(off, off).len() == 1 ==> covers(map.query_closed_spec(off, off)[0], off)
            && map.query_closed_spec(off, off)[0].bb != NO_BB,
{
    lemma_point_query(map, off);
    let found = map.query_closed_spec(off, off);
    if found.len() == 1 {
        let i = choose|i: int| 0 <= i < map.entries().len() && map.entries()[i] == found[0];
        assert(map.entries()[i].bb != NO_BB);
    }
}

} // verus!
