//! The mapper turns a hardware trace into a trace of IR blocks.

use crate::blockmap::{BlockMap, BlockMapEntry, NO_BB};
use crate::trace::{
    actions_view, extend_dedup, lemma_extend_dedup, no_adjacent_equal, push_action, TraceAction,
    TraceActionView,
};
use std::collections::HashMap;
use vstd::prelude::*;

verus! {

/// One block of a hardware trace: the offsets, inside the traced object,
/// of the first and of the last instruction that ran.
#[derive(Debug, Clone, Copy, PartialEq, Eq, Structural)]
pub struct Block {
    pub first_instr: u64,
    pub last_instr: u64,
}

/// Why a trace could not be mapped. Each of these shows a fault in the
/// trace, in the block map or in the symbol table, and none is worth a
/// retry.
#[derive(Debug, Clone, Copy, PartialEq, Eq, Structural)]
pub enum MapError {
    /// A block's last instruction lies before its first.
    BadBlock,
    /// A machine block seen in the trace has no corresponding IR block.
    NoBasicBlock,
    /// Two machine blocks under one trace block do not follow each other
    /// directly.
    NotContiguous,
    /// No name is known for the function of a machine block.
    NoSymbol,
    /// An IR block index does not fit the machine's word.
    BlockIndexTooLarge,
}

/// The names in a symbol table, each as a sequence of characters.
pub open spec fn symbol_names(m: Map<u64, String>) -> Map<u64, Seq<char>> {
    Map::new(|k: u64| m.contains_key(k), |k: u64| m[k]@)
}

/// The IR blocks for the first `k` of the entries `ents`, which are in
/// ascending order; the first entry at fault decides the error.
pub open spec fn spec_map_entries(ents: Seq<BlockMapEntry>, names: Map<u64, Seq<char>>, k: nat)
    -> Result<Seq<TraceActionView>, MapError>
    decreases k,
{
    if k == 0 {
        Ok(Seq::empty())
    } else {
        match spec_map_entries(ents, names, (k - 1) as nat) {
            Err(e) => Err(e),
            Ok(s) => {
                let ent = ents[k - 1];
                if ent.bb == NO_BB {
                    Err(MapError::NoBasicBlock)
                } else if k >= 2 && ent.lo != ents[k - 2].hi {
                    Err(MapError::NotContiguous)
                } else if !names.contains_key(ent.f_off) {
                    Err(MapError::NoSymbol)
                } else if ent.bb > usize::MAX {
                    Err(MapError::BlockIndexTooLarge)
                } else {
                    Ok(
                        s.push(
                            TraceActionView::MappedAOTBlock {
                                func_name: names[ent.f_off],
                                bb: ent.bb as usize,
                            },
                        ),
                    )
                }
            },
        }
    }
}

/// What one block of a hardware trace maps to: the IR blocks of the
/// machine blocks that hold one of its instructions, the first and the
/// last included, in ascending order of address, or a single unmappable
/// block where the block map knows none.
pub open spec fn spec_map_block(map: &BlockMap, names: Map<u64, Seq<char>>, block: Block) -> Result<
    Seq<TraceActionView>,
    MapError,
> {
    if block.last_instr < block.first_instr {
        Err(MapError::BadBlock)
    } else {
        let ents = map.query_closed_spec(block.first_instr, block.last_instr);
        if ents.len() == 0 {
            Ok(seq![TraceActionView::UnmappableBlock])
        } else {
            spec_map_entries(ents, names, ents.len())
        }
    }
}

/// A block mapped to nothing but a single unmappable block.
pub open spec fn is_unmappable(acts: Seq<TraceActionView>) -> bool {
    acts.len() == 1 && acts[0] is UnmappableBlock
}

/// The trace `out` after one more block, and whether mapping has ended
/// with it. An unmappable block before the first mapped block is passed
/// over; the first unmappable block after it ends the mapping; no action
/// is repeated directly.
pub open spec fn spec_map_step(
    map: &BlockMap,
    names: Map<u64, Seq<char>>,
    out: Seq<TraceActionView>,
    block: Block,
) -> Result<(Seq<TraceActionView>, bool), MapError> {
    match spec_map_block(map, names, block) {
        Err(e) => Err(e),
        Ok(acts) => if is_unmappable(acts) {
            Ok((out, out.len() > 0))
        } else {
            Ok((extend_dedup(out, acts, acts.len()), false))
        },
    }
}

/// The trace that the first `k` blocks give, and whether mapping has
/// ended. Blocks after the end of the mapping are not looked at.
pub open spec fn spec_map_trace(
    map: &BlockMap,
    names: Map<u64, Seq<char>>,
    blocks: Seq<Block>,
    k: nat,
) -> Result<(Seq<TraceActionView>, bool), MapError>
    decreases k,
{
    if k == 0 {
        Ok((Seq::empty(), false))
    } else {
        match spec_map_trace(map, names, blocks, (k - 1) as nat) {
            Err(e) => Err(e),
            Ok((out, done)) => if done {
                Ok((out, true))
            } else {
                spec_map_step(map, names, out, blocks[k - 1])
            },
        }
    }
}

/// Entries that fail to map after `k` of them fail the same way however
/// many more are asked for.
pub proof fn lemma_map_entries_error_stays(
    ents: Seq<BlockMapEntry>,
    names: Map<u64, Seq<char>>,
    k: nat,
    n: nat,
)
    requires
        k <= n,
        spec_map_entries(ents, names, k) is Err,
    ensures
        spec_map_entries(ents, names, n) == spec_map_entries(ents, names, k),
    decreases n,
{
    if k < n {
        lemma_map_entries_error_stays(ents, names, k, (n - 1) as nat);
    }
}

/// A trace that fails to map, or whose mapping has ended, after `k`
/// blocks stays as it is however many more blocks follow.
pub proof fn lemma_map_trace_settled(
    map: &BlockMap,
    names: Map<u64, Seq<char>>,
    blocks: Seq<Block>,
    k: nat,
    n: nat,
)
    requires
        k <= n,
        spec_map_trace(map, names, blocks, k) matches Ok((_, done)) ==> done,
    ensures
        spec_map_trace(map, names, blocks, n) == spec_map_trace(map, names, blocks, k),
    decreases n,
{
    if k < n {
        lemma_map_trace_settled(map, names, blocks, k, (n - 1) as nat);
    }
}

/// Mapped entries give one mapped block each.
pub proof fn lemma_map_entries_mapped(ents: Seq<BlockMapEntry>, names: Map<u64, Seq<char>>, k: nat)
    ensures
        spec_map_entries(ents, names, k) matches Ok(s) ==> s.len() == k && forall|i: int|
            0 <= i < s.len() ==> #[trigger] s[i] is MappedAOTBlock,
    decreases k,
{
    if k > 0 {
        lemma_map_entries_mapped(ents, names, (k - 1) as nat);
    }
}

/// However the blocks of a hardware trace fall, the mapped trace holds
/// mapped blocks only, so that it never starts with the unmappable code
/// that ran before the first mapped block, and no two actions that follow
/// each other are equal.
pub proof fn lemma_map_trace_deduplicated(
    map: &BlockMap,
    names: Map<u64, Seq<char>>,
    blocks: Seq<Block>,
    k: nat,
)
    ensures
        spec_map_trace(map, names, blocks, k) matches Ok((out, _)) ==> no_adjacent_equal(out)
            && forall|i: int| 0 <= i < out.len() ==> #[trigger] out[i] is MappedAOTBlock,
    decreases k,
{
    if k > 0 {
        lemma_map_trace_deduplicated(map, names, blocks, (k - 1) as nat);
        if let Ok((out, done)) = spec_map_trace(map, names, blocks, (k - 1) as nat) {
            if !done {
                if let Ok(acts) = spec_map_block(map, names, blocks[k - 1]) {
                    if !is_unmappable(acts) {
                        let ents = map.query_closed_spec(
                            blocks[k - 1].first_instr,
                            blocks[k - 1].last_instr,
                        );
                        lemma_map_entries_mapped(ents, names, ents.len());
                        lemma_extend_dedup(out, acts, acts.len());
                        let next = extend_dedup(out, acts, acts.len());
                        assert forall|i: int| 0 <= i < next.len() implies #[trigger] next[i] is MappedAOTBlock by {
                            if i >= out.len() {
                                let j = choose|j: int| 0 <= j < acts.len() && acts[j] == next[i];
                                assert(acts[j] is MappedAOTBlock);
                            } else {
                                assert(next[i] == out[i]);
                            }
                        }
                    }
                }
            }
        }
    }
}

/// The functions of the first `k` entries: of each its name and its
/// offset.
pub open spec fn entry_addrs(ents: Seq<BlockMapEntry>, names: Map<u64, Seq<char>>, k: nat) -> Seq<
    (Seq<char>, u64),
> {
    Seq::new(k, |i: int| (names[ents[i].f_off], ents[i].f_off))
}

/// The functions that one block of a hardware trace runs through, where
/// the block can be mapped: of each of its machine blocks the function's
/// name and offset, in ascending order of address.
pub open spec fn spec_block_addrs(map: &BlockMap, names: Map<u64, Seq<char>>, block: Block) -> Seq<
    (Seq<char>, u64),
> {
    let ents = map.query_closed_spec(block.first_instr, block.last_instr);
    if block.last_instr >= block.first_instr && spec_map_entries(ents, names, ents.len()) is Ok {
        entry_addrs(ents, names, ents.len())
    } else {
        Seq::empty()
    }
}

/// The functions that the first `k` blocks of a hardware trace run
/// through, up to the end of the mapping or to the first block that
/// cannot be mapped.
pub open spec fn spec_trace_addrs(
    map: &BlockMap,
    names: Map<u64, Seq<char>>,
    blocks: Seq<Block>,
    k: nat,
) -> Seq<(Seq<char>, u64)>
    decreases k,
{
    if k == 0 {
        Seq::empty()
    } else {
        let before = spec_trace_addrs(map, names, blocks, (k - 1) as nat);
        match spec_map_trace(map, names, blocks, (k - 1) as nat) {
            Ok((_, done)) => if done {
                before
            } else {
                before + spec_block_addrs(map, names, blocks[k - 1])
            },
            Err(_) => before,
        }
    }
}

/// Once a trace has failed to map, or its mapping has ended, no further
/// block adds a function.
pub proof fn lemma_trace_addrs_settled(
    map: &BlockMap,
    names: Map<u64, Seq<char>>,
    blocks: Seq<Block>,
    k: nat,
    n: nat,
)
    requires
        k <= n,
        spec_map_trace(map, names, blocks, k) matches Ok((_, done)) ==> done,
    ensures
        spec_trace_addrs(map, names, blocks, n) == spec_trace_addrs(map, names, blocks, k),
    decreases n,
{
    if k < n {
        lemma_trace_addrs_settled(map, names, blocks, k, (n - 1) as nat);
        lemma_map_trace_settled(map, names, blocks, k, (n - 1) as nat);
    }
}

pub open spec fn addrs_view(v: Seq<(String, u64)>) -> Seq<(Seq<char>, u64)> {
    Seq::new(v.len(), |i: int| (v[i].0@, v[i].1))
}

/// Maps the blocks of a hardware trace to IR blocks, with a block map and
/// the names of the functions that the block map speaks of, and notes the
/// functions that the mapped blocks belong to.
pub struct HWTMapper {
    symbols: HashMap<u64, String>,
    faddrs: Vec<(String, u64)>,
}

impl HWTMapper {
    /// The function names that the mapper knows, by function offset.
    pub closed spec fn names(&self) -> Map<u64, Seq<char>> {
        symbol_names(self.symbols@)
    }

    /// The functions of the blocks mapped so far, each with its offset,
    /// in the order in which the blocks were mapped. A function stands
    /// here once for each of its blocks.
    pub closed spec fn spec_faddrs(&self) -> Seq<(Seq<char>, u64)> {
        addrs_view(self.faddrs@)
    }

    /// A mapper that names the function at each offset as `symbols` says.
    pub fn new(symbols: HashMap<u64, String>) -> (mapper: HWTMapper)
        ensures
            mapper.names() == symbol_names(symbols@),
            mapper.spec_faddrs() == Seq::<(Seq<char>, u64)>::empty(),
    {
        let mapper = Self { symbols, faddrs: Vec::new() };
        assert(mapper.spec_faddrs() =~= Seq::empty());
        mapper
    }

    /// Names the function at the offset `f_off`.
    pub fn add_symbol(&mut self, f_off: u64, name: String)
        ensures
            final(self).names() == old(self).names().insert(f_off, name@),
            final(self).spec_faddrs() == old(self).spec_faddrs(),
    {
        self.symbols.insert(f_off, name);
        assert(self.names() =~= old(self).names().insert(f_off, name@));
    }

    /// The functions of the blocks mapped so far.
    pub fn faddrs(&self) -> (addrs: &Vec<(String, u64)>)
        ensures
            addrs_view(addrs@) == self.spec_faddrs(),
    {
        &self.faddrs
    }

    /// Ends the mapping and hands out the functions of the mapped blocks.
    pub fn into_faddrs(self) -> (addrs: Vec<(String, u64)>)
        ensures
            addrs_view(addrs@) == self.spec_faddrs(),
    {
        self.faddrs
    }

    /// Maps the machine blocks `ents`, which one trace block runs through
    /// in this order, to their IR blocks, and notes their functions.
    pub fn map_entries(&mut self, ents: &Vec<BlockMapEntry>) -> (r: Result<
        Vec<TraceAction>,
        MapError,
    >)
        ensures
            final(self).names() == old(self).names(),
            match (r, spec_map_entries(ents@, old(self).names(), ents.len() as nat)) {
                (Ok(v), Ok(s)) => actions_view(v@) == s && final(self).spec_faddrs() == old(
                    self,
                ).spec_faddrs() + entry_addrs(ents@, old(self).names(), ents.len() as nat),
                (Err(e), Err(se)) => e == se && final(self).spec_faddrs() == old(self).spec_faddrs(),
                _ => false,
            },
    {
        let mut ret: Vec<TraceAction> = Vec::new();
        let mut addrs: Vec<(String, u64)> = Vec::new();
        let mut i: usize = 0;
        assert(actions_view(ret@) =~= Seq::empty());
        assert(addrs_view(addrs@) =~= entry_addrs(ents@, self.names(), 0));
        while i < ents.len()
            invariant
                i <= ents.len(),
                *self == *old(self),
                spec_map_entries(ents@, self.names(), i as nat) == Ok::<
                    Seq<TraceActionView>,
                    MapError,
                >(actions_view(ret@)),
                addrs_view(addrs@) == entry_addrs(ents@, self.names(), i as nat),
            decreases ents.len() - i,
        {
            proof {
                if spec_map_entries(ents@, self.names(), (i + 1) as nat) is Err {
                    lemma_map_entries_error_stays(
                        ents@,
                        self.names(),
                        (i + 1) as nat,
                        ents.len() as nat,
                    );
                }
            }
            let ent = ents[i];
            // Check that the machine block observed in the trace has a corresponding IR block.
            if ent.bb == NO_BB {
                return Err(MapError::NoBasicBlock);
            }
            // If a trace block maps to multiple IR blocks, then the IR blocks should be at
            // consecutive addresses (they should be related only by "fall-thru", without
            // control flow dispatch).
            if i > 0 && ent.lo != ents[i - 1].hi {
                return Err(MapError::NotContiguous);
            }
            let func_name = match self.symbols.get(&ent.f_off) {
                Some(name) => name.clone(),
                None => { return Err(MapError::NoSymbol); },
            };
            if ent.bb > usize::MAX as u64 {
                return Err(MapError::BlockIndexTooLarge);
            }
            let ghost before = actions_view(ret@);
            let ghost addrs_before = addrs_view(addrs@);
            let fname = func_name.clone();
            let action = TraceAction::new_mapped_aot_block(func_name, ent.bb as usize);
            ret.push(action);
            addrs.push((fname, ent.f_off));
            i += 1;
            assert(actions_view(ret@) =~= before.push(action@));
            assert(addrs_view(addrs@) =~= addrs_before.push((fname@, ent.f_off)));
            assert(addrs_view(addrs@) =~= entry_addrs(ents@, self.names(), i as nat));
        }
        let ghost known = addrs_view(self.faddrs@);
        let ghost new = addrs_view(addrs@);
        self.faddrs.append(&mut addrs);
        assert(addrs_view(self.faddrs@) =~= known + new);
        Ok(ret)
    }

    /// Maps one block of a hardware trace to one or many IR blocks.
    ///
    /// The reason that there may be many corresponding blocks is due to
    /// the following scenario. Suppose that the IR looked like this:
    ///
    ///   bb1:
    ///     ...
    ///     br bb2;
    ///   bb2:
    ///     ...
    ///
    /// During codegen the unconditional jump may be removed and bb1 and
    /// bb2 placed consecutively, allowing bb1 to fall-thru to bb2. In the
    /// eyes of the block decoder, a fall-thru does not terminate a block,
    /// so whereas the IR has two blocks, the trace has only one.
    ///
    /// A block that the block map knows nothing of gives a single
    /// unmappable block.
    pub fn map_block(&mut self, map: &BlockMap, block: &Block) -> (r: Result<
        Vec<TraceAction>,
        MapError,
    >)
        ensures
            final(self).names() == old(self).names(),
            match (r, spec_map_block(map, old(self).names(), *block)) {
                (Ok(v), Ok(s)) => actions_view(v@) == s && final(self).spec_faddrs() == old(
                    self,
                ).spec_faddrs() + spec_block_addrs(map, old(self).names(), *block),
                (Err(e), Err(se)) => e == se && final(self).spec_faddrs() == old(self).spec_faddrs(),
                _ => false,
            },
    {
        if block.last_instr < block.first_instr {
            return Err(MapError::BadBlock);
        }
        let ents = map.query_closed(block.first_instr, block.last_instr);
        if ents.len() == 0 {
            let mut ret: Vec<TraceAction> = Vec::new();
            ret.push(TraceAction::new_unmappable_block());
            assert(actions_view(ret@) =~= seq![TraceActionView::UnmappableBlock]);
            assert(self.spec_faddrs() + spec_block_addrs(map, self.names(), *block)
                =~= self.spec_faddrs());
            return Ok(ret);
        }
        self.map_entries(&ents)
    }

    /// Takes one more block of a hardware trace: appends what it maps to
    /// to the trace `out`, and says whether the mapping has ended, after
    /// which no further block is to be taken.
    pub fn map_step(&mut self, map: &BlockMap, out: &mut Vec<TraceAction>, block: &Block) -> (r:
        Result<bool, MapError>)
        ensures
            final(self).names() == old(self).names(),
            match (r, spec_map_step(map, old(self).names(), actions_view(old(out)@), *block)) {
                (Ok(done), Ok((s, sdone))) => done == sdone && actions_view(final(out)@) == s
                    && final(self).spec_faddrs() == old(self).spec_faddrs() + spec_block_addrs(
                    map,
                    old(self).names(),
                    *block,
                ),
                (Err(e), Err(se)) => e == se && final(out)@ == old(out)@
                    && final(self).spec_faddrs() == old(self).spec_faddrs(),
                _ => false,
            },
    {
        let actions = self.map_block(map, block)?;
        if actions.len() == 1 && actions[0].same(&TraceAction::UnmappableBlock) {
            assert(actions_view(actions@)[0] == actions[0]@);
            // Once we have seen the last block that can be mapped we are done.
            return Ok(!out.is_empty());
        }
        let ghost before = actions_view(out@);
        let ghost acts = actions_view(actions@);
        assert(!is_unmappable(acts)) by {
            if acts.len() == 1 {
                assert(acts[0] == actions[0]@);
            }
        }
        for action in it: actions
            invariant
                actions_view(it.seq()) == acts,
                actions_view(out@) == extend_dedup(before, acts, it.index() as nat),
        {
            assert(acts[it.index() as int] == action@);
            push_action(out, action);
        }
        Ok(false)
    }

    /// Maps each entry of a hardware trace back to the IR block from
    /// whence it was compiled, and notes the functions of the mapped
    /// blocks.
    pub fn map_trace(&mut self, map: &BlockMap, trace: &Vec<Block>) -> (r: Result<
        Vec<TraceAction>,
        MapError,
    >)
        ensures
            final(self).names() == old(self).names(),
            final(self).spec_faddrs() == old(self).spec_faddrs() + spec_trace_addrs(
                map,
                old(self).names(),
                trace@,
                trace.len() as nat,
            ),
            match (r, spec_map_trace(map, old(self).names(), trace@, trace.len() as nat)) {
                (Ok(v), Ok((s, _))) => actions_view(v@) == s,
                (Err(e), Err(se)) => e == se,
                _ => false,
            },
    {
        let mut ret: Vec<TraceAction> = Vec::new();
        let mut i: usize = 0;
        let ghost names = self.names();
        let ghost known = self.spec_faddrs();
        assert(actions_view(ret@) =~= Seq::empty());
        assert(known + spec_trace_addrs(map, names, trace@, 0) =~= known);
        while i < trace.len()
            invariant
                i <= trace.len(),
                names == self.names(),
                names == old(self).names(),
                known == old(self).spec_faddrs(),
                spec_map_trace(map, names, trace@, i as nat) == Ok::<
                    (Seq<TraceActionView>, bool),
                    MapError,
                >((actions_view(ret@), false)),
                self.spec_faddrs() == known + spec_trace_addrs(map, names, trace@, i as nat),
            decreases trace.len() - i,
        {
            proof {
                let next = spec_map_trace(map, names, trace@, (i + 1) as nat);
                if next is Err || next->Ok_0.1 {
                    lemma_map_trace_settled(map, names, trace@, (i + 1) as nat, trace.len() as nat);
                    lemma_trace_addrs_settled(
                        map,
                        names,
                        trace@,
                        (i + 1) as nat,
                        trace.len() as nat,
                    );
                }
                let so_far = spec_trace_addrs(map, names, trace@, i as nat);
                let more = spec_block_addrs(map, names, trace@[i as int]);
                assert((known + so_far) + more =~= known + (so_far + more));
                if spec_map_step(map, names, actions_view(ret@), trace@[i as int]) is Err {
                    assert(more =~= Seq::empty());
                    assert(so_far + more =~= so_far);
                }
            }
            if self.map_step(map, &mut ret, &trace[i])? {
                return Ok(ret);
            }
            i += 1;
        }
        Ok(ret)
    }
}

} // verus!
