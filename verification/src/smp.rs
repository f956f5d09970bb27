//! A parser for version 3 stackmap sections.

use crate::stackmap::{
    align8, all_records, entries_view, le_i32, le_u16, le_u32, le_u64,
    lemma_function_records_error_stays, lemma_locations_error_stays, lemma_prologues_error_stays,
    lemma_records_error_stays, lemma_sum_record_counts_grows, locs_map_view, offsets_map,
    prologues_view, rebased, record_lists_view, records_view, spec_consts, spec_entries,
    spec_function, spec_function_records, spec_functions, spec_locations, spec_prologues,
    spec_rebase, spec_record, spec_records, spec_spill, spec_stackmap, spec_stackmap_end, sum_record_counts, Function,
    Location, ParseError, PrologueInfo, PrologueInfoView, Record, RecordView, SMEntry, SMEntryView,
};
use std::collections::HashMap;
use vstd::prelude::*;

verus! {

/// A cursor over the bytes of a stackmap section.
pub struct StackMapParser<'a> {
    data: &'a [u8],
    offset: usize,
}

impl<'a> StackMapParser<'a> {
    /// The section being read.
    pub closed spec fn bytes(&self) -> Seq<u8> {
        self.data@
    }

    /// The position of the next unread byte.
    pub closed spec fn pos(&self) -> int {
        self.offset as int
    }

    /// The cursor stands inside the section or at its end.
    pub open spec fn wf(&self) -> bool {
        0 <= self.pos() <= self.bytes().len()
    }

    /// `post` is `pre` moved forward by `n` bytes.
    pub open spec fn took(pre: Self, post: Self, n: int) -> bool {
        &&& post.bytes() == pre.bytes()
        &&& post.pos() == pre.pos() + n
        &&& post.wf()
    }

    /// `post` reads the same section as `pre` and stands at `q`.
    pub open spec fn moved_to(pre: Self, post: Self, q: int) -> bool {
        &&& post.bytes() == pre.bytes()
        &&& post.pos() == q
        &&& post.wf()
    }

    /// Fewer than `n` bytes are left.
    pub open spec fn short_of(&self, n: int) -> bool {
        self.pos() + n > self.bytes().len()
    }

    fn read_u8(&mut self) -> (r: Result<u8, ParseError>)
        requires
            old(self).wf(),
        ensures
            final(self).bytes() == old(self).bytes(),
            match r {
                Ok(v) => Self::took(*old(self), *final(self), 1) && v == old(self).bytes()[old(
                    self,
                ).pos()],
                Err(e) => e == ParseError::UnexpectedEnd && old(self).short_of(1),
            },
    {
        if self.data.len() - self.offset < 1 {
            return Err(ParseError::UnexpectedEnd);
        }
        let d = self.data[self.offset];
        self.offset += 1;
        Ok(d)
    }

    fn read_u16(&mut self) -> (r: Result<u16, ParseError>)
        requires
            old(self).wf(),
        ensures
            final(self).bytes() == old(self).bytes(),
            match r {
                Ok(v) => Self::took(*old(self), *final(self), 2) && v == le_u16(
                    old(self).bytes(),
                    old(self).pos(),
                ),
                Err(e) => e == ParseError::UnexpectedEnd && old(self).short_of(2),
            },
    {
        if self.data.len() - self.offset < 2 {
            return Err(ParseError::UnexpectedEnd);
        }
        let b0: u16 = self.data[self.offset] as u16;
        let b1: u16 = self.data[self.offset + 1] as u16;
        self.offset += 2;
        Ok(b0 + b1 * 0x100)
    }

    fn read_u32(&mut self) -> (r: Result<u32, ParseError>)
        requires
            old(self).wf(),
        ensures
            final(self).bytes() == old(self).bytes(),
            match r {
                Ok(v) => Self::took(*old(self), *final(self), 4) && v == le_u32(
                    old(self).bytes(),
                    old(self).pos(),
                ),
                Err(e) => e == ParseError::UnexpectedEnd && old(self).short_of(4),
            },
    {
        if self.data.len() - self.offset < 4 {
            return Err(ParseError::UnexpectedEnd);
        }
        let b0: u32 = self.data[self.offset] as u32;
        let b1: u32 = self.data[self.offset + 1] as u32;
        let b2: u32 = self.data[self.offset + 2] as u32;
        let b3: u32 = self.data[self.offset + 3] as u32;
        self.offset += 4;
        Ok(b0 + b1 * 0x100 + b2 * 0x1_0000 + b3 * 0x100_0000)
    }

    fn read_i32(&mut self) -> (r: Result<i32, ParseError>)
        requires
            old(self).wf(),
        ensures
            final(self).bytes() == old(self).bytes(),
            match r {
                Ok(v) => Self::took(*old(self), *final(self), 4) && v == le_i32(
                    old(self).bytes(),
                    old(self).pos(),
                ),
                Err(e) => e == ParseError::UnexpectedEnd && old(self).short_of(4),
            },
    {
        let u: u32 = self.read_u32()?;
        if u >= 0x8000_0000 {
            let low: i32 = (u - 0x8000_0000) as i32;
            Ok(low - 0x7fff_ffff - 1)
        } else {
            Ok(u as i32)
        }
    }

    fn read_u64(&mut self) -> (r: Result<u64, ParseError>)
        requires
            old(self).wf(),
        ensures
            final(self).bytes() == old(self).bytes(),
            match r {
                Ok(v) => Self::took(*old(self), *final(self), 8) && v == le_u64(
                    old(self).bytes(),
                    old(self).pos(),
                ),
                Err(e) => e == ParseError::UnexpectedEnd && old(self).short_of(8),
            },
    {
        if self.data.len() - self.offset < 8 {
            return Err(ParseError::UnexpectedEnd);
        }
        let lo: u64 = self.read_u32()? as u64;
        let hi: u64 = self.read_u32()? as u64;
        Ok(lo + hi * 0x1_0000_0000)
    }

    /// Moves the cursor to the next multiple of 8.
    fn align_8(&mut self) -> (r: Result<(), ParseError>)
        requires
            old(self).wf(),
        ensures
            final(self).bytes() == old(self).bytes(),
            match r {
                Ok(_) => Self::moved_to(*old(self), *final(self), align8(old(self).pos())),
                Err(e) => e == ParseError::UnexpectedEnd && align8(old(self).pos()) > old(
                    self,
                ).bytes().len(),
            },
    {
        let pad: usize = (8 - self.offset % 8) % 8;
        if self.data.len() - self.offset < pad {
            return Err(ParseError::UnexpectedEnd);
        }
        self.offset += pad;
        Ok(())
    }

    fn read_functions(&mut self, num: u32) -> (r: Result<Vec<Function>, ParseError>)
        requires
            old(self).wf(),
        ensures
            final(self).bytes() == old(self).bytes(),
            match (r, spec_functions(old(self).bytes(), old(self).pos(), num as nat)) {
                (Ok(v), Ok(s)) => v@ == s && Self::took(*old(self), *final(self), 24 * num),
                (Err(e), Err(se)) => e == se,
                _ => false,
            },
    {
        let mut v: Vec<Function> = Vec::new();
        let ghost d = self.bytes();
        let ghost p = self.pos();
        let mut i: u32 = 0;
        while i < num
            invariant
                i <= num,
                self.wf(),
                self.bytes() == d,
                d == old(self).bytes(),
                p == old(self).pos(),
                self.pos() == p + 24 * i,
                v@ =~= Seq::new(i as nat, |j: int| spec_function(d, p + 24 * j)),
            decreases num - i,
        {
            let addr = self.read_u64()?;
            let stack_size = self.read_u64()?;
            let record_count = self.read_u64()?;
            v.push(Function { addr, record_count, stack_size });
            i += 1;
        }
        Ok(v)
    }

    fn read_consts(&mut self, num: u32) -> (r: Result<Vec<u64>, ParseError>)
        requires
            old(self).wf(),
        ensures
            final(self).bytes() == old(self).bytes(),
            match (r, spec_consts(old(self).bytes(), old(self).pos(), num as nat)) {
                (Ok(v), Ok(s)) => v@ == s && Self::took(*old(self), *final(self), 8 * num),
                (Err(e), Err(se)) => e == se,
                _ => false,
            },
    {
        let mut v: Vec<u64> = Vec::new();
        let ghost d = self.bytes();
        let ghost p = self.pos();
        let mut i: u32 = 0;
        while i < num
            invariant
                i <= num,
                self.wf(),
                self.bytes() == d,
                d == old(self).bytes(),
                p == old(self).pos(),
                self.pos() == p + 8 * i,
                v@ =~= Seq::new(i as nat, |j: int| le_u64(d, p + 8 * j)),
            decreases num - i,
        {
            let c = self.read_u64()?;
            v.push(c);
            i += 1;
        }
        Ok(v)
    }

    fn read_locations(&mut self, num: u16, consts: &[u64]) -> (r: Result<Vec<Location>, ParseError>)
        requires
            old(self).wf(),
        ensures
            final(self).bytes() == old(self).bytes(),
            match (r, spec_locations(old(self).bytes(), old(self).pos(), num as nat, consts@)) {
                (Ok(v), Ok(s)) => v@ == s && Self::took(*old(self), *final(self), 12 * num),
                (Err(e), Err(se)) => e == se,
                _ => false,
            },
    {
        let mut v: Vec<Location> = Vec::new();
        let ghost d = self.bytes();
        let ghost p = self.pos();
        let mut i: u16 = 0;
        while i < num
            invariant
                i <= num,
                self.wf(),
                self.bytes() == d,
                d == old(self).bytes(),
                p == old(self).pos(),
                self.pos() == p + 12 * i,
                spec_locations(d, p, i as nat, consts@) == Ok::<Seq<Location>, ParseError>(v@),
            decreases num - i,
        {
            proof {
                if spec_locations(d, p, (i + 1) as nat, consts@) is Err {
                    lemma_locations_error_stays(d, p, (i + 1) as nat, num as nat, consts@);
                }
            }
            if self.data.len() - self.offset < 12 {
                return Err(ParseError::UnexpectedEnd);
            }
            let kind = self.read_u8()?;
            self.read_u8()?;
            let size = self.read_u16()?;
            let dwreg = self.read_u16()?;
            self.read_u16()?;
            let location = if kind == 1 {
                self.read_i32()?;
                Location::Register(dwreg, size)
            } else if kind == 2 {
                let offset = self.read_i32()?;
                Location::Direct(dwreg, offset, size)
            } else if kind == 3 {
                let offset = self.read_i32()?;
                Location::Indirect(dwreg, offset, size)
            } else if kind == 4 {
                let offset = self.read_u32()?;
                Location::Constant(offset)
            } else if kind == 5 {
                let offset = self.read_i32()?;
                if offset < 0 || offset as usize >= consts.len() {
                    return Err(ParseError::BadConstantIndex);
                }
                Location::LargeConstant(consts[offset as usize])
            } else {
                return Err(ParseError::UnknownLocationKind);
            };
            v.push(location);
            i += 1;
        }
        Ok(v)
    }

    fn read_liveouts(&mut self, num: u16) -> (r: Result<(), ParseError>)
        requires
            old(self).wf(),
        ensures
            final(self).bytes() == old(self).bytes(),
            match r {
                Ok(_) => Self::took(*old(self), *final(self), 3 * num),
                Err(e) => e == ParseError::UnexpectedEnd && old(self).short_of(3 * num),
            },
    {
        let mut i: u16 = 0;
        while i < num
            invariant
                i <= num,
                self.wf(),
                self.bytes() == old(self).bytes(),
                self.pos() == old(self).pos() + 3 * i,
            decreases num - i,
        {
            let _dwreg = self.read_u16()?;
            let _size = self.read_u8()?;
            i += 1;
        }
        Ok(())
    }

    /// Reads one record, its offset still relative to its function.
    fn read_record(&mut self, consts: &[u64]) -> (r: Result<Record, ParseError>)
        requires
            old(self).wf(),
        ensures
            final(self).bytes() == old(self).bytes(),
            match (r, spec_record(old(self).bytes(), old(self).pos(), consts@)) {
                (Ok(v), Ok((s, q))) => v@ == s && Self::moved_to(*old(self), *final(self), q),
                (Err(e), Err(se)) => e == se,
                _ => false,
            },
    {
        if self.data.len() - self.offset < 16 {
            return Err(ParseError::UnexpectedEnd);
        }
        let id = self.read_u64()?;
        let offset = self.read_u32()? as u64;
        self.read_u16()?;
        let num_locs = self.read_u16()?;
        let locs = self.read_locations(num_locs, consts)?;
        // Padding
        self.align_8()?;
        self.read_u16()?;
        let num_liveouts = self.read_u16()?;
        self.read_liveouts(num_liveouts)?;
        self.align_8()?;
        Ok(Record { id, offset, locs, size: 0, pinfo: None })
    }

    fn read_records(&mut self, num: u64, consts: &[u64]) -> (r: Result<Vec<Record>, ParseError>)
        requires
            old(self).wf(),
        ensures
            final(self).bytes() == old(self).bytes(),
            match (r, spec_records(old(self).bytes(), old(self).pos(), num as nat, consts@)) {
                (Ok(v), Ok((s, q))) => records_view(v@) == s && Self::moved_to(
                    *old(self),
                    *final(self),
                    q,
                ),
                (Err(e), Err(se)) => e == se,
                _ => false,
            },
    {
        let mut v: Vec<Record> = Vec::new();
        let ghost d = self.bytes();
        let ghost p = self.pos();
        let mut i: u64 = 0;
        assert(records_view(v@) =~= Seq::empty());
        while i < num
            invariant
                i <= num,
                self.wf(),
                self.bytes() == d,
                d == old(self).bytes(),
                p == old(self).pos(),
                spec_records(d, p, i as nat, consts@) == Ok::<(Seq<RecordView>, int), ParseError>(
                    (records_view(v@), self.pos()),
                ),
            decreases num - i,
        {
            proof {
                if spec_records(d, p, (i + 1) as nat, consts@) is Err {
                    lemma_records_error_stays(d, p, (i + 1) as nat, num as nat, consts@);
                }
            }
            let ghost before = records_view(v@);
            let rec = self.read_record(consts)?;
            v.push(rec);
            i += 1;
            assert(records_view(v@) =~= before.push(rec@));
        }
        Ok(v)
    }

    /// Makes the offsets of function `f`'s records absolute and fills in
    /// the function's frame size.
    fn rebase_records(records: &mut Vec<Record>, f: &Function) -> (r: Result<(), ParseError>)
        ensures
            match (r, spec_rebase(records_view(old(records)@), *f)) {
                (Ok(_), Ok(s)) => records_view(final(records)@) == s,
                (Err(e), Err(se)) => e == se,
                _ => false,
            },
    {
        let ghost before = records_view(records@);
        let n = records.len();
        let mut j: usize = 0;
        while j < n
            invariant
                j <= n,
                n == records.len(),
                before == records_view(old(records)@),
                before.len() == n,
                forall|k: int| 0 <= k < j ==> f.addr + (#[trigger] before[k]).offset <= u64::MAX,
                forall|k: int| 0 <= k < j ==> (#[trigger] records[k])@ == rebased(before[k], *f),
                forall|k: int| j <= k < n ==> (#[trigger] records[k])@ == before[k],
            decreases n - j,
        {
            let offset = records[j].offset;
            if offset > u64::MAX - f.addr {
                assert(f.addr + before[j as int].offset > u64::MAX);
                return Err(ParseError::OffsetOverflow);
            }
            records[j].offset = f.addr + offset;
            records[j].size = f.stack_size;
            j += 1;
        }
        assert(records_view(records@) =~= Seq::new(before.len(), |i: int| rebased(before[i], *f)));
        Ok(())
    }

    /// Whether the record counts of `funcs` add up to `num_recs`.
    fn record_counts_match(funcs: &Vec<Function>, num_recs: u32) -> (r: bool)
        ensures
            r == (sum_record_counts(funcs@, funcs.len() as nat) == num_recs),
    {
        let mut total: u64 = 0;
        let mut k: usize = 0;
        while k < funcs.len()
            invariant
                k <= funcs.len(),
                total == sum_record_counts(funcs@, k as nat),
                total <= num_recs,
            decreases funcs.len() - k,
        {
            let count = funcs[k].record_count;
            if count > num_recs as u64 - total {
                proof {
                    lemma_sum_record_counts_grows(funcs@, (k + 1) as nat, funcs.len() as nat);
                }
                return false;
            }
            total += count;
            k += 1;
        }
        total == num_recs as u64
    }

    fn read_spills(&mut self, num: u32) -> (r: Result<Vec<(u16, i32)>, ParseError>)
        requires
            old(self).wf(),
        ensures
            final(self).bytes() == old(self).bytes(),
            match r {
                Ok(v) => Self::took(*old(self), *final(self), 8 * num) && v@ == Seq::new(
                    num as nat,
                    |i: int| spec_spill(old(self).bytes(), old(self).pos() + 8 * i),
                ),
                Err(e) => e == ParseError::UnexpectedEnd && old(self).short_of(8 * num),
            },
    {
        let mut v: Vec<(u16, i32)> = Vec::new();
        let ghost d = self.bytes();
        let ghost p = self.pos();
        let mut i: u32 = 0;
        while i < num
            invariant
                i <= num,
                self.wf(),
                self.bytes() == d,
                d == old(self).bytes(),
                p == old(self).pos(),
                self.pos() == p + 8 * i,
                v@ =~= Seq::new(i as nat, |j: int| spec_spill(d, p + 8 * j)),
            decreases num - i,
        {
            if self.data.len() - self.offset < 8 {
                return Err(ParseError::UnexpectedEnd);
            }
            let reg = self.read_u16()?;
            self.read_u16()?;  // Padding
            let off = self.read_i32()?;
            v.push((reg, off));
            i += 1;
        }
        Ok(v)
    }

    fn read_prologue(&mut self, num_funcs: u32) -> (r: Result<Vec<PrologueInfo>, ParseError>)
        requires
            old(self).wf(),
        ensures
            final(self).bytes() == old(self).bytes(),
            match (r, spec_prologues(old(self).bytes(), old(self).pos(), num_funcs as nat)) {
                (Ok(v), Ok((s, q))) => prologues_view(v@) == s && v.len() == num_funcs
                    && Self::moved_to(*old(self), *final(self), q),
                (Err(e), Err(se)) => e == se,
                _ => false,
            },
    {
        let mut pis: Vec<PrologueInfo> = Vec::new();
        let ghost d = self.bytes();
        let ghost p = self.pos();
        let mut i: u32 = 0;
        assert(prologues_view(pis@) =~= Seq::empty());
        while i < num_funcs
            invariant
                i <= num_funcs,
                pis.len() == i,
                self.wf(),
                self.bytes() == d,
                d == old(self).bytes(),
                p == old(self).pos(),
                spec_prologues(d, p, i as nat) == Ok::<(Seq<PrologueInfoView>, int), ParseError>(
                    (prologues_view(pis@), self.pos()),
                ),
            decreases num_funcs - i,
        {
            proof {
                if spec_prologues(d, p, (i + 1) as nat) is Err {
                    lemma_prologues_error_stays(d, p, (i + 1) as nat, num_funcs as nat);
                }
            }
            if self.data.len() - self.offset < 6 {
                return Err(ParseError::UnexpectedEnd);
            }
            let hasfptr = self.read_u8()?;
            if hasfptr != 0 && hasfptr != 1 {
                return Err(ParseError::BadFramePointerFlag);
            }
            self.read_u8()?;  // Padding
            let numspills = self.read_u32()?;
            let v = self.read_spills(numspills)?;
            let pi = PrologueInfo { hasfp: hasfptr != 0, csrs: v };
            let ghost before = prologues_view(pis@);
            pis.push(pi);
            i += 1;
            assert(prologues_view(pis@) =~= before.push(pi@));
        }
        Ok(pis)
    }

    /// Reads the records of each function in turn and rebases them.
    fn read_function_records(&mut self, funcs: &Vec<Function>, consts: &Vec<u64>) -> (r: Result<
        Vec<Vec<Record>>,
        ParseError,
    >)
        requires
            old(self).wf(),
        ensures
            final(self).bytes() == old(self).bytes(),
            match (
                r,
                spec_function_records(
                    old(self).bytes(),
                    old(self).pos(),
                    funcs@,
                    funcs.len() as nat,
                    consts@,
                ),
            ) {
                (Ok(v), Ok((s, q))) => record_lists_view(v@) == s && v.len() == funcs.len()
                    && Self::moved_to(*old(self), *final(self), q),
                (Err(e), Err(se)) => e == se,
                _ => false,
            },
    {
        let ghost d = self.bytes();
        let ghost p = self.pos();
        let mut recs: Vec<Vec<Record>> = Vec::new();
        assert(record_lists_view(recs@) =~= Seq::empty());
        let mut k: usize = 0;
        while k < funcs.len()
            invariant
                k <= funcs.len(),
                recs.len() == k,
                self.wf(),
                self.bytes() == d,
                d == old(self).bytes(),
                p == old(self).pos(),
                spec_function_records(d, p, funcs@, k as nat, consts@) == Ok::<
                    (Seq<Seq<RecordView>>, int),
                    ParseError,
                >((record_lists_view(recs@), self.pos())),
            decreases funcs.len() - k,
        {
            proof {
                if spec_function_records(d, p, funcs@, (k + 1) as nat, consts@) is Err {
                    lemma_function_records_error_stays(
                        d,
                        p,
                        funcs@,
                        (k + 1) as nat,
                        funcs.len() as nat,
                        consts@,
                    );
                }
            }
            let f = funcs[k];
            let mut records = self.read_records(f.record_count, consts.as_slice())?;
            Self::rebase_records(&mut records, &f)?;
            let ghost before = record_lists_view(recs@);
            recs.push(records);
            k += 1;
            assert(record_lists_view(recs@) =~= before.push(records_view(records@)));
        }
        Ok(recs)
    }

    /// Pairs each function's records with its prologue, from the last
    /// function to the first.
    fn pair_entries(recs: Vec<Vec<Record>>, ps: Vec<PrologueInfo>) -> (entries: Vec<SMEntry>)
        requires
            recs.len() == ps.len(),
        ensures
            entries_view(entries@) == spec_entries(record_lists_view(recs@), prologues_view(ps@)),
    {
        let mut recs = recs;
        let mut ps = ps;
        let ghost all_recs = record_lists_view(recs@);
        let ghost all_ps = prologues_view(ps@);
        let mut smentries: Vec<SMEntry> = Vec::new();
        while recs.len() > 0
            invariant
                recs.len() == ps.len(),
                recs.len() + smentries.len() == all_recs.len(),
                all_recs.len() == all_ps.len(),
                record_lists_view(recs@) =~= all_recs.take(recs.len() as int),
                prologues_view(ps@) =~= all_ps.take(ps.len() as int),
                forall|i: int|
                    0 <= i < smentries.len() ==> (#[trigger] smentries[i])@ == spec_entries(
                        all_recs,
                        all_ps,
                    )[i],
            decreases recs.len(),
        {
            let ghost recs_before = record_lists_view(recs@);
            let ghost ps_before = prologues_view(ps@);
            let records = recs.pop().unwrap();
            let pinfo = ps.pop().unwrap();
            assert(records_view(records@) == recs_before[recs_before.len() - 1]);
            assert(pinfo@ == ps_before[ps_before.len() - 1]);
            smentries.push(SMEntry { pinfo, records });
        }
        assert(entries_view(smentries@) =~= spec_entries(all_recs, all_ps));
        smentries
    }

    /// Reads the whole section, and leaves the cursor after the last
    /// prologue.
    fn read(&mut self) -> (r: Result<Vec<SMEntry>, ParseError>)
        requires
            old(self).wf(),
            old(self).pos() == 0,
        ensures
            final(self).bytes() == old(self).bytes(),
            match (r, spec_stackmap(old(self).bytes())) {
                (Ok(v), Ok(s)) => entries_view(v@) == s && Self::moved_to(
                    *old(self),
                    *final(self),
                    spec_stackmap_end(old(self).bytes()),
                ),
                (Err(e), Err(se)) => e == se,
                _ => false,
            },
    {
        // Read version number.
        if self.read_u8()? != 3 {
            return Err(ParseError::UnsupportedVersion);
        }
        // Reserved
        if self.data.len() - self.offset < 3 {
            return Err(ParseError::UnexpectedEnd);
        }
        let reserved8 = self.read_u8()?;
        let reserved16 = self.read_u16()?;
        if reserved8 != 0 || reserved16 != 0 {
            return Err(ParseError::ReservedNotZero);
        }
        if self.data.len() - self.offset < 12 {
            return Err(ParseError::UnexpectedEnd);
        }
        let num_funcs = self.read_u32()?;
        let num_consts = self.read_u32()?;
        let num_recs = self.read_u32()?;

        let funcs = self.read_functions(num_funcs)?;
        let consts = self.read_consts(num_consts)?;

        // Check that the records match the sum of the expected records per function.
        if !Self::record_counts_match(&funcs, num_recs) {
            return Err(ParseError::RecordCountMismatch);
        }
        // Parse records.
        let recs = self.read_function_records(&funcs, &consts)?;

        // Read prologue info.
        let ps = self.read_prologue(num_funcs)?;

        Ok(Self::pair_entries(recs, ps))
    }

    /// Parses a stackmap section into its entries, one per function, listed
    /// from the last function of the section to the first.
    ///
    /// The section must be well formed.
    pub fn by_id(data: &[u8]) -> (entries: Vec<SMEntry>)
        requires
            spec_stackmap(data@) is Ok,
        ensures
            spec_stackmap(data@) == Ok::<Seq<SMEntryView>, ParseError>(entries_view(entries@)),
    {
        let mut smp = StackMapParser { data, offset: 0 };
        match smp.read() {
            Ok(entries) => entries,
            Err(_) => vstd::pervasive::unreached(),
        }
    }

    /// Parses a stackmap section into a table from each record's return
    /// address to the locations of its live values.
    pub fn parse(data: &[u8]) -> (r: Result<HashMap<u64, Vec<Location>>, ParseError>)
        ensures
            match (r, spec_stackmap(data@)) {
                (Ok(m), Ok(s)) => locs_map_view(m@) == offsets_map(all_records(s)),
                (Err(e), Err(se)) => e == se,
                _ => false,
            },
    {
        let mut smp = StackMapParser { data, offset: 0 };
        let entries = smp.read()?;
        let ghost es = entries_view(entries@);
        let mut map: HashMap<u64, Vec<Location>> = HashMap::new();
        assert(locs_map_view(map@) =~= offsets_map(all_records(es.take(0))));
        for sme in it: entries
            invariant
                entries_view(it.seq()) == es,
                locs_map_view(map@) == offsets_map(all_records(es.take(it.index()))),
        {
            let ghost done = all_records(es.take(it.index()));
            let ghost rs = sme@.records;
            assert(es.take(it.index() + 1).drop_last() =~= es.take(it.index()));
            for r in rit: sme.records
                invariant
                    records_view(rit.seq()) == rs,
                    locs_map_view(map@) == offsets_map(done + rs.take(rit.index())),
            {
                assert((done + rs.take(rit.index() + 1)).drop_last() =~= done + rs.take(
                    rit.index(),
                ));
                let ghost before = locs_map_view(map@);
                map.insert(r.offset, r.locs);
                assert(locs_map_view(map@) =~= before.insert(r.offset, r.locs@));
            }
            assert(rs.take(rs.len() as int) =~= rs);
        }
        assert(es.take(es.len() as int) =~= es);
        Ok(map)
    }
}

} // verus!
