//! The version 3 stackmap format: the data it describes and, as spec
//! functions over the section's bytes, what a well-formed section means.
//!
//! All multi-byte fields are little-endian, as on x86-64.

use vstd::prelude::*;

verus! {

/// Why a stackmap section was rejected.
#[derive(Debug, Clone, Copy, PartialEq, Eq, Structural)]
pub enum ParseError {
    /// The section ends before a field that the format requires.
    UnexpectedEnd,
    /// The version byte is not 3.
    UnsupportedVersion,
    /// A reserved header field is not zero.
    ReservedNotZero,
    /// The per-function record counts do not add up to the header's count.
    RecordCountMismatch,
    /// A location descriptor has a kind outside 1..=5.
    UnknownLocationKind,
    /// A large-constant location indexes outside the constant pool.
    BadConstantIndex,
    /// A record's offset added to its function's address exceeds 64 bits.
    OffsetOverflow,
    /// A prologue's frame-pointer flag is neither 0 nor 1.
    BadFramePointerFlag,
}

impl ParseError {
    /// The error in words.
    pub fn message(&self) -> (s: String)
        ensures
            s@ == match *self {
                ParseError::UnexpectedEnd => "The stackmap ends before a field that its format requires."@,
                ParseError::UnsupportedVersion => "Only stackmap format version 3 is supported."@,
                ParseError::ReservedNotZero => "A reserved field of the stackmap header is not zero."@,
                ParseError::RecordCountMismatch => "The record counts of the functions do not add up to the header's."@,
                ParseError::UnknownLocationKind => "A location is of an unknown kind."@,
                ParseError::BadConstantIndex => "A location names a constant outside the constant pool."@,
                ParseError::OffsetOverflow => "A record lies beyond the 64-bit address space."@,
                ParseError::BadFramePointerFlag => "A frame-pointer flag is neither 0 nor 1."@,
            },
    {
        match self {
            ParseError::UnexpectedEnd => "The stackmap ends before a field that its format requires.".to_owned(),
            ParseError::UnsupportedVersion => "Only stackmap format version 3 is supported.".to_owned(),
            ParseError::ReservedNotZero => "A reserved field of the stackmap header is not zero.".to_owned(),
            ParseError::RecordCountMismatch => "The record counts of the functions do not add up to the header's.".to_owned(),
            ParseError::UnknownLocationKind => "A location is of an unknown kind.".to_owned(),
            ParseError::BadConstantIndex => "A location names a constant outside the constant pool.".to_owned(),
            ParseError::OffsetOverflow => "A record lies beyond the 64-bit address space.".to_owned(),
            ParseError::BadFramePointerFlag => "A frame-pointer flag is neither 0 nor 1.".to_owned(),
        }
    }
}

/// Where a live value is found when execution stands at a record.
#[derive(Debug, Clone, Copy, PartialEq, Eq, Structural)]
pub enum Location {
    /// In a register: (DWARF register, size).
    Register(u16, u16),
    /// The address `register + offset` itself: (DWARF register, offset, size).
    Direct(u16, i32, u16),
    /// Stored at the address `register + offset`: (DWARF register, offset, size).
    Indirect(u16, i32, u16),
    /// A constant that fits the descriptor.
    Constant(u32),
    /// A constant taken from the section's constant pool.
    LargeConstant(u64),
}

/// One entry of the section's function table.
#[derive(Debug, Clone, Copy, PartialEq, Eq, Structural)]
pub struct Function {
    pub addr: u64,
    pub record_count: u64,
    pub stack_size: u64,
}

/// What a function's prologue saved.
pub struct PrologueInfo {
    pub hasfp: bool,
    pub csrs: Vec<(u16, i32)>,
}

/// One safepoint: the live values at one return address.
pub struct Record {
    pub id: u64,
    pub offset: u64,
    pub locs: Vec<Location>,
    pub size: u64,
    pub pinfo: Option<PrologueInfo>,
}

/// The records of one function together with its prologue.
pub struct SMEntry {
    pub pinfo: PrologueInfo,
    pub records: Vec<Record>,
}

pub struct PrologueInfoView {
    pub hasfp: bool,
    pub csrs: Seq<(u16, i32)>,
}

pub struct RecordView {
    pub id: u64,
    pub offset: u64,
    pub locs: Seq<Location>,
    pub size: u64,
    pub pinfo: Option<PrologueInfoView>,
}

pub struct SMEntryView {
    pub pinfo: PrologueInfoView,
    pub records: Seq<RecordView>,
}

impl View for PrologueInfo {
    type V = PrologueInfoView;

    open spec fn view(&self) -> PrologueInfoView {
        PrologueInfoView { hasfp: self.hasfp, csrs: self.csrs@ }
    }
}

impl View for Record {
    type V = RecordView;

    open spec fn view(&self) -> RecordView {
        RecordView {
            id: self.id,
            offset: self.offset,
            locs: self.locs@,
            size: self.size,
            pinfo: match self.pinfo {
                Some(p) => Some(p@),
                None => None,
            },
        }
    }
}

impl View for SMEntry {
    type V = SMEntryView;

    open spec fn view(&self) -> SMEntryView {
        SMEntryView { pinfo: self.pinfo@, records: records_view(self.records@) }
    }
}

pub open spec fn records_view(rs: Seq<Record>) -> Seq<RecordView> {
    Seq::new(rs.len(), |i: int| rs[i]@)
}

pub open spec fn entries_view(es: Seq<SMEntry>) -> Seq<SMEntryView> {
    Seq::new(es.len(), |i: int| es[i]@)
}

pub open spec fn prologues_view(ps: Seq<PrologueInfo>) -> Seq<PrologueInfoView> {
    Seq::new(ps.len(), |i: int| ps[i]@)
}

pub open spec fn record_lists_view(rs: Seq<Vec<Record>>) -> Seq<Seq<RecordView>> {
    Seq::new(rs.len(), |i: int| records_view(rs[i]@))
}

/// A lookup table's entries with each list of locations as a sequence.
pub open spec fn locs_map_view(m: Map<u64, Vec<Location>>) -> Map<u64, Seq<Location>> {
    Map::new(|k: u64| m.contains_key(k), |k: u64| m[k]@)
}

// ---------------------------------------------------------------------
// Fixed-width fields
// ---------------------------------------------------------------------

pub open spec fn le_u16(d: Seq<u8>, p: int) -> u16 {
    (d[p] as int + 0x100 * (d[p + 1] as int)) as u16
}

pub open spec fn le_u32(d: Seq<u8>, p: int) -> u32 {
    (d[p] as int + 0x100 * (d[p + 1] as int) + 0x1_0000 * (d[p + 2] as int) + 0x100_0000 * (d[p
        + 3] as int)) as u32
}

pub open spec fn le_u64(d: Seq<u8>, p: int) -> u64 {
    (le_u32(d, p) as int + 0x1_0000_0000 * (le_u32(d, p + 4) as int)) as u64
}

/// The two's-complement reading of the four bytes at `p`.
pub open spec fn le_i32(d: Seq<u8>, p: int) -> i32 {
    let u = le_u32(d, p) as int;
    if u >= 0x8000_0000 {
        (u - 0x1_0000_0000) as i32
    } else {
        u as i32
    }
}

/// The first multiple of 8 at or after `p`.
pub open spec fn align8(p: int) -> int {
    p + (8 - p % 8) % 8
}

// ---------------------------------------------------------------------
// Tables of fixed-size items
// ---------------------------------------------------------------------

pub const HEADER_LEN: usize = 16;

pub const FUNCTION_LEN: usize = 24;

pub const LOCATION_LEN: usize = 12;

pub const LIVEOUT_LEN: usize = 3;

pub const SPILL_LEN: usize = 8;

pub open spec fn spec_function(d: Seq<u8>, p: int) -> Function {
    Function { addr: le_u64(d, p), stack_size: le_u64(d, p + 8), record_count: le_u64(d, p + 16) }
}

/// The function table of `n` entries that starts at `p`.
pub open spec fn spec_functions(d: Seq<u8>, p: int, n: nat) -> Result<Seq<Function>, ParseError> {
    if p + 24 * n > d.len() {
        Err(ParseError::UnexpectedEnd)
    } else {
        Ok(Seq::new(n, |i: int| spec_function(d, p + 24 * i)))
    }
}

/// The constant pool of `n` entries that starts at `p`.
pub open spec fn spec_consts(d: Seq<u8>, p: int, n: nat) -> Result<Seq<u64>, ParseError> {
    if p + 8 * n > d.len() {
        Err(ParseError::UnexpectedEnd)
    } else {
        Ok(Seq::new(n, |i: int| le_u64(d, p + 8 * i)))
    }
}

/// The sum of the record counts of the first `k` functions.
pub open spec fn sum_record_counts(fs: Seq<Function>, k: nat) -> nat
    decreases k,
{
    if k == 0 {
        0
    } else {
        sum_record_counts(fs, (k - 1) as nat) + fs[k - 1].record_count as nat
    }
}

// ---------------------------------------------------------------------
// Locations
// ---------------------------------------------------------------------

/// The location descriptor in the 12 bytes at `p`.
pub open spec fn spec_location(d: Seq<u8>, p: int, consts: Seq<u64>) -> Result<
    Location,
    ParseError,
> {
    let kind = d[p];
    let size = le_u16(d, p + 2);
    let dwreg = le_u16(d, p + 4);
    if kind == 1 {
        Ok(Location::Register(dwreg, size))
    } else if kind == 2 {
        Ok(Location::Direct(dwreg, le_i32(d, p + 8), size))
    } else if kind == 3 {
        Ok(Location::Indirect(dwreg, le_i32(d, p + 8), size))
    } else if kind == 4 {
        Ok(Location::Constant(le_u32(d, p + 8)))
    } else if kind == 5 {
        let i = le_i32(d, p + 8);
        if 0 <= i < consts.len() {
            Ok(Location::LargeConstant(consts[i as int]))
        } else {
            Err(ParseError::BadConstantIndex)
        }
    } else {
        Err(ParseError::UnknownLocationKind)
    }
}

/// The first `n` location descriptors of the run that starts at `p`; the
/// first descriptor that is cut short or malformed decides the error.
pub open spec fn spec_locations(d: Seq<u8>, p: int, n: nat, consts: Seq<u64>) -> Result<
    Seq<Location>,
    ParseError,
>
    decreases n,
{
    if n == 0 {
        Ok(Seq::empty())
    } else {
        match spec_locations(d, p, (n - 1) as nat, consts) {
            Err(e) => Err(e),
            Ok(s) => if p + 12 * n > d.len() {
                Err(ParseError::UnexpectedEnd)
            } else {
                match spec_location(d, p + 12 * (n - 1), consts) {
                    Err(e) => Err(e),
                    Ok(l) => Ok(s.push(l)),
                }
            },
        }
    }
}

// ---------------------------------------------------------------------
// Records
// ---------------------------------------------------------------------

/// The record that starts at `p`, as it stands in the section (its offset
/// still relative to its function), and the position after it.
pub open spec fn spec_record(d: Seq<u8>, p: int, consts: Seq<u64>) -> Result<
    (RecordView, int),
    ParseError,
> {
    if p + 16 > d.len() {
        Err(ParseError::UnexpectedEnd)
    } else {
        let num_locs = le_u16(d, p + 14);
        match spec_locations(d, p + 16, num_locs as nat, consts) {
            Err(e) => Err(e),
            Ok(locs) => {
                let liveouts_at = align8(p + 16 + 12 * num_locs);
                if liveouts_at + 4 > d.len() {
                    Err(ParseError::UnexpectedEnd)
                } else {
                    let end = liveouts_at + 4 + 3 * le_u16(d, liveouts_at + 2);
                    if align8(end) > d.len() {
                        Err(ParseError::UnexpectedEnd)
                    } else {
                        Ok(
                            (
                                RecordView {
                                    id: le_u64(d, p),
                                    offset: le_u32(d, p + 8) as u64,
                                    locs,
                                    size: 0,
                                    pinfo: None,
                                },
                                align8(end),
                            ),
                        )
                    }
                }
            },
        }
    }
}

/// The first `n` records of the run that starts at `p`, and the position
/// after them.
pub open spec fn spec_records(d: Seq<u8>, p: int, n: nat, consts: Seq<u64>) -> Result<
    (Seq<RecordView>, int),
    ParseError,
>
    decreases n,
{
    if n == 0 {
        Ok((Seq::empty(), p))
    } else {
        match spec_records(d, p, (n - 1) as nat, consts) {
            Err(e) => Err(e),
            Ok((s, q)) => match spec_record(d, q, consts) {
                Err(e) => Err(e),
                Ok((r, q2)) => Ok((s.push(r), q2)),
            },
        }
    }
}

/// A record of function `f` with its offset made absolute and its frame
/// size filled in.
pub open spec fn rebased(r: RecordView, f: Function) -> RecordView {
    RecordView {
        id: r.id,
        offset: (f.addr + r.offset) as u64,
        locs: r.locs,
        size: f.stack_size,
        pinfo: r.pinfo,
    }
}

/// The records of function `f` rebased, unless one of them would leave
/// the 64-bit address space.
pub open spec fn spec_rebase(rs: Seq<RecordView>, f: Function) -> Result<
    Seq<RecordView>,
    ParseError,
> {
    if exists|i: int| 0 <= i < rs.len() && f.addr + (#[trigger] rs[i]).offset > u64::MAX {
        Err(ParseError::OffsetOverflow)
    } else {
        Ok(Seq::new(rs.len(), |i: int| rebased(rs[i], f)))
    }
}

/// The rebased records of the first `k` functions, read one function after
/// the other from `p`, and the position after them.
pub open spec fn spec_function_records(
    d: Seq<u8>,
    p: int,
    fs: Seq<Function>,
    k: nat,
    consts: Seq<u64>,
) -> Result<(Seq<Seq<RecordView>>, int), ParseError>
    decreases k,
{
    if k == 0 {
        Ok((Seq::empty(), p))
    } else {
        match spec_function_records(d, p, fs, (k - 1) as nat, consts) {
            Err(e) => Err(e),
            Ok((s, q)) => match spec_records(d, q, fs[k - 1].record_count as nat, consts) {
                Err(e) => Err(e),
                Ok((rs, q2)) => match spec_rebase(rs, fs[k - 1]) {
                    Err(e) => Err(e),
                    Ok(rb) => Ok((s.push(rb), q2)),
                },
            },
        }
    }
}

// ---------------------------------------------------------------------
// Prologues
// ---------------------------------------------------------------------

pub open spec fn spec_spill(d: Seq<u8>, p: int) -> (u16, i32) {
    (le_u16(d, p), le_i32(d, p + 4))
}

/// The prologue description that starts at `p`, and the position after it.
pub open spec fn spec_prologue(d: Seq<u8>, p: int) -> Result<(PrologueInfoView, int), ParseError> {
    if p + 6 > d.len() {
        Err(ParseError::UnexpectedEnd)
    } else if d[p] != 0 && d[p] != 1 {
        Err(ParseError::BadFramePointerFlag)
    } else {
        let n = le_u32(d, p + 2) as nat;
        if p + 6 + 8 * n > d.len() {
            Err(ParseError::UnexpectedEnd)
        } else {
            Ok(
                (
                    PrologueInfoView {
                        hasfp: d[p] != 0,
                        csrs: Seq::new(n, |i: int| spec_spill(d, p + 6 + 8 * i)),
                    },
                    p + 6 + 8 * n,
                ),
            )
        }
    }
}

/// The first `n` prologue descriptions of the run that starts at `p`, and
/// the position after them.
pub open spec fn spec_prologues(d: Seq<u8>, p: int, n: nat) -> Result<
    (Seq<PrologueInfoView>, int),
    ParseError,
>
    decreases n,
{
    if n == 0 {
        Ok((Seq::empty(), p))
    } else {
        match spec_prologues(d, p, (n - 1) as nat) {
            Err(e) => Err(e),
            Ok((s, q)) => match spec_prologue(d, q) {
                Err(e) => Err(e),
                Ok((pi, q2)) => Ok((s.push(pi), q2)),
            },
        }
    }
}

// ---------------------------------------------------------------------
// The section
// ---------------------------------------------------------------------

/// Function `i`'s entry comes out at index `n - 1 - i`: the entries are
/// listed from the last function to the first.
pub open spec fn spec_entries(recs: Seq<Seq<RecordView>>, ps: Seq<PrologueInfoView>) -> Seq<
    SMEntryView,
> {
    Seq::new(
        recs.len(),
        |i: int| SMEntryView { pinfo: ps[ps.len() - 1 - i], records: recs[recs.len() - 1 - i] },
    )
}

/// What a whole section holds: the header, the function table, the
/// constant pool, each function's records and each function's prologue.
/// Bytes after the last prologue are ignored.
pub open spec fn spec_stackmap(d: Seq<u8>) -> Result<Seq<SMEntryView>, ParseError> {
    if d.len() < 1 {
        Err(ParseError::UnexpectedEnd)
    } else if d[0] != 3 {
        Err(ParseError::UnsupportedVersion)
    } else if d.len() < 4 {
        Err(ParseError::UnexpectedEnd)
    } else if d[1] != 0 || le_u16(d, 2) != 0 {
        Err(ParseError::ReservedNotZero)
    } else if d.len() < 16 {
        Err(ParseError::UnexpectedEnd)
    } else {
        let num_funcs = le_u32(d, 4) as nat;
        let num_consts = le_u32(d, 8) as nat;
        let num_recs = le_u32(d, 12) as nat;
        let consts_at = 16 + 24 * num_funcs as int;
        let records_at = consts_at + 8 * num_consts as int;
        match spec_functions(d, 16, num_funcs) {
            Err(e) => Err(e),
            Ok(fs) => match spec_consts(d, consts_at, num_consts) {
                Err(e) => Err(e),
                Ok(consts) => if sum_record_counts(fs, num_funcs) != num_recs {
                    Err(ParseError::RecordCountMismatch)
                } else {
                    match spec_function_records(d, records_at, fs, num_funcs, consts) {
                        Err(e) => Err(e),
                        Ok((recs, q)) => match spec_prologues(d, q, num_funcs) {
                            Err(e) => Err(e),
                            Ok((ps, _)) => Ok(spec_entries(recs, ps)),
                        },
                    }
                },
            },
        }
    }
}

/// Where a well-formed section's last prologue ends: what stands after
/// that position is not part of the stackmap.
pub open spec fn spec_stackmap_end(d: Seq<u8>) -> int {
    let num_funcs = le_u32(d, 4) as nat;
    let num_consts = le_u32(d, 8) as nat;
    let consts_at = 16 + 24 * num_funcs as int;
    let records_at = consts_at + 8 * num_consts as int;
    match spec_functions(d, 16, num_funcs) {
        Err(_) => 0,
        Ok(fs) => match spec_consts(d, consts_at, num_consts) {
            Err(_) => 0,
            Ok(consts) => match spec_function_records(d, records_at, fs, num_funcs, consts) {
                Err(_) => 0,
                Ok((_, q)) => match spec_prologues(d, q, num_funcs) {
                    Err(_) => 0,
                    Ok((_, end)) => end,
                },
            },
        },
    }
}

/// All the records of a list of entries, entry after entry.
pub open spec fn all_records(es: Seq<SMEntryView>) -> Seq<RecordView>
    decreases es.len(),
{
    if es.len() == 0 {
        Seq::empty()
    } else {
        all_records(es.drop_last()) + es.last().records
    }
}

/// The lookup table that a list of records gives: each record's live
/// values under its return address; of two records at one address the
/// later one counts.
pub open spec fn offsets_map(rs: Seq<RecordView>) -> Map<u64, Seq<Location>>
    decreases rs.len(),
{
    if rs.len() == 0 {
        Map::empty()
    } else {
        offsets_map(rs.drop_last()).insert(rs.last().offset, rs.last().locs)
    }
}

// ---------------------------------------------------------------------
// Facts about the format
// ---------------------------------------------------------------------

/// The sum of the record counts never shrinks as functions are added.
pub proof fn lemma_sum_record_counts_grows(fs: Seq<Function>, k: nat, n: nat)
    requires
        k <= n,
    ensures
        sum_record_counts(fs, k) <= sum_record_counts(fs, n),
    decreases n,
{
    if k < n {
        lemma_sum_record_counts_grows(fs, k, (n - 1) as nat);
    }
}

/// A run of locations that fails after `k` descriptors fails the same way
/// however many more are asked for.
pub proof fn lemma_locations_error_stays(d: Seq<u8>, p: int, k: nat, n: nat, consts: Seq<u64>)
    requires
        k <= n,
        spec_locations(d, p, k, consts) is Err,
    ensures
        spec_locations(d, p, n, consts) == spec_locations(d, p, k, consts),
    decreases n,
{
    if k < n {
        lemma_locations_error_stays(d, p, k, (n - 1) as nat, consts);
    }
}

/// A run of records that fails after `k` records fails the same way
/// however many more are asked for.
pub proof fn lemma_records_error_stays(d: Seq<u8>, p: int, k: nat, n: nat, consts: Seq<u64>)
    requires
        k <= n,
        spec_records(d, p, k, consts) is Err,
    ensures
        spec_records(d, p, n, consts) == spec_records(d, p, k, consts),
    decreases n,
{
    if k < n {
        lemma_records_error_stays(d, p, k, (n - 1) as nat, consts);
    }
}

/// The records of the functions fail the same way however many more
/// functions are asked for.
pub proof fn lemma_function_records_error_stays(
    d: Seq<u8>,
    p: int,
    fs: Seq<Function>,
    k: nat,
    n: nat,
    consts: Seq<u64>,
)
    requires
        k <= n,
        spec_function_records(d, p, fs, k, consts) is Err,
    ensures
        spec_function_records(d, p, fs, n, consts) == spec_function_records(d, p, fs, k, consts),
    decreases n,
{
    if k < n {
        lemma_function_records_error_stays(d, p, fs, k, (n - 1) as nat, consts);
    }
}

/// A run of prologues that fails after `k` of them fails the same way
/// however many more are asked for.
pub proof fn lemma_prologues_error_stays(d: Seq<u8>, p: int, k: nat, n: nat)
    requires
        k <= n,
        spec_prologues(d, p, k) is Err,
    ensures
        spec_prologues(d, p, n) == spec_prologues(d, p, k),
    decreases n,
{
    if k < n {
        lemma_prologues_error_stays(d, p, k, (n - 1) as nat);
    }
}

/// A run of `n` records that parses holds `n` records.
pub proof fn lemma_records_len(d: Seq<u8>, p: int, n: nat, consts: Seq<u64>)
    ensures
        spec_records(d, p, n, consts) matches Ok((s, _)) ==> s.len() == n,
    decreases n,
{
    if n > 0 {
        lemma_records_len(d, p, (n - 1) as nat, consts);
    }
}

/// Where the records of `k` functions parse, there is one list for each
/// function, as long as the function's record count says.
pub proof fn lemma_function_records_shape(
    d: Seq<u8>,
    p: int,
    fs: Seq<Function>,
    k: nat,
    consts: Seq<u64>,
)
    ensures
        spec_function_records(d, p, fs, k, consts) matches Ok((recs, _)) ==> recs.len() == k
            && forall|i: int| 0 <= i < k ==> (#[trigger] recs[i]).len() == fs[i].record_count,
    decreases k,
{
    if k > 0 {
        lemma_function_records_shape(d, p, fs, (k - 1) as nat, consts);
        if let Ok((s, q)) = spec_function_records(d, p, fs, (k - 1) as nat, consts) {
            lemma_records_len(d, q, fs[k - 1].record_count as nat, consts);
        }
    }
}

/// A run of `n` prologues that parses holds `n` prologues.
pub proof fn lemma_prologues_len(d: Seq<u8>, p: int, n: nat)
    ensures
        spec_prologues(d, p, n) matches Ok((s, _)) ==> s.len() == n,
    decreases n,
{
    if n > 0 {
        lemma_prologues_len(d, p, (n - 1) as nat);
    }
}

/// The first `j` entries hold the records of the last `j` functions.
proof fn lemma_all_records_len(
    recs: Seq<Seq<RecordView>>,
    ps: Seq<PrologueInfoView>,
    fs: Seq<Function>,
    j: nat,
)
    requires
        recs.len() == ps.len(),
        recs.len() == fs.len(),
        j <= recs.len(),
        forall|i: int| 0 <= i < recs.len() ==> (#[trigger] recs[i]).len() == fs[i].record_count,
    ensures
        all_records(spec_entries(recs, ps).take(j as int)).len() == sum_record_counts(
            fs,
            fs.len(),
        ) - sum_record_counts(fs, (fs.len() - j) as nat),
    decreases j,
{
    let es = spec_entries(recs, ps);
    if j > 0 {
        lemma_all_records_len(recs, ps, fs, (j - 1) as nat);
        assert(es.take(j as int).drop_last() =~= es.take(j - 1));
    }
}

/// A well-formed section yields one entry for each function of its
/// function table, and together the entries hold as many records as the
/// header declares.
pub proof fn lemma_stackmap_counts(d: Seq<u8>)
    requires
        spec_stackmap(d) is Ok,
    ensures
        spec_stackmap(d) matches Ok(es) && es.len() == le_u32(d, 4) && all_records(es).len()
            == le_u32(d, 12),
{
    let num_funcs = le_u32(d, 4) as nat;
    let num_consts = le_u32(d, 8) as nat;
    let consts_at = 16 + 24 * num_funcs as int;
    let records_at = consts_at + 8 * num_consts as int;
    let fs = spec_functions(d, 16, num_funcs)->Ok_0;
    let consts = spec_consts(d, consts_at, num_consts)->Ok_0;
    lemma_function_records_shape(d, records_at, fs, num_funcs, consts);
    let (recs, q) = spec_function_records(d, records_at, fs, num_funcs, consts)->Ok_0;
    lemma_prologues_len(d, q, num_funcs);
    let (ps, _) = spec_prologues(d, q, num_funcs)->Ok_0;
    lemma_all_records_len(recs, ps, fs, num_funcs);
    let es = spec_entries(recs, ps);
    assert(es.take(num_funcs as int) =~= es);
}

/// A return address is in the lookup table exactly if some record stands
/// at it.
pub proof fn lemma_offsets_map_dom(rs: Seq<RecordView>, k: u64)
    ensures
        offsets_map(rs).contains_key(k) <==> exists|i: int|
            0 <= i < rs.len() && (#[trigger] rs[i]).offset == k,
    decreases rs.len(),
{
    if rs.len() > 0 {
        lemma_offsets_map_dom(rs.drop_last(), k);
        if offsets_map(rs).contains_key(k) {
            if rs.last().offset == k {
                assert(rs[rs.len() - 1].offset == k);
            } else {
                let i = choose|i: int|
                    0 <= i < rs.drop_last().len() && (#[trigger] rs.drop_last()[i]).offset == k;
                assert(rs[i].offset == k);
            }
        }
        if exists|i: int| 0 <= i < rs.len() && (#[trigger] rs[i]).offset == k {
            let i = choose|i: int| 0 <= i < rs.len() && (#[trigger] rs[i]).offset == k;
            if i < rs.len() - 1 {
                assert(rs.drop_last()[i].offset == k);
            }
        }
    }
}

/// The lookup table gives, for a record's return address, that record's
/// locations, unless a later record stands at the same address.
pub proof fn lemma_offsets_map_lookup(rs: Seq<RecordView>, i: int)
    requires
        0 <= i < rs.len(),
        forall|j: int| i < j < rs.len() ==> (#[trigger] rs[j]).offset != rs[i].offset,
    ensures
        offsets_map(rs).contains_key(rs[i].offset),
        offsets_map(rs)[rs[i].offset] == rs[i].locs,
    decreases rs.len(),
{
    if i < rs.len() - 1 {
        assert(rs[rs.len() - 1].offset != rs[i].offset);
        assert forall|j: int| i < j < rs.drop_last().len() implies (#[trigger] rs.drop_last()[
            j
        ]).offset != rs.drop_last()[i].offset by {
            assert(rs[j].offset != rs[i].offset);
        }
        lemma_offsets_map_lookup(rs.drop_last(), i);
    }
}

} // verus!
