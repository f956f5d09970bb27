use ykrt::compile::{
    CompilationError, CompiledTrace, Guard, GuardId, JITCLLVM, SideTraceInfo, TraceId,
};
use ykrt::stackmap::{Location, ParseError};
use ykrt::trace::{AOTTraceIteratorError, TraceAction};

/// A stackmap section with one function at `addr` and one record for each
/// list of locations, at the offsets 0, 8, 16, ...
fn section(addr: u64, records: &[Vec<(u8, u16, u16, u32)>]) -> Vec<u8> {
    let mut v = vec![3, 0, 0, 0];
    v.extend_from_slice(&1u32.to_le_bytes());
    v.extend_from_slice(&0u32.to_le_bytes());
    v.extend_from_slice(&(records.len() as u32).to_le_bytes());
    v.extend_from_slice(&addr.to_le_bytes());
    v.extend_from_slice(&64u64.to_le_bytes());
    v.extend_from_slice(&(records.len() as u64).to_le_bytes());
    for (i, locs) in records.iter().enumerate() {
        v.extend_from_slice(&(i as u64).to_le_bytes());
        v.extend_from_slice(&(8 * i as u32).to_le_bytes());
        v.extend_from_slice(&[0, 0]);
        v.extend_from_slice(&(locs.len() as u16).to_le_bytes());
        for (kind, size, dwreg, imm) in locs {
            v.extend_from_slice(&[*kind, 0]);
            v.extend_from_slice(&size.to_le_bytes());
            v.extend_from_slice(&dwreg.to_le_bytes());
            v.extend_from_slice(&[0, 0]);
            v.extend_from_slice(&imm.to_le_bytes());
        }
        while v.len() % 8 != 0 {
            v.push(0);
        }
        v.extend_from_slice(&[0; 8]);
    }
    v.extend_from_slice(&[1, 0, 0, 0, 0, 0]);
    v
}

#[test]
fn guard_counts_failures_and_keeps_its_side_trace() {
    let mut g = Guard::new();
    assert_eq!((g.failed(), g.getct()), (0, None));
    assert!(!g.inc_failed(2));
    assert!(!g.inc_failed(2));
    assert_eq!(g.failed(), 2);
    // The failure that follows as many failures as the threshold says is the first hot one.
    assert!(g.inc_failed(2));
    assert!(g.inc_failed(2));
    assert_eq!(g.failed(), 4);
    g.setct(TraceId(7));
    assert_eq!(g.getct(), Some(TraceId(7)));
    g.setct(TraceId(8));
    assert_eq!((g.failed(), g.getct()), (4, Some(TraceId(8))));
    let mut always = Guard::new();
    assert!(always.inc_failed(0));
}

#[test]
fn compiled_trace_has_one_guard_more_than_the_back_end_emitted() {
    let sm = section(0x5000, &[vec![(4, 8, 0, 0); 3], vec![(4, 8, 0, 9)]]);
    let mut ct = CompiledTrace::new(0x7000, &sm, 0x9000, 2).unwrap();
    assert_eq!((ct.entry(), ct.aotvals(), ct.num_guards()), (0x7000, 0x9000, 3));
    for i in 0..3 {
        assert_eq!(ct.guard(GuardId(i)).failed(), 0);
        assert_eq!(ct.guard(GuardId(i)).getct(), None);
    }
    assert!(!ct.is_last_guard(GuardId(0)));
    assert!(!ct.is_last_guard(GuardId(1)));
    assert!(ct.is_last_guard(GuardId(2)));
    assert!(!ct.is_last_guard(GuardId(3)));
    assert!(!ct.is_last_guard(GuardId::illegal()));
    assert_eq!(GuardId::illegal(), GuardId(usize::MAX));
    assert_eq!(ct.smap(0x5000), Some(&vec![Location::Constant(0); 3]));
    assert_eq!(ct.smap(0x5008), Some(&vec![Location::Constant(9)]));
    assert_eq!(ct.smap(0x5010), None);
    assert!(!ct.inc_failed(GuardId(1), 1));
    assert!(ct.inc_failed(GuardId(1), 1));
    ct.setct(GuardId(1), TraceId(4));
    assert_eq!(ct.guard(GuardId(1)).failed(), 2);
    assert_eq!(ct.guard(GuardId(1)).getct(), Some(TraceId(4)));
    assert_eq!(ct.guard(GuardId(0)).failed(), 0);
    assert_eq!(ct.guard(GuardId(0)).getct(), None);
    assert_eq!(CompiledTrace::new(0, &sm, 0, 0).unwrap().num_guards(), 1);
    assert_eq!(CompiledTrace::new(0, &sm[..20], 0, 0).err(), Some(ParseError::UnexpectedEnd));
}

#[test]
fn encode_trace_gives_no_name_for_an_unmappable_block() {
    let trace = vec![
        TraceAction::new_mapped_aot_block("main".to_string(), 4),
        TraceAction::new_unmappable_block(),
        TraceAction::new_mapped_aot_block("f".to_string(), 0),
    ];
    let enc = JITCLLVM::new().encode_trace(&trace);
    assert_eq!(enc.trace_len, 3);
    assert_eq!(enc.func_names, vec![Some("main".to_string()), None, Some("f".to_string())]);
    assert_eq!(enc.bbs, vec![4, 0, 0]);
    let enc = JITCLLVM.encode_trace(&vec![]);
    assert_eq!((enc.trace_len, enc.func_names.len(), enc.bbs.len()), (0, 0, 0));
}

#[test]
fn compile_request_for_a_trace_and_for_a_side_trace() {
    let jitc = JITCLLVM::new();
    let items = vec![Ok(TraceAction::new_mapped_aot_block("main".to_string(), 1)), Ok(TraceAction::UnmappableBlock)];
    let req = jitc.compile(items, None).unwrap();
    assert_eq!(req.trace.func_names, vec![Some("main".to_string()), None]);
    assert_eq!(req.trace.bbs, vec![1, 0]);
    assert_eq!((req.callstack, req.aotvalsptr, req.aotvalslen), (0, 0, 0));
    let sti = SideTraceInfo { callstack: 0x10, aotvalsptr: 0x20, aotvalslen: 3, guardid: GuardId(1) };
    let req = jitc.compile(vec![], Some(sti)).unwrap();
    assert_eq!(req.trace.trace_len, 0);
    assert_eq!((req.callstack, req.aotvalsptr, req.aotvalslen), (0x10, 0x20, 3));
}

#[test]
fn a_failing_trace_iterator_is_a_temporary_failure() {
    let jitc = JITCLLVM::new();
    for e in [AOTTraceIteratorError::TraceTooLong, AOTTraceIteratorError::LongJmpEncountered] {
        let items = vec![Ok(TraceAction::UnmappableBlock), Err(e), Ok(TraceAction::UnmappableBlock)];
        assert!(matches!(jitc.compile(items, None), Err(CompilationError::Temporary(_))));
        let items = vec![Err(e)];
        assert!(matches!(jitc.collect_trace(items), Err(CompilationError::Temporary(_))));
    }
    // An iterator that fails gives a temporary failure whatever it yielded before.
    let items = vec![Ok(TraceAction::Promotion), Err(AOTTraceIteratorError::TraceTooLong)];
    match jitc.compile(items, None) {
        Err(CompilationError::Temporary(m)) => assert_eq!(m, "Trace too long"),
        _ => panic!("expected a temporary error"),
    }
    let items = vec![Err(AOTTraceIteratorError::LongJmpEncountered), Ok(TraceAction::Promotion)];
    match jitc.compile(items, None) {
        Err(CompilationError::Temporary(m)) => assert_eq!(m, "longjmp encountered"),
        _ => panic!("expected a temporary error"),
    }
    let items = vec![Ok(TraceAction::UnmappableBlock), Ok(TraceAction::new_mapped_aot_block("f".to_string(), 2))];
    assert_eq!(
        jitc.collect_trace(items).unwrap(),
        vec![TraceAction::UnmappableBlock, TraceAction::new_mapped_aot_block("f".to_string(), 2)]
    );
}

#[test]
fn a_back_end_that_returns_nothing_has_failed_for_now() {
    let jitc = JITCLLVM::new();
    match jitc.compiled(None) {
        Err(CompilationError::Temporary(m)) => assert_eq!(m, "llvm backend error"),
        _ => panic!("expected a temporary error"),
    }
    let sm = section(0, &[]);
    let ct = CompiledTrace::new(1, &sm, 2, 0).unwrap();
    let out = jitc.compiled(Some(ct)).unwrap();
    assert_eq!((out.entry(), out.aotvals(), out.num_guards()), (1, 2, 1));
}

#[test]
fn compilation_error_messages() {
    assert_eq!(
        CompilationError::Unrecoverable("bad".to_string()).message(),
        "Unrecoverable error: bad"
    );
    assert_eq!(CompilationError::Temporary("later".to_string()).message(), "Temporary error: later");
}
