use ykrt::trace::{
    push_action, start_tracing, trace_basicblock, InvalidTraceError, SWTRecorder, TraceAction,
    TracingKind,
};

#[test]
fn default_tracing_kind_is_hardware() {
    assert_eq!(TracingKind::default(), TracingKind::HardwareTracing);
}

#[test]
fn trace_actions_compare_by_kind_function_and_block() {
    let a = TraceAction::new_mapped_aot_block("main".to_string(), 3);
    assert_eq!(a, TraceAction::MappedAOTBlock { func_name: "main".to_string(), bb: 3 });
    assert_ne!(a, TraceAction::new_mapped_aot_block("main".to_string(), 4));
    assert_ne!(a, TraceAction::new_mapped_aot_block("mainx".to_string(), 3));
    assert_ne!(a, TraceAction::new_unmappable_block());
    assert_eq!(TraceAction::new_unmappable_block(), TraceAction::UnmappableBlock);
    assert_ne!(TraceAction::UnmappableBlock, TraceAction::Promotion);
    assert_eq!(TraceAction::Promotion, TraceAction::Promotion);
    assert!(a.same(&a));
}

#[test]
fn push_action_drops_a_direct_repetition() {
    let mut out = Vec::new();
    push_action(&mut out, TraceAction::new_mapped_aot_block("f".to_string(), 0));
    push_action(&mut out, TraceAction::new_mapped_aot_block("f".to_string(), 0));
    push_action(&mut out, TraceAction::UnmappableBlock);
    push_action(&mut out, TraceAction::UnmappableBlock);
    push_action(&mut out, TraceAction::new_mapped_aot_block("f".to_string(), 0));
    assert_eq!(
        out,
        vec![
            TraceAction::new_mapped_aot_block("f".to_string(), 0),
            TraceAction::UnmappableBlock,
            TraceAction::new_mapped_aot_block("f".to_string(), 0),
        ]
    );
}

#[test]
fn invalid_trace_messages() {
    assert_eq!(InvalidTraceError::TraceEmpty.message(), "Trace empty");
    assert_eq!(InvalidTraceError::TraceTooLong.message(), "Trace too long");
}

#[test]
fn software_recorder_takes_blocks_up_to_its_cap() {
    let mut rec = SWTRecorder::new(3);
    trace_basicblock(&mut rec, 1, 0);
    trace_basicblock(&mut rec, 1, 2);
    trace_basicblock(&mut rec, 4, 0);
    assert_eq!(rec.stop(), Ok(vec![(1, 0), (1, 2), (4, 0)]));

    let mut rec = SWTRecorder::new(2);
    trace_basicblock(&mut rec, 1, 0);
    trace_basicblock(&mut rec, 1, 2);
    trace_basicblock(&mut rec, 4, 0);
    trace_basicblock(&mut rec, 4, 1);
    assert_eq!(rec.stop(), Err(InvalidTraceError::TraceTooLong));

    assert_eq!(SWTRecorder::new(8).stop(), Err(InvalidTraceError::TraceEmpty));
    let mut rec = SWTRecorder::new(0);
    trace_basicblock(&mut rec, 0, 0);
    assert_eq!(rec.stop(), Err(InvalidTraceError::TraceTooLong));
}

#[test]
fn a_trace_without_actions_is_no_trace() {
    let tracer = start_tracing(TracingKind::HardwareTracing);
    assert_eq!(tracer.stop_tracing(Ok(vec![])), Err(InvalidTraceError::TraceEmpty));
    let tracer = start_tracing(TracingKind::default());
    assert_eq!(
        tracer.stop_tracing(Ok(vec![TraceAction::UnmappableBlock])),
        Ok(vec![TraceAction::UnmappableBlock])
    );
    let tracer = start_tracing(TracingKind::SoftwareTracing);
    assert_eq!(
        tracer.stop_tracing(Err(InvalidTraceError::TraceTooLong)),
        Err(InvalidTraceError::TraceTooLong)
    );
}
