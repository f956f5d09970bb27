use ykrt::compile::{CompilationError, TraceId};
use ykrt::location::{Action, Location, State, MT};
use ykrt::trace::InvalidTraceError;

#[test]
fn location_counts_then_traces_then_compiles() {
    let mut mt = MT::new(50, 5);
    mt.set_hot_threshold(2);
    assert_eq!((mt.hot_threshold(), mt.sidetrace_threshold()), (2, 5));
    let mut loc = Location::new();
    assert_eq!(loc.state(), State::Counter(0));
    assert_eq!(mt.control_point(&mut loc, 1), Action::Interpret);
    assert_eq!(mt.control_point(&mut loc, 1), Action::Interpret);
    assert_eq!(loc.state(), State::Counter(2));
    // The third visit finds the location hot.
    assert_eq!(mt.control_point(&mut loc, 1), Action::StartTracing);
    assert_eq!(loc.state(), State::Tracing { owner: 1 });
    // Another thread leaves the recording alone.
    assert_eq!(mt.control_point(&mut loc, 2), Action::Interpret);
    assert_eq!(loc.state(), State::Tracing { owner: 1 });
    assert_eq!(mt.control_point(&mut loc, 1), Action::StopTracing);
    assert_eq!(loc.state(), State::Compiling);
    assert_eq!(mt.control_point(&mut loc, 1), Action::Interpret);
    assert_eq!(mt.control_point(&mut loc, 2), Action::Interpret);
    assert_eq!(loc.state(), State::Compiling);
    loc.compile_finished(&Ok(TraceId(3)));
    assert_eq!(loc.state(), State::Compiled { trace: TraceId(3) });
    for thread in 0..6 {
        assert_eq!(mt.control_point(&mut loc, thread), Action::Execute(TraceId(3)));
    }
    // The end of a job that nobody waits for changes nothing.
    loc.compile_finished(&Err(CompilationError::Unrecoverable("late".to_string())));
    assert_eq!(loc.state(), State::Compiled { trace: TraceId(3) });
    loc.demote();
    assert_eq!(loc.state(), State::Counter(0));
    loc.demote();
    assert_eq!(loc.state(), State::Counter(0));
}

#[test]
fn threshold_zero_traces_on_the_first_visit() {
    let mut loc = Location::new();
    assert_eq!(loc.control_point(9, 0), Action::StartTracing);
    assert_eq!(loc.state(), State::Tracing { owner: 9 });
}

#[test]
fn temporary_failure_starts_the_count_again() {
    let mut loc = Location::new();
    assert_eq!(loc.control_point(1, 0), Action::StartTracing);
    assert_eq!(loc.control_point(1, 0), Action::StopTracing);
    loc.compile_finished(&Err(CompilationError::Temporary("llvm backend error".to_string())));
    assert_eq!(loc.state(), State::Counter(0));
    assert_eq!(loc.control_point(2, 0), Action::StartTracing);
}

#[test]
fn invalid_trace_starts_the_count_again() {
    let mut loc = Location::new();
    loc.trace_invalid(InvalidTraceError::TraceEmpty);
    assert_eq!(loc.state(), State::Counter(0));
    assert_eq!(loc.control_point(1, 0), Action::StartTracing);
    loc.trace_invalid(InvalidTraceError::TraceTooLong);
    assert_eq!(loc.state(), State::Counter(0));
    assert_eq!(loc.control_point(1, 0), Action::StartTracing);
    assert_eq!(loc.control_point(1, 0), Action::StopTracing);
    loc.trace_invalid(InvalidTraceError::TraceEmpty);
    assert_eq!(loc.state(), State::Counter(0));
}

#[test]
fn unrecoverable_compile() {
    let mt = MT::new(1, 5);
    let mut loc = Location::new();
    assert_eq!(mt.control_point(&mut loc, 1), Action::Interpret);
    assert_eq!(mt.control_point(&mut loc, 1), Action::StartTracing);
    assert_eq!(mt.control_point(&mut loc, 1), Action::StopTracing);
    loc.compile_finished(&Err(CompilationError::Unrecoverable("no".to_string())));
    assert_eq!(loc.state(), State::DontTrace);
    // A subsequent million visits neither restart tracing nor submit a job.
    for i in 0..1_000_000u64 {
        assert_eq!(mt.control_point(&mut loc, i % 7), Action::Interpret);
    }
    assert_eq!(loc.state(), State::DontTrace);
    loc.compile_finished(&Ok(TraceId(0)));
    loc.demote();
    loc.trace_invalid(InvalidTraceError::TraceEmpty);
    assert_eq!(loc.state(), State::DontTrace);
}

#[test]
fn racing_threads_start_one_recorder_and_one_job() {
    // Eight threads visit one location in a fixed interleaving.
    for hot_threshold in [0u32, 1, 2, 5, 30] {
        let mut loc = Location::new();
        let (mut started, mut submitted) = (0, 0);
        let mut owner = None;
        for step in 0..400u64 {
            let thread = (step * 5 + step / 3) % 8;
            match loc.control_point(thread, hot_threshold) {
                Action::StartTracing => {
                    started += 1;
                    owner = Some(thread);
                }
                Action::StopTracing => {
                    submitted += 1;
                    assert_eq!(owner, Some(thread));
                }
                Action::Interpret => {}
                Action::Execute(_) => panic!("nothing was compiled"),
            }
        }
        assert_eq!((started, submitted), (1, 1));
        assert_eq!(loc.state(), State::Compiling);
        loc.compile_finished(&Ok(TraceId(1)));
        assert_eq!(loc.state(), State::Compiled { trace: TraceId(1) });
    }
}
