use copp::diagnostics::{
    emit_route, level_tag, set_verbosity_output, verbosity_output, DebugVerboser, EmitRoute,
    LevelTag, SilentVerboser, SummaryVerboser, TraceVerboser, Verboser, VerbosityOutput,
    VerbositySettings,
};
use copp::verbosity::Verbosity;

#[test]
fn verbosity_order() {
    assert!(Verbosity::Trace > Verbosity::Debug);
    assert!(Verbosity::Debug > Verbosity::Summary);
    assert!(Verbosity::Summary > Verbosity::Silent);
    assert_eq!(Verbosity::default(), Verbosity::Silent);
    assert!(Verbosity::Debug.at_least(Verbosity::Summary));
    assert!(!Verbosity::Summary.at_least(Verbosity::Debug));
    assert_eq!(Verbosity::Trace.level_rank(), 3);
}

#[test]
fn output_read_after_write() {
    let mut s = VerbositySettings::new();
    assert_eq!(verbosity_output(&s), VerbosityOutput::Println);
    assert_eq!(VerbosityOutput::default(), VerbosityOutput::Println);
    set_verbosity_output(&mut s, VerbosityOutput::Log);
    assert_eq!(verbosity_output(&s), VerbosityOutput::Log);
    set_verbosity_output(&mut s, VerbosityOutput::File("logs/run.log".to_string()));
    assert_eq!(verbosity_output(&s), VerbosityOutput::File("logs/run.log".to_string()));
    set_verbosity_output(&mut s, VerbosityOutput::Println);
    assert_eq!(verbosity_output(&s), VerbosityOutput::Println);
}

#[test]
fn emit_routes() {
    let mut s = VerbositySettings::new();
    assert_eq!(emit_route(&s, Verbosity::Silent), EmitRoute::Stdout);
    set_verbosity_output(&mut s, VerbosityOutput::Log);
    assert_eq!(emit_route(&s, Verbosity::Silent), EmitRoute::Skip);
    assert_eq!(emit_route(&s, Verbosity::Debug), EmitRoute::Log(Verbosity::Debug));
    set_verbosity_output(&mut s, VerbosityOutput::File("x.log".to_string()));
    assert_eq!(emit_route(&s, Verbosity::Silent), EmitRoute::Skip);
    assert_eq!(emit_route(&s, Verbosity::Summary), EmitRoute::FileLine(LevelTag::Info));
    assert_eq!(emit_route(&s, Verbosity::Trace), EmitRoute::FileLine(LevelTag::Trace));
    assert_eq!(level_tag(Verbosity::Summary), "INFO");
    assert_eq!(level_tag(Verbosity::Silent), "SILENT");
    assert_eq!(level_tag(Verbosity::Debug), "DEBUG");
    assert_eq!(level_tag(Verbosity::Trace), "TRACE");
}

#[test]
fn verbosers_gate_by_level() {
    let silent = SilentVerboser;
    assert!(silent.is_enabled(Verbosity::Silent));
    assert!(!silent.is_enabled(Verbosity::Summary));
    assert_eq!(silent.elapsed().as_nanos(), 0);
    let mut summary = SummaryVerboser::new();
    assert!(summary.is_enabled(Verbosity::Summary));
    assert!(!summary.is_enabled(Verbosity::Debug));
    summary.record_start_time();
    let _ = summary.elapsed();
    let debug = DebugVerboser::new();
    assert!(debug.is_enabled(Verbosity::Debug));
    assert!(!debug.is_enabled(Verbosity::Trace));
    assert_eq!(debug.level(), Verbosity::Debug);
    let trace = TraceVerboser::new();
    assert!(trace.is_enabled(Verbosity::Trace));
    assert_eq!(trace.level(), Verbosity::Trace);
}
