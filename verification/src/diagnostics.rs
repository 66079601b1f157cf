//! The diagnostics switchboard: where verbosity messages go, which level
//! tag a file line carries, and the verbosers that gate messages by level
//! and time the algorithms.
//!
//! The output backend is a process-wide setting in the application; here it
//! is the value [`VerbositySettings`], whose transitions are verified. The
//! application opens the log file before it records a file backend.

use vstd::prelude::*;
use core::time::Duration;
use std::time::Instant;
use crate::verbosity::{Verbosity, rank};

verus! {

/// Output backend used by verbosity logging; the default is
/// [`Println`](VerbosityOutput::Println).
#[derive(Clone, Debug, PartialEq, Eq)]
pub enum VerbosityOutput {
    /// Emit messages on standard output.
    Println,
    /// Emit messages through the logging facade (`info`, `debug`, `trace`).
    Log,
    /// Emit messages to the log file at the given path.
    File(String),
}

impl Default for VerbosityOutput {
    fn default() -> (r: Self)
        ensures
            r is Println,
    {
        VerbosityOutput::Println
    }
}

/// An output backend as a mathematical value.
pub enum OutputView {
    Println,
    Log,
    File(Seq<char>),
}

/// The value of an output backend.
pub open spec fn output_view(o: VerbosityOutput) -> OutputView {
    match o {
        VerbosityOutput::Println => OutputView::Println,
        VerbosityOutput::Log => OutputView::Log,
        VerbosityOutput::File(p) => OutputView::File(p@),
    }
}

/// Which backend is selected.
#[derive(Clone, Copy, Debug, PartialEq, Eq, Structural)]
pub enum OutputMode {
    Println,
    Log,
    File,
}

/// The settings as a mathematical value: the selected backend and the path
/// of the last log file configured.
pub struct SettingsView {
    pub mode: OutputMode,
    pub file_path: Option<Seq<char>>,
}

/// Settings after selecting backend `o`: a file backend also records its
/// path; the other backends keep the last path.
pub open spec fn after_set(s: SettingsView, o: OutputView) -> SettingsView {
    match o {
        OutputView::Println => SettingsView { mode: OutputMode::Println, file_path: s.file_path },
        OutputView::Log => SettingsView { mode: OutputMode::Log, file_path: s.file_path },
        OutputView::File(p) => SettingsView { mode: OutputMode::File, file_path: Some(p) },
    }
}

/// The backend that the settings report: a file backend without a recorded
/// path reports the path `<unknown>`.
pub open spec fn reported(s: SettingsView) -> OutputView {
    match s.mode {
        OutputMode::Println => OutputView::Println,
        OutputMode::Log => OutputView::Log,
        OutputMode::File => OutputView::File(
            match s.file_path {
                Some(p) => p,
                None => "<unknown>"@,
            },
        ),
    }
}

/// Reading the backend back after selecting one gives the backend selected,
/// whatever the settings were before.
pub proof fn lemma_verbosity_output_read_after_write(s: SettingsView, o: VerbosityOutput)
    ensures
        reported(after_set(s, output_view(o))) == output_view(o),
{
}

/// The process-wide diagnostics settings.
pub struct VerbositySettings {
    mode: OutputMode,
    file_path: Option<String>,
}

impl VerbositySettings {
    /// The settings as a mathematical value.
    pub closed spec fn view(&self) -> SettingsView {
        SettingsView {
            mode: self.mode,
            file_path: match self.file_path {
                Some(p) => Some(p@),
                None => None,
            },
        }
    }

    /// Standard output selected, no log file recorded.
    pub fn new() -> (r: Self)
        ensures
            r.view().mode == OutputMode::Println,
            r.view().file_path is None,
    {
        VerbositySettings { mode: OutputMode::Println, file_path: None }
    }
}

/// Select the output backend for all verbosity messages. For a file
/// backend the application has opened the file (creating its parent
/// directories, in append mode) before this call.
pub fn set_verbosity_output(settings: &mut VerbositySettings, output: VerbosityOutput)
    ensures
        final(settings).view() == after_set(old(settings).view(), output_view(output)),
{
    match output {
        VerbosityOutput::Println => {
            settings.mode = OutputMode::Println;
        },
        VerbosityOutput::Log => {
            settings.mode = OutputMode::Log;
        },
        VerbosityOutput::File(path) => {
            settings.mode = OutputMode::File;
            settings.file_path = Some(path);
        },
    }
}

/// The selected output backend.
pub fn verbosity_output(settings: &VerbositySettings) -> (r: VerbosityOutput)
    ensures
        output_view(r) == reported(settings.view()),
{
    match settings.mode {
        OutputMode::Log => VerbosityOutput::Log,
        OutputMode::File => {
            let path = match &settings.file_path {
                Some(p) => p.clone(),
                None => String::from_str("<unknown>"),
            };
            VerbosityOutput::File(path)
        },
        OutputMode::Println => VerbosityOutput::Println,
    }
}

/// Where one verbosity message goes.
#[derive(Clone, Copy, Debug, PartialEq, Eq, Structural)]
pub enum EmitRoute {
    /// Print it on standard output.
    Stdout,
    /// Hand it to the logging facade at this level.
    Log(Verbosity),
    /// Append it to the log file with this level tag, after a timestamp; on
    /// standard output if no file is open.
    FileLine(LevelTag),
    /// Drop it.
    Skip,
}

/// Level tags of log-file lines.
#[derive(Clone, Copy, Debug, PartialEq, Eq, Structural)]
pub enum LevelTag {
    Silent,
    Info,
    Debug,
    Trace,
}

/// The tag of a level: `Summary` lines are `INFO` lines.
pub open spec fn tag_of(level: Verbosity) -> LevelTag {
    match level {
        Verbosity::Silent => LevelTag::Silent,
        Verbosity::Summary => LevelTag::Info,
        Verbosity::Debug => LevelTag::Debug,
        Verbosity::Trace => LevelTag::Trace,
    }
}

/// The text of a level tag.
pub open spec fn tag_text(t: LevelTag) -> Seq<char> {
    match t {
        LevelTag::Silent => "SILENT"@,
        LevelTag::Info => "INFO"@,
        LevelTag::Debug => "DEBUG"@,
        LevelTag::Trace => "TRACE"@,
    }
}

/// Where a message of `level` goes under the backend `mode`: standard
/// output prints every message; the logging facade and the log file drop
/// `Silent` messages.
pub open spec fn route_of(mode: OutputMode, level: Verbosity) -> EmitRoute {
    match mode {
        OutputMode::Println => EmitRoute::Stdout,
        OutputMode::Log => if level == Verbosity::Silent {
            EmitRoute::Skip
        } else {
            EmitRoute::Log(level)
        },
        OutputMode::File => if level == Verbosity::Silent {
            EmitRoute::Skip
        } else {
            EmitRoute::FileLine(tag_of(level))
        },
    }
}

/// Where a message goes once a backend is selected, whatever the settings
/// were: on standard output every message is printed; through the logging
/// facade every message but a `Silent` one is handed on at its own level;
/// in the log file every message but a `Silent` one is written with the tag
/// of its level (`INFO` for `Summary`). Only `Silent` messages are dropped,
/// and only by the facade and the file.
pub proof fn lemma_route_after_selecting(s: SettingsView, o: VerbosityOutput, level: Verbosity)
    ensures
        ({
            let r = route_of(after_set(s, output_view(o)).mode, level);
            &&& (o is Println ==> r == EmitRoute::Stdout)
            &&& (o is Log && level != Verbosity::Silent ==> r == EmitRoute::Log(level))
            &&& (o is File && level == Verbosity::Summary ==> r == EmitRoute::FileLine(LevelTag::Info))
            &&& (o is File && level == Verbosity::Debug ==> r == EmitRoute::FileLine(LevelTag::Debug))
            &&& (o is File && level == Verbosity::Trace ==> r == EmitRoute::FileLine(LevelTag::Trace))
            &&& (r == EmitRoute::Skip <==> (level == Verbosity::Silent && !(o is Println)))
        }),
{
}

/// Route one verbosity message of `level` under the current settings.
pub fn emit_route(settings: &VerbositySettings, level: Verbosity) -> (r: EmitRoute)
    ensures
        r == route_of(settings.view().mode, level),
{
    match settings.mode {
        OutputMode::Println => EmitRoute::Stdout,
        OutputMode::Log => match level {
            Verbosity::Silent => EmitRoute::Skip,
            _ => EmitRoute::Log(level),
        },
        OutputMode::File => match level {
            Verbosity::Silent => EmitRoute::Skip,
            Verbosity::Summary => EmitRoute::FileLine(LevelTag::Info),
            Verbosity::Debug => EmitRoute::FileLine(LevelTag::Debug),
            Verbosity::Trace => EmitRoute::FileLine(LevelTag::Trace),
        },
    }
}

/// The tag of a level, as written in log-file lines.
pub fn level_tag(level: Verbosity) -> (r: &'static str)
    ensures
        r@ == tag_text(tag_of(level)),
{
    match level {
        Verbosity::Silent => "SILENT",
        Verbosity::Summary => "INFO",
        Verbosity::Debug => "DEBUG",
        Verbosity::Trace => "TRACE",
    }
}

/// A point in time, `std::time::Instant`.
#[verifier::external_type_specification]
#[verifier::external_body]
pub struct ExInstant(Instant);

/// `std::time::Instant::now`: the current time. Nothing is claimed of the
/// value, which depends on the clock.
#[verifier::external_body]
fn instant_now() -> Instant {
    Instant::now()
}

/// `std::time::Instant::elapsed`: the time passed since `start`. Nothing
/// is claimed of the value, which depends on the clock.
#[verifier::external_body]
fn instant_elapsed(start: &Instant) -> Duration {
    start.elapsed()
}

/// `core::time::Duration::from_secs`: the duration of `secs` seconds; only
/// used with `0` here. Nothing is claimed of the opaque value.
#[verifier::external_body]
fn duration_from_secs(secs: u64) -> Duration {
    Duration::from_secs(secs)
}

/// A logger at a fixed verbosity level, which also times the algorithm it
/// reports on.
pub trait Verboser {
    /// The level of this verboser.
    spec fn spec_level(&self) -> Verbosity;

    /// The level of this verboser.
    fn level(&self) -> (r: Verbosity)
        ensures
            r == self.spec_level(),
    ;

    /// Whether messages of `level` are emitted: the verboser's level is at
    /// least `level`.
    fn is_enabled(&self, level: Verbosity) -> (r: bool)
        ensures
            r == (rank(self.spec_level()) >= rank(level)),
    ;

    /// Restart the clock.
    fn record_start_time(&mut self)
        ensures
            final(self).spec_level() == old(self).spec_level(),
    ;

    /// Time passed since the clock was last started.
    fn elapsed(&self) -> Duration;
}

/// The verboser that emits nothing and does not time.
pub struct SilentVerboser;

impl Verboser for SilentVerboser {
    open spec fn spec_level(&self) -> Verbosity {
        Verbosity::Silent
    }

    fn level(&self) -> (r: Verbosity) {
        Verbosity::Silent
    }

    fn is_enabled(&self, level: Verbosity) -> (r: bool) {
        Verbosity::Silent.at_least(level)
    }

    fn record_start_time(&mut self) {
    }

    fn elapsed(&self) -> Duration {
        duration_from_secs(0)
    }
}

/// The verboser at level [`Summary`](Verbosity::Summary).
pub struct SummaryVerboser {
    start_time: Instant,
}

impl SummaryVerboser {
    /// A verboser whose clock starts now.
    pub fn new() -> (r: Self)
        ensures
            r.spec_level() == Verbosity::Summary,
    {
        SummaryVerboser { start_time: instant_now() }
    }
}

impl Verboser for SummaryVerboser {
    open spec fn spec_level(&self) -> Verbosity {
        Verbosity::Summary
    }

    fn level(&self) -> (r: Verbosity) {
        Verbosity::Summary
    }

    fn is_enabled(&self, level: Verbosity) -> (r: bool) {
        Verbosity::Summary.at_least(level)
    }

    fn record_start_time(&mut self) {
        self.start_time = instant_now();
    }

    fn elapsed(&self) -> Duration {
        instant_elapsed(&self.start_time)
    }
}

/// The verboser at level [`Debug`](Verbosity::Debug).
pub struct DebugVerboser {
    start_time: Instant,
}

impl DebugVerboser {
    /// A verboser whose clock starts now.
    pub fn new() -> (r: Self)
        ensures
            r.spec_level() == Verbosity::Debug,
    {
        DebugVerboser { start_time: instant_now() }
    }
}

impl Verboser for DebugVerboser {
    open spec fn spec_level(&self) -> Verbosity {
        Verbosity::Debug
    }

    fn level(&self) -> (r: Verbosity) {
        Verbosity::Debug
    }

    fn is_enabled(&self, level: Verbosity) -> (r: bool) {
        Verbosity::Debug.at_least(level)
    }

    fn record_start_time(&mut self) {
        self.start_time = instant_now();
    }

    fn elapsed(&self) -> Duration {
        instant_elapsed(&self.start_time)
    }
}

/// The verboser at level [`Trace`](Verbosity::Trace).
pub struct TraceVerboser {
    start_time: Instant,
}

impl TraceVerboser {
    /// A verboser whose clock starts now.
    pub fn new() -> (r: Self)
        ensures
            r.spec_level() == Verbosity::Trace,
    {
        TraceVerboser { start_time: instant_now() }
    }
}

impl Verboser for TraceVerboser {
    open spec fn spec_level(&self) -> Verbosity {
        Verbosity::Trace
    }

    fn level(&self) -> (r: Verbosity) {
        Verbosity::Trace
    }

    fn is_enabled(&self, level: Verbosity) -> (r: bool) {
        Verbosity::Trace.at_least(level)
    }

    fn record_start_time(&mut self) {
        self.start_time = instant_now();
    }

    fn elapsed(&self) -> Duration {
        instant_elapsed(&self.start_time)
    }
}

} // verus!
