//! The capability-typed process-invocation layer.
//!
//! An invocation is built here, tagged at construction as read-only or
//! mutating, carries the shape its stdout must decode into, and can be
//! rendered shell-safely.  The crate never spawns anything itself: execution
//! is split into *plans* (what a driver must spawn) and *interpretation*
//! (what a captured outcome means), both fully specified, with the driver
//! only ferrying bytes between the two.

use core::marker::PhantomData;
use vstd::prelude::*;

use crate::decode::{items_view, parse_listing, spec_listing};
use crate::errors::{DecodeError, SyncError};
use crate::render::{render_command, spec_render};
use crate::zfs_types::ZfsListOutput;
use vstd::utf8::{decode_utf8, valid_utf8};

verus! {

/// How the stdout of an invocation is to be decoded.  Each shape owns its
/// decode function; a shape that fails to decode is a decode error, never a
/// silent default.
pub trait OutputType: Sized {
    /// What decoding the captured bytes yields.
    spec fn parse_post(bytes: Seq<u8>, r: Result<Self, DecodeError>) -> bool;

    /// Decode the captured stdout bytes into this shape.
    fn parse(output: Vec<u8>) -> (r: Result<Self, DecodeError>)
        ensures
            Self::parse_post(output@, r),
    ;
}

/// No output is expected or parsed.
pub struct IgnoreOutput;

impl OutputType for IgnoreOutput {
    open spec fn parse_post(bytes: Seq<u8>, r: Result<Self, DecodeError>) -> bool {
        r is Ok
    }

    fn parse(output: Vec<u8>) -> (r: Result<Self, DecodeError>) {
        Ok(IgnoreOutput)
    }
}

/// The output is an opaque payload, kept as the exact bytes captured.
pub struct RawOutput {
    pub output: Vec<u8>,
}

impl OutputType for RawOutput {
    open spec fn parse_post(bytes: Seq<u8>, r: Result<Self, DecodeError>) -> bool {
        r matches Ok(v) && v.output@ == bytes
    }

    fn parse(output: Vec<u8>) -> (r: Result<Self, DecodeError>) {
        Ok(RawOutput { output })
    }
}

/// Relies on String::from_utf8: it succeeds exactly on valid UTF-8 input and
/// then decodes the bytes to the characters they encode.
#[verifier::external_body]
fn bytes_to_string(bytes: Vec<u8>) -> (r: Option<String>)
    ensures
        r is Some <==> valid_utf8(bytes@),
        r matches Some(s) ==> s@ == decode_utf8(bytes@),
{
    match String::from_utf8(bytes) {
        Ok(s) => Some(s),
        Err(_) => None,
    }
}

/// The output is UTF-8 text.
pub struct StringOutput {
    pub output: String,
}

impl OutputType for StringOutput {
    open spec fn parse_post(bytes: Seq<u8>, r: Result<Self, DecodeError>) -> bool {
        &&& (r is Ok <==> valid_utf8(bytes))
        &&& (match r {
            Ok(v) => v.output@ == decode_utf8(bytes),
            Err(e) => e == DecodeError::InvalidUtf8,
        })
    }

    fn parse(output: Vec<u8>) -> (r: Result<Self, DecodeError>) {
        match bytes_to_string(output) {
            Some(s) => Ok(StringOutput { output: s }),
            None => Err(DecodeError::InvalidUtf8),
        }
    }
}

/// The output is the storage manager's JSON listing, decoded into typed
/// entities.
pub struct ParseableOutput {
    pub output: ZfsListOutput,
}

impl OutputType for ParseableOutput {
    open spec fn parse_post(bytes: Seq<u8>, r: Result<Self, DecodeError>) -> bool {
        &&& (r is Ok <==> valid_utf8(bytes) && spec_listing(decode_utf8(bytes)) is Some)
        &&& (r matches Ok(v) ==> spec_listing(decode_utf8(bytes)) == Some(
            items_view(v.output.output@),
        ))
        &&& (r matches Err(e) ==> ((e == DecodeError::InvalidUtf8) <==> !valid_utf8(bytes)))
    }

    fn parse(output: Vec<u8>) -> (r: Result<Self, DecodeError>) {
        match bytes_to_string(output) {
            Some(s) => match parse_listing(s.as_str()) {
                Ok(l) => Ok(ParseableOutput { output: l }),
                Err(e) => Err(e),
            },
            None => Err(DecodeError::InvalidUtf8),
        }
    }
}

/// Whether an invocation observes state or changes it.  The tag is assigned
/// at construction and checked, not merely documented: unconditional
/// execution plans are open to read-only invocations alone, while a mutating
/// invocation is reachable only through the dry-run-gated path.
#[derive(Clone, Copy, PartialEq, Eq, Structural)]
pub enum Capability {
    ReadOnly,
    Mutating,
}

/// An external-process invocation: a program, its arguments in call order,
/// the capability tag, and a type hint for the shape of its output.
pub struct TypedCommand<Output> {
    pub program: String,
    pub args: Vec<String>,
    pub capability: Capability,
    pub output_shape: PhantomData<Output>,
}

/// What a driver must spawn: a program with its arguments, stdout and stderr
/// captured.
pub struct SpawnSpec {
    pub program: String,
    pub args: Vec<String>,
}

impl SpawnSpec {
    /// `self` spawns exactly the invocation `c`.
    pub open spec fn spawns<Output>(&self, c: TypedCommand<Output>) -> bool {
        &&& self.program@ == c.program@
        &&& self.args.deep_view() == c.args.deep_view()
    }
}

/// What one call of the gated execution path asks of the driver.
pub enum RunPlan {
    /// Spawn this single process.
    Spawn(SpawnSpec),
    /// Spawn the producer with its stdout piped into the consumer's stdin.
    SpawnPipe { producer: SpawnSpec, consumer: SpawnSpec },
    /// Dry-run: spawn nothing, report the rendered command, succeed.
    SkipDryRun { rendered: String },
}

/// The captured outcome of one completed external process.
pub struct ProcessOutput {
    pub success: bool,
    pub code: Option<i32>,
    pub stdout: Vec<u8>,
    pub stderr: Vec<u8>,
}

impl<Output> TypedCommand<Output> {
    /// The single-line, shell-safe rendering of this invocation.
    pub open spec fn spec_rendered(&self) -> Seq<char> {
        spec_render(self.program@, self.args.deep_view())
    }

    pub open spec fn is_read_only(&self) -> bool {
        self.capability == Capability::ReadOnly
    }

    pub open spec fn is_mutating(&self) -> bool {
        self.capability == Capability::Mutating
    }

    pub fn get_program(&self) -> (r: &String)
        ensures
            r@ == self.program@,
    {
        &self.program
    }

    pub fn get_args(&self) -> (r: &Vec<String>)
        ensures
            r.deep_view() == self.args.deep_view(),
    {
        &self.args
    }

    /// Render program and arguments, each argument individually quoted, for
    /// logging and dry-run display.  Rendering never executes anything.
    pub fn render(&self) -> (r: String)
        ensures
            r@ == self.spec_rendered(),
    {
        render_command(&self.program, &self.args)
    }
}

impl<Output: OutputType> TypedCommand<Output> {
    /// An invocation of `program` with no arguments yet, tagged with its
    /// capability.
    pub fn new(program: &str, capability: Capability) -> (r: Self)
        ensures
            r.program@ == program@,
            r.args.deep_view() == Seq::<Seq<char>>::empty(),
            r.capability == capability,
    {
        let r = TypedCommand {
            program: program.to_owned(),
            args: Vec::new(),
            capability,
            output_shape: PhantomData,
        };
        proof {
            assert(r.args.deep_view() =~= Seq::<Seq<char>>::empty());
        }
        r
    }

    /// Append one argument.  Arguments accumulate in call order and are
    /// never reordered or deduplicated.
    pub fn arg(&mut self, arg: &str)
        ensures
            final(self).program@ == old(self).program@,
            final(self).capability == old(self).capability,
            final(self).args.deep_view() == old(self).args.deep_view().push(arg@),
    {
        self.args.push(arg.to_owned());
        proof {
            assert(self.args.deep_view() =~= old(self).args.deep_view().push(arg@));
        }
    }

    /// Append each argument in turn.
    pub fn args(&mut self, args: &Vec<String>)
        ensures
            final(self).program@ == old(self).program@,
            final(self).capability == old(self).capability,
            final(self).args.deep_view() == old(self).args.deep_view() + args.deep_view(),
    {
        let mut i: usize = 0;
        while i < args.len()
            invariant
                i <= args@.len(),
                self.program@ == old(self).program@,
                self.capability == old(self).capability,
                self.args.deep_view() == old(self).args.deep_view() + args.deep_view().take(
                    i as int,
                ),
            decreases args@.len() - i,
        {
            self.arg(args[i].as_str());
            proof {
                assert(self.args.deep_view() =~= old(self).args.deep_view() + args.deep_view().take(
                    i + 1,
                ));
            }
            i = i + 1;
        }
        proof {
            assert(args.deep_view().take(args@.len() as int) =~= args.deep_view());
        }
    }

    /// The plan for unconditional execution, open to read-only invocations
    /// alone: a mutating invocation can only be executed through
    /// [`DryRunnable::run_or_dry_run_plan`].
    pub fn run_plan(&self) -> (p: SpawnSpec)
        requires
            self.is_read_only(),
        ensures
            p.spawns(*self),
    {
        SpawnSpec { program: self.program.clone(), args: clone_args(&self.args) }
    }

    /// What the captured outcome of this invocation means.  A non-zero exit
    /// is a process failure carrying the rendered command line, the exit
    /// code and both captured streams; on success the stdout bytes go to
    /// this shape's decoder, whose failure is a decode error, distinct from
    /// process failure.
    pub open spec fn interpreted(&self, out: ProcessOutput, r: Result<Output, SyncError>) -> bool {
        if !out.success {
            r matches Err(e) && e matches SyncError::ProcessFailure {
                rendered,
                exit_code,
                stdout,
                stderr,
            } && rendered@ == self.spec_rendered() && exit_code == out.code && stdout@
                == out.stdout@ && stderr@ == out.stderr@
        } else {
            match r {
                Ok(v) => Output::parse_post(out.stdout@, Ok(v)),
                Err(e) => e matches SyncError::DecodeFailure { rendered, error } && rendered@
                    == self.spec_rendered() && Output::parse_post(out.stdout@, Err(error)),
            }
        }
    }

    /// Interpret the captured outcome of this invocation.
    pub fn interpret_output(&self, out: ProcessOutput) -> (r: Result<Output, SyncError>)
        ensures
            self.interpreted(out, r),
    {
        if !out.success {
            return Err(
                SyncError::ProcessFailure {
                    rendered: self.render(),
                    exit_code: out.code,
                    stdout: out.stdout,
                    stderr: out.stderr,
                },
            );
        }
        match Output::parse(out.stdout) {
            Ok(v) => Ok(v),
            Err(e) => Err(SyncError::DecodeFailure { rendered: self.render(), error: e }),
        }
    }
}

fn clone_args(args: &Vec<String>) -> (r: Vec<String>)
    ensures
        r.deep_view() == args.deep_view(),
{
    let mut r: Vec<String> = Vec::new();
    let mut i: usize = 0;
    while i < args.len()
        invariant
            i <= args@.len(),
            r@.len() == i,
            forall|k: int| 0 <= k < i ==> r@[k]@ == args@[k]@,
        decreases args@.len() - i,
    {
        r.push(args[i].clone());
        i = i + 1;
    }
    proof {
        assert(r.deep_view() =~= args.deep_view());
    }
    r
}

/// The single gated execution path.  Only invocations whose output can be
/// ignored are generally dry-runnable, because theirs is the one output
/// every caller can do without.
pub trait DryRunnable {
    /// The fully rendered text that dry-run mode reports.
    spec fn rendered_spec(&self) -> Seq<char>;

    /// The plan this invocation makes when dry-run is off.
    spec fn is_wet_plan(&self, p: RunPlan) -> bool;

    /// Under the process-wide dry-run flag, spawn nothing and report the
    /// fully rendered command as a success; otherwise spawn normally.  The
    /// flag is the only thing consulted, so a mutating invocation can never
    /// slip past it.
    fn run_or_dry_run_plan(&self, dry_run: bool) -> (p: RunPlan)
        ensures
            dry_run ==> (p matches RunPlan::SkipDryRun { rendered } && rendered@
                == self.rendered_spec()),
            !dry_run ==> self.is_wet_plan(p) && !(p is SkipDryRun),
    ;
}

impl DryRunnable for TypedCommand<IgnoreOutput> {
    open spec fn rendered_spec(&self) -> Seq<char> {
        self.spec_rendered()
    }

    open spec fn is_wet_plan(&self, p: RunPlan) -> bool {
        p matches RunPlan::Spawn(s) && s.spawns(*self)
    }

    fn run_or_dry_run_plan(&self, dry_run: bool) -> (p: RunPlan) {
        if dry_run {
            RunPlan::SkipDryRun { rendered: self.render() }
        } else {
            RunPlan::Spawn(
                SpawnSpec { program: self.program.clone(), args: clone_args(&self.args) },
            )
        }
    }
}

/// Two invocations connected by an OS-level pipe: the producer's stdout
/// becomes the consumer's stdin.  The producer's output shape is raw bytes
/// by type, since its stdout is a stream, not a decoded value.
pub struct PipedCommand<Ot> {
    pub from: TypedCommand<RawOutput>,
    pub to: TypedCommand<Ot>,
}

/// Where a running piped invocation stands.  The driver owns one of these
/// between the steps it performs.
pub enum PipeState {
    /// The producer has been asked to spawn.
    WaitFirstSpawn,
    /// The producer is live; the consumer has been asked to spawn and run.
    WaitSecond,
    /// The consumer is done (its captured outcome, or nothing when it never
    /// spawned); the producer must now be terminated if still running.
    AwaitingKill { outcome: Option<ProcessOutput> },
    /// The run is over.
    Done,
}

/// What the driver observed since the last step.
pub enum PipeEvent {
    /// The producer process started.
    FirstSpawned,
    /// The producer process could not be started.
    FirstSpawnFailed,
    /// The consumer process could not be started.
    SecondSpawnFailed,
    /// The consumer process ran to completion with this captured outcome.
    SecondFinished(ProcessOutput),
    /// The producer process was sent a kill signal.
    FirstKilled,
}

/// What the driver must do next.
pub enum PipeAction<Output> {
    /// Spawn the producer, its stdout piped.
    SpawnFirst(SpawnSpec),
    /// Spawn the consumer, its stdin connected to the producer's stdout, and
    /// wait for it.
    SpawnSecond(SpawnSpec),
    /// Send the producer a kill signal, whether or not it still runs.
    KillFirst,
    /// The run is over with this result.
    Finish(Result<Output, SyncError>),
}

/// The events a pipe in a given state can take.
pub open spec fn pipe_step_enabled(state: PipeState, event: PipeEvent) -> bool {
    match state {
        PipeState::WaitFirstSpawn => event is FirstSpawned || event is FirstSpawnFailed,
        PipeState::WaitSecond => event is SecondSpawnFailed || event is SecondFinished,
        PipeState::AwaitingKill { .. } => event is FirstKilled,
        PipeState::Done => false,
    }
}

impl<Ot: OutputType> PipedCommand<Ot> {
    pub fn new(from: TypedCommand<RawOutput>, to: TypedCommand<Ot>) -> (r: Self)
        ensures
            r.from == from,
            r.to == to,
    {
        PipedCommand { from, to }
    }

    /// The exact transition relation of the pipe protocol: which state and
    /// action follow each observation.  The result of the whole run is
    /// exclusively the consumer's; the producer's own exit is never
    /// surfaced, except that its failure to spawn at all ends the run
    /// before the consumer exists.
    pub open spec fn pipe_step_post(
        &self,
        state: PipeState,
        event: PipeEvent,
        new_state: PipeState,
        action: PipeAction<Ot>,
    ) -> bool {
        match (state, event) {
            (PipeState::WaitFirstSpawn, PipeEvent::FirstSpawnFailed) => {
                &&& new_state is Done
                &&& action matches PipeAction::Finish(r) && r matches Err(e) && e
                    matches SyncError::SpawnFailure { rendered } && rendered@
                    == self.from.spec_rendered()
            },
            (PipeState::WaitFirstSpawn, PipeEvent::FirstSpawned) => {
                &&& new_state is WaitSecond
                &&& action matches PipeAction::SpawnSecond(s) && s.spawns(self.to)
            },
            (PipeState::WaitSecond, PipeEvent::SecondSpawnFailed) => {
                &&& new_state matches PipeState::AwaitingKill { outcome } && outcome is None
                &&& action is KillFirst
            },
            (PipeState::WaitSecond, PipeEvent::SecondFinished(out)) => {
                &&& new_state matches PipeState::AwaitingKill { outcome } && outcome == Some(out)
                &&& action is KillFirst
            },
            (PipeState::AwaitingKill { outcome: opt }, PipeEvent::FirstKilled) => {
                match opt {
                    None => {
                        &&& new_state is Done
                        &&& action matches PipeAction::Finish(r) && r matches Err(e) && e
                            matches SyncError::SpawnFailure { rendered } && rendered@
                            == self.to.spec_rendered()
                    },
                    Some(out) => {
                        &&& new_state is Done
                        &&& action matches PipeAction::Finish(r) && self.to.interpreted(out, r)
                    },
                }
            },
            _ => false,
        }
    }

    /// Begin a run: the first thing to do is spawn the producer.
    pub fn pipe_start(&self) -> (r: (PipeState, PipeAction<Ot>))
        ensures
            r.0 is WaitFirstSpawn,
            r.1 matches PipeAction::SpawnFirst(s) && s.spawns(self.from),
    {
        (
            PipeState::WaitFirstSpawn,
            PipeAction::SpawnFirst(
                SpawnSpec {
                    program: self.from.program.clone(),
                    args: clone_args(&self.from.args),
                },
            ),
        )
    }

    /// Advance the pipe protocol by one observation.  The transition
    /// relation guarantees that after the consumer finishes — however it
    /// finishes — the one action before the result is delivered is killing
    /// the producer, so a producer blocked writing into a closed pipe is
    /// never leaked.
    pub fn pipe_step(&self, state: PipeState, event: PipeEvent) -> (r: (
        PipeState,
        PipeAction<Ot>,
    ))
        requires
            pipe_step_enabled(state, event),
        ensures
            self.pipe_step_post(state, event, r.0, r.1),
    {
        match (state, event) {
            (PipeState::WaitFirstSpawn, PipeEvent::FirstSpawnFailed) => (
                PipeState::Done,
                PipeAction::Finish(
                    Err(SyncError::SpawnFailure { rendered: self.from.render() }),
                ),
            ),
            (PipeState::WaitFirstSpawn, PipeEvent::FirstSpawned) => (
                PipeState::WaitSecond,
                PipeAction::SpawnSecond(
                    SpawnSpec {
                        program: self.to.program.clone(),
                        args: clone_args(&self.to.args),
                    },
                ),
            ),
            (PipeState::WaitSecond, PipeEvent::SecondSpawnFailed) => (
                PipeState::AwaitingKill { outcome: None },
                PipeAction::KillFirst,
            ),
            (PipeState::WaitSecond, PipeEvent::SecondFinished(out)) => (
                PipeState::AwaitingKill { outcome: Some(out) },
                PipeAction::KillFirst,
            ),
            (PipeState::AwaitingKill { outcome }, _) => {
                match outcome {
                    None => (
                        PipeState::Done,
                        PipeAction::Finish(
                            Err(SyncError::SpawnFailure { rendered: self.to.render() }),
                        ),
                    ),
                    Some(out) => (PipeState::Done, PipeAction::Finish(self.to.interpret_output(out))),
                }
            },
            _ => (PipeState::Done, PipeAction::KillFirst),
        }
    }

    /// A result is delivered only straight from the producer's failure to
    /// spawn — when no process ever ran — or by the step that acknowledges
    /// the producer was killed.  In particular, when the consumer exits
    /// (successfully or not), the producer is confirmed terminated before
    /// the run's result exists.
    pub proof fn lemma_finish_only_after_kill(
        &self,
        state: PipeState,
        event: PipeEvent,
        new_state: PipeState,
        action: PipeAction<Ot>,
    )
        requires
            self.pipe_step_post(state, event, new_state, action),
            action is Finish,
        ensures
            (state is WaitFirstSpawn && event is FirstSpawnFailed) || (state is AwaitingKill
                && event is FirstKilled),
    {
    }

    /// The state that holds the consumer's outcome is entered only by the
    /// step whose action is killing the producer.
    pub proof fn lemma_kill_precedes_outcome(
        &self,
        state: PipeState,
        event: PipeEvent,
        new_state: PipeState,
        action: PipeAction<Ot>,
    )
        requires
            self.pipe_step_post(state, event, new_state, action),
            new_state is AwaitingKill,
        ensures
            state is WaitSecond && action is KillFirst,
    {
    }
}

impl DryRunnable for PipedCommand<IgnoreOutput> {
    open spec fn rendered_spec(&self) -> Seq<char> {
        self.from.spec_rendered() + " | "@ + self.to.spec_rendered()
    }

    open spec fn is_wet_plan(&self, p: RunPlan) -> bool {
        p matches RunPlan::SpawnPipe { producer, consumer } && producer.spawns(self.from)
            && consumer.spawns(self.to)
    }

    fn run_or_dry_run_plan(&self, dry_run: bool) -> (p: RunPlan) {
        if dry_run {
            let mut rendered = self.from.render();
            rendered.append(" | ");
            let to_rendered = self.to.render();
            rendered.append(to_rendered.as_str());
            proof {
                assert(rendered@ =~= self.rendered_spec());
            }
            RunPlan::SkipDryRun { rendered }
        } else {
            RunPlan::SpawnPipe {
                producer: SpawnSpec {
                    program: self.from.program.clone(),
                    args: clone_args(&self.from.args),
                },
                consumer: SpawnSpec {
                    program: self.to.program.clone(),
                    args: clone_args(&self.to.args),
                },
            }
        }
    }
}

} // verus!
