//! The executor's wiring plan. For each stage of a pipeline the plan says
//! where its standard input comes from, where its stdout and stderr go,
//! and how the stage is dispatched: spawned as an external process, run as
//! a built-in (final position only), or refused with a diagnostic. Pipe
//! `j` connects stage `j` to stage `j + 1`; a stdout redirection on a
//! non-final stage is shadowed by the pipe, and stderr is never piped. The
//! driver follows this plan verbatim when it spawns processes.
use vstd::prelude::*;

use crate::builtins::builtin_of;
use crate::builtins::spec_builtin_of;
use crate::builtins::BuiltinId;
use crate::pipeline::pipeline_wf;
use crate::pipeline::Pipeline;
use crate::pipeline::PipelineV;
use crate::pipeline::RedirV;
use crate::pipeline::Redirection;
use crate::pipeline::Stage;
use crate::pipeline::StageV;

verus! {

/// Where a stage reads its standard input.
#[derive(PartialEq, Eq, Structural, Clone, Copy, Debug)]
pub enum StdinSource {
    /// The shell's own standard input.
    Inherited,
    /// The read end of the pipe written by the named upstream stage.
    PipeFrom(usize),
}

/// The model of a stage's stdin source.
pub enum StdinSourceV {
    Inherited,
    PipeFrom(int),
}

impl View for StdinSource {
    type V = StdinSourceV;

    open spec fn view(&self) -> StdinSourceV {
        match *self {
            StdinSource::Inherited => StdinSourceV::Inherited,
            StdinSource::PipeFrom(j) => StdinSourceV::PipeFrom(j as int),
        }
    }
}

/// Where a stage's standard output goes.
#[derive(Debug)]
pub enum StdoutSink {
    /// The shell's own standard output.
    Inherited,
    /// A file opened per the redirection.
    File(Redirection),
    /// The write end of the pipe read by the following stage.
    PipeTo(usize),
}

/// The model of a stage's stdout sink.
pub enum StdoutSinkV {
    Inherited,
    File(RedirV),
    PipeTo(int),
}

impl View for StdoutSink {
    type V = StdoutSinkV;

    open spec fn view(&self) -> StdoutSinkV {
        match self {
            StdoutSink::Inherited => StdoutSinkV::Inherited,
            StdoutSink::File(r) => StdoutSinkV::File(r@),
            StdoutSink::PipeTo(j) => StdoutSinkV::PipeTo(*j as int),
        }
    }
}

/// Where a stage's standard error goes: a file or the shell's own stderr,
/// never a pipe.
#[derive(Debug)]
pub enum StderrSink {
    Inherited,
    File(Redirection),
}

/// The model of a stage's stderr sink.
pub enum StderrSinkV {
    Inherited,
    File(RedirV),
}

impl View for StderrSink {
    type V = StderrSinkV;

    open spec fn view(&self) -> StderrSinkV {
        match self {
            StderrSink::Inherited => StderrSinkV::Inherited,
            StderrSink::File(r) => StderrSinkV::File(r@),
        }
    }
}

/// How a stage is dispatched. A built-in runs in the shell only at the
/// final position; `cd` and `exit` never run inside a multi-stage
/// pipeline, so that a piped stage cannot mutate shell state.
#[derive(PartialEq, Eq, Structural, Clone, Copy, Debug)]
pub enum StageAction {
    /// Run the named built-in in the shell process.
    RunBuiltin(BuiltinId),
    /// Emit the unsupported-built-in diagnostic and produce no output.
    RefuseBuiltinInPipe,
    /// Resolve the command name and spawn an external process.
    Spawn,
}

/// The plan for one stage.
#[derive(Debug)]
pub struct StagePlan {
    pub stdin: StdinSource,
    pub stdout: StdoutSink,
    pub stderr: StderrSink,
    pub action: StageAction,
}

/// The model of a stage plan.
pub struct StagePlanV {
    pub stdin: StdinSourceV,
    pub stdout: StdoutSinkV,
    pub stderr: StderrSinkV,
    pub action: StageAction,
}

impl View for StagePlan {
    type V = StagePlanV;

    open spec fn view(&self) -> StagePlanV {
        StagePlanV {
            stdin: self.stdin@,
            stdout: self.stdout@,
            stderr: self.stderr@,
            action: self.action,
        }
    }
}

/// The plan of stage `i` in a pipeline of `n` stages.
pub open spec fn spec_plan_stage(s: StageV, i: int, n: int) -> StagePlanV
    recommends
        s.argv.len() > 0,
        0 <= i < n,
{
    StagePlanV {
        stdin: if i == 0 {
            StdinSourceV::Inherited
        } else {
            StdinSourceV::PipeFrom(i - 1)
        },
        stdout: if i < n - 1 {
            StdoutSinkV::PipeTo(i)
        } else {
            match s.stdout_redir {
                Option::Some(r) => StdoutSinkV::File(r),
                Option::None => StdoutSinkV::Inherited,
            }
        },
        stderr: match s.stderr_redir {
            Option::Some(r) => StderrSinkV::File(r),
            Option::None => StderrSinkV::Inherited,
        },
        action: match spec_builtin_of(s.argv[0]) {
            Option::None => StageAction::Spawn,
            Option::Some(b) => if n > 1 && (b == BuiltinId::Cd || b == BuiltinId::Exit) {
                StageAction::RefuseBuiltinInPipe
            } else if i < n - 1 {
                StageAction::RefuseBuiltinInPipe
            } else {
                StageAction::RunBuiltin(b)
            },
        },
    }
}

/// The whole pipeline's plan, stage by stage.
pub open spec fn spec_plan(p: PipelineV) -> Seq<StagePlanV> {
    Seq::new(p.stages.len(), |i: int| spec_plan_stage(p.stages[i], i, p.stages.len() as int))
}

fn copy_redir(r: &Redirection) -> (c: Redirection)
    ensures
        c@ == r@,
{
    Redirection { fd: r.fd, path: r.path.clone(), mode: r.mode }
}

/// Compute the plan of stage `i` of `n`.
pub fn plan_stage(s: &Stage, i: usize, n: usize) -> (r: StagePlan)
    requires
        i < n,
        s@.argv.len() > 0,
    ensures
        r@ == spec_plan_stage(s@, i as int, n as int),
{
    let stdin = if i == 0 {
        StdinSource::Inherited
    } else {
        StdinSource::PipeFrom(i - 1)
    };
    let stdout = if i < n - 1 {
        StdoutSink::PipeTo(i)
    } else {
        match &s.stdout_redir {
            Option::Some(r) => StdoutSink::File(copy_redir(r)),
            Option::None => StdoutSink::Inherited,
        }
    };
    let stderr = match &s.stderr_redir {
        Option::Some(r) => StderrSink::File(copy_redir(r)),
        Option::None => StderrSink::Inherited,
    };
    proof {
        assert(s.argv.deep_view()[0] == s.argv@[0]@);
    }
    let action = match builtin_of((&s.argv[0]).as_str()) {
        Option::None => StageAction::Spawn,
        Option::Some(b) => if n > 1 && (b == BuiltinId::Cd || b == BuiltinId::Exit) {
            StageAction::RefuseBuiltinInPipe
        } else if i < n - 1 {
            StageAction::RefuseBuiltinInPipe
        } else {
            StageAction::RunBuiltin(b)
        },
    };
    StagePlan { stdin, stdout, stderr, action }
}

/// Compute the whole pipeline's plan.
pub fn plan_pipeline(p: &Pipeline) -> (r: Vec<StagePlan>)
    requires
        pipeline_wf(p@),
    ensures
        r@.len() == p@.stages.len(),
        forall|i: int| 0 <= i < r@.len() ==> (#[trigger] r@[i])@ == spec_plan(p@)[i],
{
    let n = p.stages.len();
    let mut r: Vec<StagePlan> = Vec::new();
    let mut i: usize = 0;
    while i < n
        invariant
            pipeline_wf(p@),
            n == p.stages@.len(),
            n == p@.stages.len(),
            i <= n,
            r@.len() == i,
            forall|j: int| 0 <= j < i ==> (#[trigger] r@[j])@ == spec_plan(p@)[j],
        decreases n - i,
    {
        proof {
            assert(p.stages@[i as int]@ == p@.stages[i as int]);
        }
        let sp = plan_stage(&p.stages[i], i, n);
        r.push(sp);
        i = i + 1;
    }
    r
}

/// Law: the plan hands each pipe endpoint to exactly one stage. A stage
/// writes a pipe exactly when it is not last, and that pipe carries its
/// own index; a stage reads a pipe exactly when it is not first, and that
/// pipe carries the upstream index. So pipe `j`'s write end belongs to
/// stage `j` alone, its read end to stage `j + 1` alone, and once every
/// endpoint is handed off the shell keeps no descriptor beyond its
/// original three.
pub proof fn lemma_plan_closes_pipes(p: PipelineV)
    requires
        pipeline_wf(p),
    ensures
        forall|i: int|
            0 <= i < p.stages.len() ==> (((#[trigger] spec_plan(p)[i]).stdout is PipeTo) <==> i
                < p.stages.len() - 1),
        forall|i: int|
            0 <= i < p.stages.len() && spec_plan(p)[i].stdout is PipeTo
                ==> (#[trigger] spec_plan(p)[i]).stdout->PipeTo_0 == i,
        forall|i: int|
            0 <= i < p.stages.len() ==> (((#[trigger] spec_plan(p)[i]).stdin is PipeFrom) <==> i
                > 0),
        forall|i: int|
            0 <= i < p.stages.len() && spec_plan(p)[i].stdin is PipeFrom
                ==> (#[trigger] spec_plan(p)[i]).stdin->PipeFrom_0 == i - 1,
{
}

} // verus!
