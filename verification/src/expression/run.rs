//! Running an expression from beginning to end, one request at a time.

use vstd::prelude::*;

use crate::context::{reversed, IoContext};
use crate::env;
use crate::error;
use crate::error::{decode_output, Error, Output};
use crate::expression::task::{Task, TaskStep};
use crate::expression::Expression;
use crate::model::{answers, ask, closes, lemma_answered, ReplyView, Trace};
use crate::os::{Handle, Status, Stream, Worker};
use crate::protocol::{Job, Next, Reply, Request, Step};
use crate::semantics;
use crate::semantics::{Captures, ReadResult, RunResult};

verus! {

/// An expression that is being run and waits for a reply.
#[derive(Debug)]
pub struct Run<'a> {
    phase: Phase<'a>,
}

/// What a run waits for, and what it needs to go on.
#[derive(Debug)]
enum Phase<'a> {
    /// A pipe for captured output.
    PipingStdout(Expression<'a>),
    /// A thread that collects what comes through that pipe.
    ReadingStdout(Expression<'a>, Handle),
    /// A pipe for captured error output.
    PipingStderr(Expression<'a>, Worker, Handle),
    /// A thread that collects what comes through that pipe.
    ReadingStderr(Expression<'a>, Worker, Handle, Handle),
    /// The environment.
    Listing(Expression<'a>, Captures),
    /// A standard stream.
    Inheriting(Expression<'a>, Captures, Vec<(Vec<u8>, Vec<u8>)>, Vec<Handle>),
    /// The working directory.
    Locating(Expression<'a>, Captures, Vec<(Vec<u8>, Vec<u8>)>, Vec<Handle>),
    /// Whatever the running expression waits for.
    Executing(Task<'a>, Worker, Worker),
    /// The captured output.
    CollectingStdout(Status, Worker),
    /// The captured error output.
    CollectingStderr(Status, Vec<u8>),
}

impl<'a> Phase<'a> {
    spec fn trace(self, r: Seq<ReplyView>) -> Trace<RunResult> {
        match self {
            Phase::PipingStdout(e) => semantics::stdout_piped(e@, r),
            Phase::ReadingStdout(e, write) => semantics::stdout_reading(e@, write, r),
            Phase::PipingStderr(e, stdout, write) => semantics::stderr_piped(e@, stdout, write, r),
            Phase::ReadingStderr(e, stdout, stdout_write, stderr_write) =>
                semantics::stderr_reading(e@, stdout, stdout_write, stderr_write, r),
            Phase::Listing(e, captures) => semantics::variables_listed(e@, captures, r),
            Phase::Inheriting(e, captures, variables, streams) => semantics::stream_inherited(
                e@,
                captures,
                env::collect(env::entries(variables@)),
                streams@,
                r,
            ),
            Phase::Locating(e, captures, variables, streams) => semantics::dir_found(
                e@,
                captures,
                env::collect(env::entries(variables@)),
                streams@,
                r,
            ),
            Phase::Executing(task, stdout, stderr) => semantics::executed(
                stdout,
                stderr,
                task.trace(r),
            ),
            Phase::CollectingStdout(status, stderr) => semantics::stdout_collected(
                status,
                stderr,
                r,
            ),
            Phase::CollectingStderr(status, stdout) => semantics::stderr_collected(
                status,
                stdout@,
                r,
            ),
        }
    }

    spec fn awaits(self, reply: ReplyView) -> bool {
        match self {
            Phase::PipingStdout(_) => reply is Pipe,
            Phase::ReadingStdout(_, _) => reply is Started,
            Phase::PipingStderr(_, _, _) => reply is Pipe,
            Phase::ReadingStderr(_, _, _, _) => reply is Started,
            Phase::Listing(_, _) => reply is Variables,
            Phase::Inheriting(_, _, _, _) => reply is Inherited,
            Phase::Locating(_, _, _, _) => reply is Directory,
            Phase::Executing(task, _, _) => task.awaits(reply),
            Phase::CollectingStdout(_, _) => reply is Collected,
            Phase::CollectingStderr(_, _) => reply is Collected,
        }
    }

    spec fn well_formed(self) -> bool {
        match self {
            Phase::Inheriting(_, _, _, streams) => streams@.len() < 3,
            Phase::Locating(_, _, _, streams) => streams@.len() == 3,
            Phase::Executing(task, _, _) => task.well_formed(),
            _ => true,
        }
    }
}

impl<'a> Run<'a> {
    /// What the run does from here on, given the replies that are to come.
    pub closed spec fn trace(self, r: Seq<ReplyView>) -> Trace<RunResult> {
        self.phase.trace(r)
    }

    /// Whether a reply is of the kind that the run waits for.
    pub closed spec fn awaits(self, reply: ReplyView) -> bool {
        self.phase.awaits(reply)
    }

    pub closed spec fn well_formed(self) -> bool {
        self.phase.well_formed()
    }
}

impl<'a> Run<'a> {
    /// A run does nothing until it is handed a reply.
    pub proof fn waits(self)
        ensures
            self.trace(Seq::empty()) == Trace::<RunResult>::stuck(),
    {
        if let Phase::Executing(task, _, _) = self.phase {
            task.waits();
        }
        assert(self.phase.trace(Seq::empty()) =~= Trace::<RunResult>::stuck());
    }
}

/// A step of a run.
pub type RunStep<'a> = Step<'a, Run<'a>, Result<Output, Error>>;

impl<'a> Step<'a, Run<'a>, Result<Output, Error>> {
    /// What happens from this step on.
    pub open spec fn trace(self, r: Seq<ReplyView>) -> Trace<RunResult> {
        match self.next {
            Next::Ask(request, run) => run.trace(r).after(closes(self.close@) + ask(request@)),
            Next::Done(result) => Trace::done(error::run_result(result), r).after(
                closes(self.close@),
            ),
        }
    }

    /// A run that is to be handed a reply waits for replies of the kind that answers its request.
    pub open spec fn well_formed(self) -> bool {
        match self.next {
            Next::Ask(request, run) => run.well_formed() && forall|reply: ReplyView|
                answers(request@, reply) ==> #[trigger] run.awaits(reply),
            Next::Done(_) => true,
        }
    }
}

/// The step that makes a request and then waits for the reply.
fn waiting<'a>(request: Request<'a>, phase: Phase<'a>) -> (step: RunStep<'a>)
    requires
        phase.well_formed(),
        forall|reply: ReplyView| answers(request@, reply) ==> #[trigger] phase.awaits(reply),
    ensures
        step.well_formed(),
        forall|r: Seq<ReplyView>| #[trigger]
            step.trace(r) == phase.trace(r).after(ask(request@)),
{
    let close: Vec<Handle> = Vec::new();
    proof {
        assert(closes(close@) + ask(request@) =~= ask(request@));
    }
    Step { close, next: Next::Ask(request, Run { phase }) }
}

/// The step that ends a run.
fn ending<'a>(result: Result<Output, Error>) -> (step: RunStep<'a>)
    ensures
        step.well_formed(),
        forall|r: Seq<ReplyView>| #[trigger]
            step.trace(r) == Trace::done(error::run_result(result), r),
{
    let close: Vec<Handle> = Vec::new();
    let step = Step { close, next: Next::Done(result) };
    proof {
        assert forall|r: Seq<ReplyView>| #[trigger]
            step.trace(r) == Trace::done(error::run_result(result), r) by {
            assert(step.trace(r) =~= Trace::done(error::run_result(result), r));
        }
    }
    step
}

/// Takes a step of the expression as a step of the run. When the expression has ended, the
/// captured output is asked for.
fn executing<'a>(step: TaskStep<'a>, stdout: Worker, stderr: Worker) -> (next: RunStep<'a>)
    requires
        step.well_formed(),
    ensures
        next.well_formed(),
        forall|r: Seq<ReplyView>| #[trigger]
            next.trace(r) == semantics::executed(stdout, stderr, step.trace(r)),
{
    let close = step.close;
    let next = match step.next {
        Next::Ask(request, task) => Step {
            close,
            next: Next::Ask(request, Run { phase: Phase::Executing(task, stdout, stderr) }),
        },
        Next::Done(Ok(status)) => Step {
            close,
            next: Next::Ask(
                Request::JoinReader(stdout),
                Run { phase: Phase::CollectingStdout(status, stderr) },
            ),
        },
        Next::Done(Err(e)) => Step { close, next: Next::Done(Err(Error::from(e))) },
    };
    proof {
        assert forall|r: Seq<ReplyView>| #[trigger]
            next.trace(r) == semantics::executed(stdout, stderr, step.trace(r)) by {
            assert(next.trace(r) =~= semantics::executed(stdout, stderr, step.trace(r)));
        }
    }
    next
}

/// Asks for the standard streams that are still missing, and then for the working directory.
fn inherit<'a>(
    expression: Expression<'a>,
    captures: Captures,
    variables: Vec<(Vec<u8>, Vec<u8>)>,
    streams: Vec<Handle>,
) -> (step: RunStep<'a>)
    requires
        streams@.len() <= 3,
    ensures
        step.well_formed(),
        forall|r: Seq<ReplyView>| #[trigger]
            step.trace(r) == semantics::inheriting(
                expression@,
                captures,
                env::collect(env::entries(variables@)),
                streams@,
                r,
            ),
{
    if streams.len() < 3 {
        let stream = if streams.len() == 0 {
            Stream::Stdin
        } else if streams.len() == 1 {
            Stream::Stdout
        } else {
            Stream::Stderr
        };
        waiting(
            Request::Inherit(stream),
            Phase::Inheriting(expression, captures, variables, streams),
        )
    } else {
        waiting(Request::CurrentDir, Phase::Locating(expression, captures, variables, streams))
    }
}

/// Goes on after the working directory was asked for.
fn locate<'a>(
    expression: Expression<'a>,
    captures: Captures,
    variables: Vec<(Vec<u8>, Vec<u8>)>,
    streams: Vec<Handle>,
    dir: Result<Vec<u8>, std::io::Error>,
) -> (step: RunStep<'a>)
    requires
        streams@.len() == 3,
    ensures
        step.well_formed(),
        forall|r: Seq<ReplyView>| #[trigger]
            step.trace(r) == semantics::dir_found(
                expression@,
                captures,
                env::collect(env::entries(variables@)),
                streams@,
                seq![Reply::Directory(dir)@] + r,
            ),
{
    proof {
        lemma_answered(Reply::Directory(dir)@);
    }
    match dir {
        Ok(dir) => {
            let context = IoContext::new(
                streams[0],
                streams[1],
                streams[2],
                captures.stdout_write,
                captures.stderr_write,
                dir,
                variables,
            );
            executing(Job { expression, context }.start(), captures.stdout, captures.stderr)
        },
        Err(e) => {
            let mut handles = streams;
            handles.push(captures.stdout_write);
            handles.push(captures.stderr_write);
            proof {
                assert(handles@ =~= semantics::first_context(
                    captures,
                    env::collect(env::entries(variables@)),
                    streams@,
                    Seq::empty(),
                ).handles());
            }
            Step { close: reversed(handles), next: Next::Done(Err(Error::from(e))) }
        },
    }
}

impl<'a> Run<'a> {
    /// Hands the reply to its request to the run.
    pub fn advance(self, reply: Reply) -> (step: RunStep<'a>)
        requires
            self.well_formed(),
            self.awaits(reply@),
        ensures
            step.well_formed(),
            forall|r: Seq<ReplyView>| #[trigger]
                step.trace(r) == self.trace(seq![reply@] + r),
    {
        proof {
            lemma_answered(reply@);
        }
        match (self.phase, reply) {
            (Phase::PipingStdout(e), Reply::Pipe(read, write)) => waiting(
                Request::StartReader(read),
                Phase::ReadingStdout(e, write),
            ),
            (Phase::ReadingStdout(e, write), Reply::Started(stdout)) => waiting(
                Request::OpenPipe,
                Phase::PipingStderr(e, stdout, write),
            ),
            (Phase::PipingStderr(e, stdout, stdout_write), Reply::Pipe(read, write)) => waiting(
                Request::StartReader(read),
                Phase::ReadingStderr(e, stdout, stdout_write, write),
            ),
            (
                Phase::ReadingStderr(e, stdout, stdout_write, stderr_write),
                Reply::Started(stderr),
            ) => waiting(
                Request::Environment,
                Phase::Listing(e, Captures { stdout, stdout_write, stderr, stderr_write }),
            ),
            (Phase::Listing(e, captures), Reply::Variables(variables)) => {
                let streams: Vec<Handle> = Vec::new();
                proof {
                    assert(streams@ =~= Seq::empty());
                }
                inherit(e, captures, variables, streams)
            },
            (
                Phase::Inheriting(e, captures, variables, streams),
                Reply::Inherited(stream),
            ) => {
                let mut streams = streams;
                streams.push(stream);
                inherit(e, captures, variables, streams)
            },
            (Phase::Locating(e, captures, variables, streams), Reply::Directory(dir)) => locate(
                e,
                captures,
                variables,
                streams,
                dir,
            ),
            (Phase::Executing(task, stdout, stderr), reply) => executing(
                task.advance(reply),
                stdout,
                stderr,
            ),
            (Phase::CollectingStdout(status, stderr), Reply::Collected(collected)) => {
                match collected {
                    Ok(stdout) => waiting(
                        Request::JoinReader(stderr),
                        Phase::CollectingStderr(status, stdout),
                    ),
                    Err(e) => ending(Err(Error::from(e))),
                }
            },
            (Phase::CollectingStderr(status, stdout), Reply::Collected(collected)) => {
                match collected {
                    Ok(stderr) => ending(Output { status, stdout, stderr }.judge()),
                    Err(e) => ending(Err(Error::from(e))),
                }
            },
            (_, _) => vstd::pervasive::unreached(),
        }
    }
}

/// An expression that is being read and waits for a reply.
#[derive(Debug)]
pub struct Read<'a> {
    run: Run<'a>,
}

impl<'a> Read<'a> {
    /// What reading does from here on, given the replies that are to come.
    pub closed spec fn trace(self, r: Seq<ReplyView>) -> Trace<ReadResult> {
        semantics::decoded(self.run.trace(r))
    }

    /// Whether a reply is of the kind that is waited for.
    pub closed spec fn awaits(self, reply: ReplyView) -> bool {
        self.run.awaits(reply)
    }

    pub closed spec fn well_formed(self) -> bool {
        self.run.well_formed()
    }
}

impl<'a> Read<'a> {
    /// Nothing happens until a reply is handed over.
    pub proof fn waits(self)
        ensures
            self.trace(Seq::empty()) == Trace::<ReadResult>::stuck(),
    {
        self.run.waits();
        assert(self.trace(Seq::empty()) =~= Trace::<ReadResult>::stuck());
    }
}

/// A step of reading an expression.
pub type ReadStep<'a> = Step<'a, Read<'a>, Result<String, Error>>;

impl<'a> Step<'a, Read<'a>, Result<String, Error>> {
    /// What happens from this step on.
    pub open spec fn trace(self, r: Seq<ReplyView>) -> Trace<ReadResult> {
        match self.next {
            Next::Ask(request, read) => read.trace(r).after(closes(self.close@) + ask(request@)),
            Next::Done(result) => Trace::done(error::read_result(result), r).after(
                closes(self.close@),
            ),
        }
    }

    /// What is to be handed a reply waits for replies of the kind that answers its request.
    pub open spec fn well_formed(self) -> bool {
        match self.next {
            Next::Ask(request, read) => read.well_formed() && forall|reply: ReplyView|
                answers(request@, reply) ==> #[trigger] read.awaits(reply),
            Next::Done(_) => true,
        }
    }
}

/// Takes a step of a run as a step of reading. When the run has ended, its output is decoded.
fn reading<'a>(step: RunStep<'a>) -> (next: ReadStep<'a>)
    requires
        step.well_formed(),
    ensures
        next.well_formed(),
        forall|r: Seq<ReplyView>| #[trigger]
            next.trace(r) == semantics::decoded(step.trace(r)),
{
    let close = step.close;
    match step.next {
        Next::Ask(request, run) => Step { close, next: Next::Ask(request, Read { run }) },
        Next::Done(result) => Step { close, next: Next::Done(decode_output(result)) },
    }
}

impl<'a> Read<'a> {
    /// Hands on the reply to the request that was made.
    pub fn advance(self, reply: Reply) -> (step: ReadStep<'a>)
        requires
            self.well_formed(),
            self.awaits(reply@),
        ensures
            step.well_formed(),
            forall|r: Seq<ReplyView>| #[trigger]
                step.trace(r) == self.trace(seq![reply@] + r),
    {
        reading(self.run.advance(reply))
    }
}

impl<'a> Expression<'a> {
    /// Runs the expression and yields its status and whatever was captured. A status other than
    /// zero is an error.
    pub fn run(&self) -> (step: RunStep<'a>)
        ensures
            step.well_formed(),
            forall|r: Seq<ReplyView>| #[trigger] step.trace(r) == semantics::run(self@, r),
    {
        waiting(Request::OpenPipe, Phase::PipingStdout(self.clone()))
    }

    /// Runs the expression with its output captured, and yields the output as text without the
    /// newlines at its end.
    pub fn read(&self) -> (step: ReadStep<'a>)
        ensures
            step.well_formed(),
            forall|r: Seq<ReplyView>| #[trigger] step.trace(r) == semantics::read(self@, r),
    {
        reading(self.capture_stdout().run())
    }
}

} // verus!
