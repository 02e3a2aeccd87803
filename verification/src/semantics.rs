//! What expressions mean: the steps they take and the result they come to, as functions of the
//! expression, the context and the replies that the operating system gives.

use vstd::prelude::*;

use crate::bytes;
use crate::env;
use crate::error;
use crate::model::{
    ask, closes, head, tail, ContextView, ErrorView, Expr, LaunchView, OutputView, ReplyView,
     RequestView, Setting, Sink, Source, Trace,
};
use crate::os::{fault_of, Exit, Fault, Handle, Status, Stream, Worker};

verus! {

/// The path of the null device.
pub open spec fn dev_null() -> Seq<u8> {
    bytes::text("/dev/null"@)
}

/// The command line that runs a shell command.
pub open spec fn shell_argv(command: Seq<u8>) -> Seq<Seq<u8>> {
    seq![bytes::text("/bin/sh"@), bytes::text("-c"@), command]
}

/// The request that opens an input that is not a byte string.
pub open spec fn input_request(source: Source) -> RequestView
    recommends
        !(source is Bytes),
{
    match source {
        Source::Null => RequestView::OpenRead(dev_null()),
        Source::Path(path) => RequestView::OpenRead(path),
        Source::File(file) => RequestView::Duplicate(file),
        Source::Bytes(_) => RequestView::OpenPipe,
    }
}

/// The request that opens an output, given the streams that are inherited and the capture pipe.
pub open spec fn output_request(
    sink: Sink,
    stdout: Handle,
    stderr: Handle,
    capture: Handle,
) -> RequestView {
    match sink {
        Sink::Capture => RequestView::Duplicate(capture),
        Sink::Null => RequestView::OpenWrite(dev_null()),
        Sink::Stdout => RequestView::Duplicate(stdout),
        Sink::Stderr => RequestView::Duplicate(stderr),
        Sink::Path(path) => RequestView::OpenWrite(path),
        Sink::File(file) => RequestView::Duplicate(file),
    }
}

/// The command that is started in a context.
pub open spec fn launch_of(argv: Seq<Seq<u8>>, c: ContextView) -> LaunchView {
    LaunchView {
        argv,
        stdin: c.stdin,
        stdout: c.stdout,
        stderr: c.stderr,
        dir: c.dir,
        env: c.env,
    }
}

/// How a pipe ended, given how its sides ended. An error on the right comes before one on the
/// left, and so does a failing status.
pub open spec fn pipe_exit(left: Exit, right: Exit) -> Exit {
    match (left, right) {
        (_, Err(e)) => Err(e),
        (Err(e), Ok(_)) => Err(e),
        (Ok(l), Ok(r)) => if r != 0 {
            Ok(r)
        } else {
            Ok(l)
        },
    }
}

/// How an expression ended whose writer failed, given what kind of error the writer met.
pub open spec fn writer_failed(status: Status, error: std::io::Error, fault: Fault) -> Exit {
    match fault {
        Fault::BrokenPipe => Ok(status),
        Fault::Other => Err(error),
    }
}

/// How an expression with a writer ended, given how the expression itself and the writer ended.
/// That the expression did not read all of its input is no error.
pub open spec fn written_exit(exit: Exit, written: Result<(), std::io::Error>) -> Exit {
    match (exit, written) {
        (Err(e), _) => Err(e),
        (Ok(status), Ok(_)) => Ok(status),
        (Ok(status), Err(e)) => writer_failed(status, e, fault_of(e)),
    }
}

/// How an unchecked expression ended: any status counts as success.
pub open spec fn unchecked_exit(exit: Exit) -> Exit {
    match exit {
        Ok(_) => Ok(0),
        Err(e) => Err(e),
    }
}

/// What an expression does in a context that it owns.
pub open spec fn exec(e: Expr, c: ContextView, r: Seq<ReplyView>) -> Trace<Exit>
    decreases e, 1nat,
{
    match e {
        Expr::Argv(argv) => launch(argv, c, r),
        Expr::Sh(command) => launch(shell_argv(command), c, r),
        Expr::Pipe(left, right) => pipe_opened(*left, *right, c, r).after(
            ask(RequestView::OpenPipe),
        ),
        Expr::Then(left, right) => then_cloned(*left, *right, c, clone_context(c, Seq::empty(), r)),
        Expr::Io(Setting::Stdin(Source::Bytes(input)), inner) => input_piped(
            *inner,
            c,
            input,
            r,
        ).after(ask(RequestView::OpenPipe)),
        Expr::Io(Setting::Stdin(source), inner) => redirected(Stream::Stdin, *inner, c, r).after(
            ask(input_request(source)),
        ),
        Expr::Io(Setting::Stdout(sink), inner) => redirected(Stream::Stdout, *inner, c, r).after(
            ask(output_request(sink, c.stdout, c.stderr, c.stdout_capture)),
        ),
        Expr::Io(Setting::Stderr(sink), inner) => redirected(Stream::Stderr, *inner, c, r).after(
            ask(output_request(sink, c.stdout, c.stderr, c.stderr_capture)),
        ),
        Expr::Io(Setting::Dir(dir), inner) => exec(*inner, ContextView { dir, ..c }, r),
        Expr::Io(Setting::Env(name, value), inner) => exec(
            *inner,
            ContextView { env: c.env.insert(name, value), ..c },
            r,
        ),
        Expr::Io(Setting::FullEnv(env), inner) => exec(*inner, ContextView { env, ..c }, r),
        Expr::Io(Setting::Unchecked, inner) => unchecked(exec(*inner, c, r)),
    }
}

/// Starts a command and waits for it.
pub open spec fn launch(argv: Seq<Seq<u8>>, c: ContextView, r: Seq<ReplyView>) -> Trace<Exit> {
    exited(c, r).after(ask(RequestView::Launch(launch_of(argv, c))))
}

/// A command was started: once it has exited, its context is closed.
pub open spec fn exited(c: ContextView, r: Seq<ReplyView>) -> Trace<Exit> {
    match head(r) {
        Some(ReplyView::Exited(exit)) => Trace::done(exit, tail(r)).after(closes(c.handles())),
        _ => Trace::stuck(),
    }
}

/// Duplicates the handles of a context, the first of which have been duplicated already. If one
/// cannot be, the duplicates are closed, the latest first.
pub open spec fn clone_context(c: ContextView, copies: Seq<Handle>, r: Seq<ReplyView>) -> Trace<
    Result<ContextView, std::io::Error>,
>
    decreases 5 - copies.len(), 1nat,
{
    if copies.len() >= 5 {
        Trace::done(Ok(c.with_handles(copies)), r)
    } else {
        handle_cloned(c, copies, r).after(
            ask(RequestView::Duplicate(c.handles()[copies.len() as int])),
        )
    }
}

/// The duplicate of the next handle of a context was asked for.
pub open spec fn handle_cloned(c: ContextView, copies: Seq<Handle>, r: Seq<ReplyView>) -> Trace<
    Result<ContextView, std::io::Error>,
>
    decreases 5 - copies.len(), 0nat,
{
    if copies.len() >= 5 {
        Trace::stuck()
    } else {
        match head(r) {
            Some(ReplyView::Opened(Ok(copy))) => clone_context(c, copies.push(copy), tail(r)),
            Some(ReplyView::Opened(Err(e))) => Trace::done(Err(e), tail(r)).after(
                closes(copies.reverse()),
            ),
            _ => Trace::stuck(),
        }
    }
}

/// A pipe was asked for, to stand between two expressions.
pub open spec fn pipe_opened(
    left: Expr,
    right: Expr,
    c: ContextView,
    r: Seq<ReplyView>,
) -> Trace<Exit> {
    match head(r) {
        Some(ReplyView::Pipe(read, write)) => pipe_cloned(
            left,
            right,
            c,
            read,
            write,
            clone_context(c, Seq::empty(), tail(r)),
        ),
        _ => Trace::stuck(),
    }
}

/// The context of a pipe was duplicated: the left side gets the copy and writes into the pipe, the
/// right side gets the context itself and reads from the pipe.
pub open spec fn pipe_cloned(
    left: Expr,
    right: Expr,
    c: ContextView,
    read: Handle,
    write: Handle,
    t: Trace<Result<ContextView, std::io::Error>>,
) -> Trace<Exit> {
    match t.end {
        None => Trace { ops: t.ops, rest: t.rest, end: None },
        Some(Err(e)) => Trace::done(Err(e), t.rest).after(
            t.ops + closes(seq![write, read]) + closes(c.handles()),
        ),
        Some(Ok(copy)) => forked(t.rest).after(
            t.ops + closes(seq![copy.stdout, c.stdin]) + ask(
                RequestView::Fork(
                    left,
                    ContextView { stdout: write, ..copy },
                    right,
                    ContextView { stdin: read, ..c },
                ),
            ),
        ),
    }
}

/// Both sides of a pipe were started.
pub open spec fn forked(r: Seq<ReplyView>) -> Trace<Exit> {
    match head(r) {
        Some(ReplyView::Forked(left, right)) => Trace::done(pipe_exit(left, right), tail(r)),
        _ => Trace::stuck(),
    }
}

/// The context of a sequence was duplicated: the first expression gets the copy.
pub open spec fn then_cloned(
    left: Expr,
    right: Expr,
    c: ContextView,
    t: Trace<Result<ContextView, std::io::Error>>,
) -> Trace<Exit>
    decreases Expr::Then(Box::new(left), Box::new(right)), 0nat,
{
    proof {
        let whole = Expr::Then(Box::new(left), Box::new(right));
        assert(decreases_to!(whole => whole->Then_0));
        assert(decreases_to!(whole => whole->Then_1));
    }
    match t.end {
        None => Trace { ops: t.ops, rest: t.rest, end: None },
        Some(Err(e)) => Trace::done(Err(e), t.rest).after(t.ops + closes(c.handles())),
        Some(Ok(copy)) => then_left(right, c, exec(left, copy, t.rest)).after(t.ops),
    }
}

/// The first expression of a sequence ran: if it succeeded the second runs in the context that
/// was kept for it, otherwise that context is closed.
pub open spec fn then_left(right: Expr, c: ContextView, t: Trace<Exit>) -> Trace<Exit>
    decreases right, 2nat,
{
    match t.end {
        None => t,
        Some(Ok(0)) => exec(right, c, t.rest).after(t.ops),
        Some(exit) => Trace::done(exit, t.rest).after(t.ops + closes(c.handles())),
    }
}

/// The expression ran, and its status is ignored.
pub open spec fn unchecked(t: Trace<Exit>) -> Trace<Exit> {
    match t.end {
        None => t,
        Some(exit) => Trace { end: Some(unchecked_exit(exit)), ..t },
    }
}

/// A new standard stream was asked for: it takes the place of the old one, which is closed before
/// the expression runs.
pub open spec fn redirected(
    stream: Stream,
    inner: Expr,
    c: ContextView,
    r: Seq<ReplyView>,
) -> Trace<Exit>
    decreases inner, 2nat,
{
    match head(r) {
        Some(ReplyView::Opened(Ok(handle))) => exec(
            inner,
            c.with_stream(stream, handle),
            tail(r),
        ).after(closes(seq![c.stream(stream)])),
        Some(ReplyView::Opened(Err(e))) => Trace::done(Err(e), tail(r)).after(closes(c.handles())),
        _ => Trace::stuck(),
    }
}

/// A pipe was asked for, to carry input bytes.
pub open spec fn input_piped(
    inner: Expr,
    c: ContextView,
    input: Seq<u8>,
    r: Seq<ReplyView>,
) -> Trace<Exit>
    decreases inner, 4nat,
{
    match head(r) {
        Some(ReplyView::Pipe(read, write)) => writer_started(inner, c, read, tail(r)).after(
            ask(RequestView::StartWriter(write, input)),
        ),
        _ => Trace::stuck(),
    }
}

/// A writer was started at the other end of the pipe that is the new standard input.
pub open spec fn writer_started(
    inner: Expr,
    c: ContextView,
    read: Handle,
    r: Seq<ReplyView>,
) -> Trace<Exit>
    decreases inner, 3nat,
{
    match head(r) {
        Some(ReplyView::Started(writer)) => fed(
            writer,
            exec(inner, ContextView { stdin: read, ..c }, tail(r)),
        ).after(closes(seq![c.stdin])),
        _ => Trace::stuck(),
    }
}

/// The expression that a writer feeds ran: the writer is waited for, whatever the expression came
/// to.
pub open spec fn fed(writer: Worker, t: Trace<Exit>) -> Trace<Exit> {
    match t.end {
        None => t,
        Some(exit) => writer_joined(exit, t.rest).after(
            t.ops + ask(RequestView::JoinWriter(writer)),
        ),
    }
}

/// A writer was waited for.
pub open spec fn writer_joined(exit: Exit, r: Seq<ReplyView>) -> Trace<Exit> {
    match head(r) {
        Some(ReplyView::Written(written)) => Trace::done(written_exit(exit, written), tail(r)),
        _ => Trace::stuck(),
    }
}

/// The threads that collect what is captured, and the pipe ends that lead to them.
#[derive(Clone, Copy, Debug)]
pub struct Captures {
    pub stdout: Worker,
    pub stdout_write: Handle,
    pub stderr: Worker,
    pub stderr_write: Handle,
}

/// The result of running an expression.
pub type RunResult = Result<OutputView, ErrorView>;

/// The result of reading an expression.
pub type ReadResult = Result<Seq<char>, ErrorView>;

/// What running an expression does, from the beginning.
pub open spec fn run(e: Expr, r: Seq<ReplyView>) -> Trace<RunResult> {
    stdout_piped(e, r).after(ask(RequestView::OpenPipe))
}

/// A pipe for captured output was asked for.
pub open spec fn stdout_piped(e: Expr, r: Seq<ReplyView>) -> Trace<RunResult> {
    match head(r) {
        Some(ReplyView::Pipe(read, write)) => stdout_reading(e, write, tail(r)).after(
            ask(RequestView::StartReader(read)),
        ),
        _ => Trace::stuck(),
    }
}

/// A thread that collects captured output was asked for.
pub open spec fn stdout_reading(e: Expr, stdout_write: Handle, r: Seq<ReplyView>) -> Trace<
    RunResult,
> {
    match head(r) {
        Some(ReplyView::Started(stdout)) => stderr_piped(e, stdout, stdout_write, tail(r)).after(
            ask(RequestView::OpenPipe),
        ),
        _ => Trace::stuck(),
    }
}

/// A pipe for captured error output was asked for.
pub open spec fn stderr_piped(
    e: Expr,
    stdout: Worker,
    stdout_write: Handle,
    r: Seq<ReplyView>,
) -> Trace<RunResult> {
    match head(r) {
        Some(ReplyView::Pipe(read, write)) => stderr_reading(
            e,
            stdout,
            stdout_write,
            write,
            tail(r),
        ).after(ask(RequestView::StartReader(read))),
        _ => Trace::stuck(),
    }
}

/// A thread that collects captured error output was asked for.
pub open spec fn stderr_reading(
    e: Expr,
    stdout: Worker,
    stdout_write: Handle,
    stderr_write: Handle,
    r: Seq<ReplyView>,
) -> Trace<RunResult> {
    match head(r) {
        Some(ReplyView::Started(stderr)) => variables_listed(
            e,
            Captures { stdout, stdout_write, stderr, stderr_write },
            tail(r),
        ).after(ask(RequestView::Environment)),
        _ => Trace::stuck(),
    }
}

/// The environment was asked for.
pub open spec fn variables_listed(e: Expr, captures: Captures, r: Seq<ReplyView>) -> Trace<
    RunResult,
> {
    match head(r) {
        Some(ReplyView::Variables(pairs)) => inheriting(
            e,
            captures,
            env::collect(pairs),
            Seq::empty(),
            tail(r),
        ),
        _ => Trace::stuck(),
    }
}

/// The standard streams, in the order in which they are asked for.
pub open spec fn standard(index: int) -> Stream {
    if index == 0 {
        Stream::Stdin
    } else if index == 1 {
        Stream::Stdout
    } else {
        Stream::Stderr
    }
}

/// Asks for the standard streams that are still missing, and then for the working directory.
pub open spec fn inheriting(
    e: Expr,
    captures: Captures,
    env: Map<Seq<u8>, Seq<u8>>,
    streams: Seq<Handle>,
    r: Seq<ReplyView>,
) -> Trace<RunResult>
    decreases 3 - streams.len(), 1nat,
{
    if streams.len() < 3 {
        stream_inherited(e, captures, env, streams, r).after(
            ask(RequestView::Inherit(standard(streams.len() as int))),
        )
    } else {
        dir_found(e, captures, env, streams, r).after(ask(RequestView::CurrentDir))
    }
}

/// The next standard stream was asked for.
pub open spec fn stream_inherited(
    e: Expr,
    captures: Captures,
    env: Map<Seq<u8>, Seq<u8>>,
    streams: Seq<Handle>,
    r: Seq<ReplyView>,
) -> Trace<RunResult>
    decreases 3 - streams.len(), 0nat,
{
    if streams.len() >= 3 {
        Trace::stuck()
    } else {
        match head(r) {
            Some(ReplyView::Inherited(stream)) => inheriting(
                e,
                captures,
                env,
                streams.push(stream),
                tail(r),
            ),
            _ => Trace::stuck(),
        }
    }
}

/// The working directory was asked for: now the context is complete, and the expression runs. If
/// there is no directory, what was to make up the context is closed, the latest first.
pub open spec fn dir_found(
    e: Expr,
    captures: Captures,
    env: Map<Seq<u8>, Seq<u8>>,
    streams: Seq<Handle>,
    r: Seq<ReplyView>,
) -> Trace<RunResult> {
    match head(r) {
        Some(ReplyView::Directory(Ok(dir))) => executed(
            captures.stdout,
            captures.stderr,
            exec(e, first_context(captures, env, streams, dir), tail(r)),
        ),
        Some(ReplyView::Directory(Err(x))) => Trace::done(Err(ErrorView::Io(x)), tail(r)).after(
            closes(first_context(captures, env, streams, Seq::empty()).handles().reverse()),
        ),
        _ => Trace::stuck(),
    }
}

/// The context that an expression starts in.
pub open spec fn first_context(
    captures: Captures,
    env: Map<Seq<u8>, Seq<u8>>,
    streams: Seq<Handle>,
    dir: Seq<u8>,
) -> ContextView {
    ContextView {
        stdin: streams[0],
        stdout: streams[1],
        stderr: streams[2],
        stdout_capture: captures.stdout_write,
        stderr_capture: captures.stderr_write,
        dir,
        env,
    }
}

/// The expression ran: what was captured is collected, unless there was an error.
pub open spec fn executed(stdout: Worker, stderr: Worker, t: Trace<Exit>) -> Trace<RunResult> {
    match t.end {
        None => Trace { ops: t.ops, rest: t.rest, end: None },
        Some(Err(x)) => Trace::done(Err(ErrorView::Io(x)), t.rest).after(t.ops),
        Some(Ok(status)) => stdout_collected(status, stderr, t.rest).after(
            t.ops + ask(RequestView::JoinReader(stdout)),
        ),
    }
}

/// The captured output was asked for.
pub open spec fn stdout_collected(status: Status, stderr: Worker, r: Seq<ReplyView>) -> Trace<
    RunResult,
> {
    match head(r) {
        Some(ReplyView::Collected(Ok(stdout))) => stderr_collected(status, stdout, tail(r)).after(
            ask(RequestView::JoinReader(stderr)),
        ),
        Some(ReplyView::Collected(Err(x))) => Trace::done(Err(ErrorView::Io(x)), tail(r)),
        _ => Trace::stuck(),
    }
}

/// The captured error output was asked for: now the output is complete.
pub open spec fn stderr_collected(status: Status, stdout: Seq<u8>, r: Seq<ReplyView>) -> Trace<
    RunResult,
> {
    match head(r) {
        Some(ReplyView::Collected(Ok(stderr))) => Trace::done(
            error::judge(OutputView { status, stdout, stderr }),
            tail(r),
        ),
        Some(ReplyView::Collected(Err(x))) => Trace::done(Err(ErrorView::Io(x)), tail(r)),
        _ => Trace::stuck(),
    }
}

/// What reading an expression does: it runs with its output captured, and what was captured is
/// decoded.
pub open spec fn read(e: Expr, r: Seq<ReplyView>) -> Trace<ReadResult> {
    decoded(run(Expr::Io(Setting::Stdout(Sink::Capture), Box::new(e)), r))
}

/// A run, with its result read as text.
pub open spec fn decoded(t: Trace<RunResult>) -> Trace<ReadResult> {
    Trace {
        ops: t.ops,
        rest: t.rest,
        end: match t.end {
            None => None,
            Some(result) => Some(error::decode(result)),
        },
    }
}

} // verus!
