//! Running an expression in a given context, one request at a time.

use vstd::prelude::*;
use vstd::slice::slice_to_vec;

use crate::bytes;
use crate::context::{reversed, IoContext};
use crate::expression::{ExecutableExpression, Expression, ExpressionInner, IoArg};
use crate::model::{
    answers, ask, closes, lemma_answered, ContextView, Expr, Op, ReplyView, RequestView, Trace,
};
use crate::os::{fault, fault_of, Exit, Fault, Handle, Status, Stream, Worker};
use crate::protocol::{Job, Launch, Next, Reply, Request, Step};
use crate::redirect::InputOpening;
use crate::semantics;

verus! {

/// An expression that is running and waits for a reply.
#[derive(Debug)]
pub struct Task<'a> {
    state: State<'a>,
    frames: Vec<Frame<'a>>,
}

/// What a task waits for, and what it needs to go on.
#[derive(Debug)]
enum State<'a> {
    /// A command.
    Launched(IoContext),
    /// A new standard stream for the expression.
    Redirecting(Stream, Expression<'a>, IoContext),
    /// A pipe that is to carry the bytes to the expression.
    PipingInput(Expression<'a>, IoContext, Vec<u8>),
    /// A writer for the pipe that the expression is to read from.
    StartingWriter(Expression<'a>, IoContext, Handle),
    /// A pipe that is to stand between the expressions.
    OpeningPipe(Expression<'a>, Expression<'a>, IoContext),
    /// A duplicate of a handle, for the left side of a pipe with these ends.
    CloningForPipe(Expression<'a>, Expression<'a>, IoContext, Handle, Handle, Vec<Handle>),
    /// A duplicate of a handle, for the first expression of a sequence.
    CloningForThen(Expression<'a>, Expression<'a>, IoContext, Vec<Handle>),
    /// The two sides of a pipe.
    Forked,
    /// A writer, after the expression that it feeds has ended.
    JoiningWriter(Exit),
}

/// What remains to be done when a part of an expression has ended.
#[derive(Debug)]
enum Frame<'a> {
    /// Ignore the status.
    Unchecked,
    /// Wait for the writer.
    Writer(Worker),
    /// Go on with the second expression of a sequence, in the context that was kept for it.
    Then(Expression<'a>, IoContext),
}

impl<'a> Frame<'a> {
    /// What the frame makes of the trace of the part that it waits for.
    spec fn resume(self, t: Trace<Exit>) -> Trace<Exit> {
        match self {
            Frame::Unchecked => semantics::unchecked(t),
            Frame::Writer(writer) => semantics::fed(writer, t),
            Frame::Then(right, context) => semantics::then_left(right@, context@, t),
        }
    }
}

/// What a stack of frames makes of the trace of the part that the topmost waits for.
spec fn unwind(frames: Seq<Frame<'_>>, t: Trace<Exit>) -> Trace<Exit>
    decreases frames.len(),
{
    if frames.len() == 0 {
        t
    } else {
        unwind(frames.drop_last(), frames.last().resume(t))
    }
}

impl<'a> State<'a> {
    spec fn well_formed(self) -> bool {
        match self {
            State::CloningForPipe(_, _, _, _, _, copies) => copies@.len() < 5,
            State::CloningForThen(_, _, _, copies) => copies@.len() < 5,
            _ => true,
        }
    }

    /// What happens from here on.
    spec fn trace(self, r: Seq<ReplyView>) -> Trace<Exit> {
        match self {
            State::Launched(c) => semantics::exited(c@, r),
            State::Redirecting(stream, inner, c) => semantics::redirected(stream, inner@, c@, r),
            State::PipingInput(inner, c, input) => semantics::input_piped(inner@, c@, input@, r),
            State::StartingWriter(inner, c, read) => semantics::writer_started(
                inner@,
                c@,
                read,
                r,
            ),
            State::OpeningPipe(left, right, c) => semantics::pipe_opened(left@, right@, c@, r),
            State::CloningForPipe(left, right, c, read, write, copies) => semantics::pipe_cloned(
                left@,
                right@,
                c@,
                read,
                write,
                semantics::handle_cloned(c@, copies@, r),
            ),
            State::CloningForThen(left, right, c, copies) => semantics::then_cloned(
                left@,
                right@,
                c@,
                semantics::handle_cloned(c@, copies@, r),
            ),
            State::Forked => semantics::forked(r),
            State::JoiningWriter(exit) => semantics::writer_joined(exit, r),
        }
    }

    /// Whether a reply is of the kind that is waited for.
    spec fn awaits(self, reply: ReplyView) -> bool {
        match self {
            State::Launched(_) => reply is Exited,
            State::Redirecting(_, _, _) => reply is Opened,
            State::PipingInput(_, _, _) => reply is Pipe,
            State::StartingWriter(_, _, _) => reply is Started,
            State::OpeningPipe(_, _, _) => reply is Pipe,
            State::CloningForPipe(_, _, _, _, _, _) => reply is Opened,
            State::CloningForThen(_, _, _, _) => reply is Opened,
            State::Forked => reply is Forked,
            State::JoiningWriter(_) => reply is Written,
        }
    }
}

impl<'a> Task<'a> {
    /// What the task does from here on, given the replies that are to come.
    pub closed spec fn trace(self, r: Seq<ReplyView>) -> Trace<Exit> {
        unwind(self.frames@, self.state.trace(r))
    }

    /// Whether a reply is of the kind that the task waits for.
    pub closed spec fn awaits(self, reply: ReplyView) -> bool {
        self.state.awaits(reply)
    }

    pub closed spec fn well_formed(self) -> bool {
        self.state.well_formed()
    }
}

/// Frames add nothing while the part that they wait for has not ended.
proof fn lemma_unwind_stuck(frames: Seq<Frame<'_>>)
    ensures
        unwind(frames, Trace::stuck()) == Trace::<Exit>::stuck(),
    decreases frames.len(),
{
    if frames.len() > 0 {
        lemma_unwind_stuck(frames.drop_last());
    }
}

impl<'a> Task<'a> {
    /// A task does nothing until it is handed a reply.
    pub proof fn waits(self)
        ensures
            self.trace(Seq::empty()) == Trace::<Exit>::stuck(),
    {
        assert(self.state.trace(Seq::empty()) =~= Trace::<Exit>::stuck());
        lemma_unwind_stuck(self.frames@);
    }
}

/// A step of a task.
pub type TaskStep<'a> = Step<'a, Task<'a>, Exit>;

impl<'a> Step<'a, Task<'a>, Exit> {
    /// What happens from this step on.
    pub open spec fn trace(self, r: Seq<ReplyView>) -> Trace<Exit> {
        match self.next {
            Next::Ask(request, task) => task.trace(r).after(closes(self.close@) + ask(request@)),
            Next::Done(exit) => Trace::done(exit, r).after(closes(self.close@)),
        }
    }

    /// A task that is to be handed a reply waits for replies of the kind that answers its request.
    pub open spec fn well_formed(self) -> bool {
        match self.next {
            Next::Ask(request, task) => task.well_formed() && forall|reply: ReplyView|
                answers(request@, reply) ==> #[trigger] task.awaits(reply),
            Next::Done(_) => true,
        }
    }
}

/// Steps that come first stay first, whatever a frame makes of the rest.
proof fn lemma_resume_after(frame: Frame<'_>, t: Trace<Exit>, ops: Seq<Op>)
    ensures
        frame.resume(t.after(ops)) == frame.resume(t).after(ops),
{
    assert(frame.resume(t.after(ops)) =~= frame.resume(t).after(ops));
}

/// Steps that come first stay first, whatever a stack of frames makes of the rest.
proof fn lemma_unwind_after(frames: Seq<Frame<'_>>, t: Trace<Exit>, ops: Seq<Op>)
    ensures
        unwind(frames, t.after(ops)) == unwind(frames, t).after(ops),
    decreases frames.len(),
{
    if frames.len() > 0 {
        lemma_resume_after(frames.last(), t, ops);
        lemma_unwind_after(frames.drop_last(), frames.last().resume(t), ops);
    }
}

/// Steps before steps can be put together.
proof fn lemma_after_after<R>(t: Trace<R>, first: Seq<Op>, second: Seq<Op>)
    ensures
        t.after(second).after(first) == t.after(first + second),
{
    assert(t.after(second).after(first) =~= t.after(first + second));
}

/// Steps of duplicating a context come before the steps that follow it.
proof fn lemma_then_cloned_after(
    left: Expr,
    right: Expr,
    c: ContextView,
    t: Trace<Result<ContextView, std::io::Error>>,
    ops: Seq<Op>,
)
    ensures
        semantics::then_cloned(left, right, c, t.after(ops)) == semantics::then_cloned(
            left,
            right,
            c,
            t,
        ).after(ops),
{
    assert(semantics::then_cloned(left, right, c, t.after(ops)) =~= semantics::then_cloned(
        left,
        right,
        c,
        t,
    ).after(ops));
}

/// Steps of duplicating a context come before the steps that follow it.
proof fn lemma_pipe_cloned_after(
    left: Expr,
    right: Expr,
    c: ContextView,
    read: Handle,
    write: Handle,
    t: Trace<Result<ContextView, std::io::Error>>,
    ops: Seq<Op>,
)
    ensures
        semantics::pipe_cloned(left, right, c, read, write, t.after(ops))
            == semantics::pipe_cloned(left, right, c, read, write, t).after(ops),
{
    assert(semantics::pipe_cloned(left, right, c, read, write, t.after(ops))
        =~= semantics::pipe_cloned(left, right, c, read, write, t).after(ops));
}

/// The step that makes a request and then waits for the reply.
fn waiting<'a>(
    request: Request<'a>,
    state: State<'a>,
    frames: Vec<Frame<'a>>,
    close: Vec<Handle>,
) -> (step: TaskStep<'a>)
    requires
        state.well_formed(),
        forall|reply: ReplyView| answers(request@, reply) ==> #[trigger] state.awaits(reply),
    ensures
        step.well_formed(),
        forall|r: Seq<ReplyView>| #[trigger]
            step.trace(r) == unwind(frames@, state.trace(r).after(ask(request@))).after(
                closes(close@),
            ),
{
    let step = Step { close, next: Next::Ask(request, Task { state, frames }) };
    proof {
        assert forall|r: Seq<ReplyView>| #[trigger]
            step.trace(r) == unwind(frames@, state.trace(r).after(ask(request@))).after(
                closes(close@),
            ) by {
            lemma_unwind_after(frames@, state.trace(r), ask(request@));
            lemma_after_after(unwind(frames@, state.trace(r)), closes(close@), ask(request@));
        }
    }
    step
}

/// Starts an expression in a context that it owns. The frames say what is to follow.
fn evaluate<'a>(
    expression: &Expression<'a>,
    context: IoContext,
    frames: Vec<Frame<'a>>,
    close: Vec<Handle>,
) -> (step: TaskStep<'a>)
    ensures
        step.well_formed(),
        forall|r: Seq<ReplyView>| #[trigger]
            step.trace(r) == unwind(
                frames@,
                semantics::exec(expression@, context@, r),
            ).after(closes(close@)),
    decreases expression@,
{
    match &*expression.inner {
        ExpressionInner::Exec(executable) => start(executable, context, frames, close),
        ExpressionInner::Io(arg, inner) => {
            proof {
                let whole = expression@;
                assert(decreases_to!(whole => whole->Io_1));
            }
            match arg {
                IoArg::Stdin(redirect) => match redirect.open_handle_maybe_thread() {
                    InputOpening::Handle(request) => waiting(
                        request,
                        State::Redirecting(Stream::Stdin, inner.clone(), context),
                        frames,
                        close,
                    ),
                    InputOpening::Thread(input) => waiting(
                        Request::OpenPipe,
                        State::PipingInput(inner.clone(), context, input),
                        frames,
                        close,
                    ),
                },
                IoArg::Stdout(redirect) => waiting(
                    redirect.open_handle(context.stdout, context.stderr, context.stdout_capture),
                    State::Redirecting(Stream::Stdout, inner.clone(), context),
                    frames,
                    close,
                ),
                IoArg::Stderr(redirect) => waiting(
                    redirect.open_handle(context.stdout, context.stderr, context.stderr_capture),
                    State::Redirecting(Stream::Stderr, inner.clone(), context),
                    frames,
                    close,
                ),
                IoArg::Dir(dir) => {
                    let dir = slice_to_vec(dir.as_slice());
                    evaluate(inner, IoContext { dir, ..context }, frames, close)
                },
                IoArg::Env(name, value) => {
                    let env = context.env.insert(
                        slice_to_vec(name.as_slice()),
                        slice_to_vec(value.as_slice()),
                    );
                    evaluate(inner, IoContext { env, ..context }, frames, close)
                },
                IoArg::FullEnv(env) => {
                    let env = env.clone();
                    evaluate(inner, IoContext { env, ..context }, frames, close)
                },
                IoArg::Unchecked => {
                    let mut frames = frames;
                    let ghost outer = frames@;
                    frames.push(Frame::Unchecked);
                    proof {
                        assert(frames@.drop_last() =~= outer);
                    }
                    evaluate(inner, context, frames, close)
                },
            }
        },
    }
}

/// The tree of an executable expression.
spec fn executable_view(executable: ExecutableExpression<'_>) -> Expr {
    match executable {
        ExecutableExpression::ArgvCommand(argv) => Expr::Argv(bytes::contents(argv@)),
        ExecutableExpression::ShCommand(command) => Expr::Sh(command@),
        ExecutableExpression::Pipe(left, right) => Expr::Pipe(Box::new(left@), Box::new(right@)),
        ExecutableExpression::Then(left, right) => Expr::Then(Box::new(left@), Box::new(right@)),
    }
}

/// Starts a command, or several.
fn start<'a>(
    executable: &ExecutableExpression<'a>,
    context: IoContext,
    frames: Vec<Frame<'a>>,
    close: Vec<Handle>,
) -> (step: TaskStep<'a>)
    ensures
        step.well_formed(),
        forall|r: Seq<ReplyView>| #[trigger]
            step.trace(r) == unwind(
                frames@,
                semantics::exec(executable_view(*executable), context@, r),
            ).after(closes(close@)),
{
    match executable {
        ExecutableExpression::ArgvCommand(argv) => exec_argv(
            bytes::copy_all(argv),
            context,
            frames,
            close,
        ),
        ExecutableExpression::ShCommand(command) => exec_sh(command, context, frames, close),
        ExecutableExpression::Pipe(left, right) => exec_pipe(left, right, context, frames, close),
        ExecutableExpression::Then(left, right) => exec_then(left, right, context, frames, close),
    }
}

/// Starts a command.
fn exec_argv<'a>(
    argv: Vec<Vec<u8>>,
    context: IoContext,
    frames: Vec<Frame<'a>>,
    close: Vec<Handle>,
) -> (step: TaskStep<'a>)
    ensures
        step.well_formed(),
        forall|r: Seq<ReplyView>| #[trigger]
            step.trace(r) == unwind(
                frames@,
                semantics::launch(bytes::contents(argv@), context@, r),
            ).after(closes(close@)),
{
    let launch = Launch {
        argv,
        stdin: context.stdin,
        stdout: context.stdout,
        stderr: context.stderr,
        dir: slice_to_vec(context.dir.as_slice()),
        env: context.env.clone(),
    };
    waiting(Request::Launch(launch), State::Launched(context), frames, close)
}

/// Starts a shell.
fn exec_sh<'a>(
    command: &Vec<u8>,
    context: IoContext,
    frames: Vec<Frame<'a>>,
    close: Vec<Handle>,
) -> (step: TaskStep<'a>)
    ensures
        step.well_formed(),
        forall|r: Seq<ReplyView>| #[trigger]
            step.trace(r) == unwind(
                frames@,
                semantics::launch(semantics::shell_argv(command@), context@, r),
            ).after(closes(close@)),
{
    let mut argv: Vec<Vec<u8>> = Vec::new();
    argv.push(bytes::own(&"/bin/sh"));
    argv.push(bytes::own(&"-c"));
    argv.push(slice_to_vec(command.as_slice()));
    proof {
        assert(bytes::contents(argv@) =~= semantics::shell_argv(command@));
    }
    exec_argv(argv, context, frames, close)
}

/// Starts to connect two expressions: first of all a pipe is needed.
fn exec_pipe<'a>(
    left: &Expression<'a>,
    right: &Expression<'a>,
    context: IoContext,
    frames: Vec<Frame<'a>>,
    close: Vec<Handle>,
) -> (step: TaskStep<'a>)
    ensures
        step.well_formed(),
        forall|r: Seq<ReplyView>| #[trigger]
            step.trace(r) == unwind(
                frames@,
                semantics::pipe_opened(left@, right@, context@, r).after(
                    ask(RequestView::OpenPipe),
                ),
            ).after(closes(close@)),
{
    waiting(
        Request::OpenPipe,
        State::OpeningPipe(left.clone(), right.clone(), context),
        frames,
        close,
    )
}

/// Starts a sequence: first of all the context is duplicated.
fn exec_then<'a>(
    left: &Expression<'a>,
    right: &Expression<'a>,
    context: IoContext,
    frames: Vec<Frame<'a>>,
    close: Vec<Handle>,
) -> (step: TaskStep<'a>)
    ensures
        step.well_formed(),
        forall|r: Seq<ReplyView>| #[trigger]
            step.trace(r) == unwind(
                frames@,
                semantics::then_cloned(
                    left@,
                    right@,
                    context@,
                    semantics::clone_context(context@, Seq::empty(), r),
                ),
            ).after(closes(close@)),
{
    let copies: Vec<Handle> = Vec::new();
    let request = Request::Duplicate(context.handle(0));
    let state = State::CloningForThen(left.clone(), right.clone(), context, copies);
    proof {
        assert forall|r: Seq<ReplyView>| #[trigger]
            state.trace(r).after(ask(request@)) == semantics::then_cloned(
                left@,
                right@,
                context@,
                semantics::clone_context(context@, Seq::empty(), r),
            ) by {
            lemma_then_cloned_after(
                left@,
                right@,
                context@,
                semantics::handle_cloned(context@, Seq::empty(), r),
                ask(request@),
            );
            assert(copies@ =~= Seq::empty());
        }
    }
    waiting(request, state, frames, close)
}

/// Goes on to duplicate a context for the first expression of a sequence, or starts that
/// expression if all is done.
fn clone_for_then<'a>(
    left: Expression<'a>,
    right: Expression<'a>,
    context: IoContext,
    copies: Vec<Handle>,
    frames: Vec<Frame<'a>>,
    close: Vec<Handle>,
) -> (step: TaskStep<'a>)
    requires
        copies@.len() <= 5,
    ensures
        step.well_formed(),
        forall|r: Seq<ReplyView>| #[trigger]
            step.trace(r) == unwind(
                frames@,
                semantics::then_cloned(
                    left@,
                    right@,
                    context@,
                    semantics::clone_context(context@, copies@, r),
                ),
            ).after(closes(close@)),
{
    if copies.len() < 5 {
        let request = Request::Duplicate(context.handle(copies.len()));
        let state = State::CloningForThen(left, right, context, copies);
        proof {
            assert forall|r: Seq<ReplyView>| #[trigger]
                state.trace(r).after(ask(request@)) == semantics::then_cloned(
                    left@,
                    right@,
                    context@,
                    semantics::clone_context(context@, copies@, r),
                ) by {
                lemma_then_cloned_after(
                    left@,
                    right@,
                    context@,
                    semantics::handle_cloned(context@, copies@, r),
                    ask(request@),
                );
            }
        }
        waiting(request, state, frames, close)
    } else {
        let copy = context.with_handles(&copies);
        let mut frames = frames;
        let ghost outer = frames@;
        frames.push(Frame::Then(right, context));
        proof {
            assert(frames@.drop_last() =~= outer);
            assert forall|r: Seq<ReplyView>|
                unwind(frames@, #[trigger] semantics::exec(left@, copy@, r)) == unwind(
                    outer,
                    semantics::then_cloned(
                        left@,
                        right@,
                        context@,
                        semantics::clone_context(context@, copies@, r),
                    ),
                ) by {
                let whole = semantics::then_cloned(
                    left@,
                    right@,
                    context@,
                    semantics::clone_context(context@, copies@, r),
                );
                assert(whole =~= semantics::then_left(
                    right@,
                    context@,
                    semantics::exec(left@, copy@, r),
                ));
            }
        }
        evaluate(&left, copy, frames, close)
    }
}

/// Goes on to duplicate a context for the left side of a pipe, or starts both sides if all is
/// done.
fn clone_for_pipe<'a>(
    left: Expression<'a>,
    right: Expression<'a>,
    context: IoContext,
    read: Handle,
    write: Handle,
    copies: Vec<Handle>,
    frames: Vec<Frame<'a>>,
    close: Vec<Handle>,
) -> (step: TaskStep<'a>)
    requires
        copies@.len() <= 5,
    ensures
        step.well_formed(),
        forall|r: Seq<ReplyView>| #[trigger]
            step.trace(r) == unwind(
                frames@,
                semantics::pipe_cloned(
                    left@,
                    right@,
                    context@,
                    read,
                    write,
                    semantics::clone_context(context@, copies@, r),
                ),
            ).after(closes(close@)),
{
    if copies.len() < 5 {
        let request = Request::Duplicate(context.handle(copies.len()));
        let state = State::CloningForPipe(left, right, context, read, write, copies);
        proof {
            assert forall|r: Seq<ReplyView>| #[trigger]
                state.trace(r).after(ask(request@)) == semantics::pipe_cloned(
                    left@,
                    right@,
                    context@,
                    read,
                    write,
                    semantics::clone_context(context@, copies@, r),
                ) by {
                lemma_pipe_cloned_after(
                    left@,
                    right@,
                    context@,
                    read,
                    write,
                    semantics::handle_cloned(context@, copies@, r),
                    ask(request@),
                );
            }
        }
        waiting(request, state, frames, close)
    } else {
        let copy = context.with_handles(&copies);
        let ghost dropped = seq![copy@.stdout, context@.stdin];
        let mut all = close;
        all.push(copy.stdout);
        all.push(context.stdin);
        let request = Request::Fork(
            Job { expression: left, context: IoContext { stdout: write, ..copy } },
            Job { expression: right, context: IoContext { stdin: read, ..context } },
        );
        proof {
            assert(closes(all@) =~= closes(close@) + closes(dropped));
            assert forall|r: Seq<ReplyView>|
                unwind(frames@, #[trigger] State::Forked.trace(r).after(ask(request@))).after(
                    closes(all@),
                ) == unwind(
                    frames@,
                    semantics::pipe_cloned(
                        left@,
                        right@,
                        context@,
                        read,
                        write,
                        semantics::clone_context(context@, copies@, r),
                    ),
                ).after(closes(close@)) by {
                let forked = State::Forked.trace(r).after(ask(request@));
                let whole = semantics::pipe_cloned(
                    left@,
                    right@,
                    context@,
                    read,
                    write,
                    semantics::clone_context(context@, copies@, r),
                );
                assert(whole =~= forked.after(closes(dropped)));
                lemma_unwind_after(frames@, forked, closes(dropped));
                lemma_after_after(unwind(frames@, forked), closes(close@), closes(dropped));
            }
        }
        waiting(request, State::Forked, frames, all)
    }
}

/// Goes on with whatever is to follow an expression that has ended.
fn finish<'a>(exit: Exit, frames: Vec<Frame<'a>>, close: Vec<Handle>) -> (step: TaskStep<'a>)
    ensures
        step.well_formed(),
        forall|r: Seq<ReplyView>| #[trigger]
            step.trace(r) == unwind(frames@, Trace::done(exit, r)).after(closes(close@)),
    decreases frames@.len(),
{
    let ghost all_frames = frames@;
    let mut frames = frames;
    match frames.pop() {
        None => Step { close, next: Next::Done(exit) },
        Some(frame) => {
            proof {
                assert(frames@ =~= all_frames.drop_last());
                assert(frame == all_frames.last());
            }
            match frame {
                Frame::Unchecked => {
                    let exit = match exit {
                        Ok(_) => Ok(0),
                        Err(e) => Err(e),
                    };
                    finish(exit, frames, close)
                },
                Frame::Writer(writer) => {
                    let request = Request::JoinWriter(writer);
                    let state = State::JoiningWriter(exit);
                    proof {
                        assert forall|r: Seq<ReplyView>| #[trigger]
                            state.trace(r).after(ask(request@)) == semantics::fed(
                                writer,
                                Trace::done(exit, r),
                            ) by {
                            assert(state.trace(r).after(ask(request@)) =~= semantics::fed(
                                writer,
                                Trace::done(exit, r),
                            ));
                        }
                    }
                    waiting(request, state, frames, close)
                },
                Frame::Then(right, context) => {
                    let go_on = match &exit {
                        Ok(status) => *status == 0,
                        Err(_) => false,
                    };
                    if go_on {
                        proof {
                            assert forall|r: Seq<ReplyView>|
                                #[trigger] semantics::exec(right@, context@, r)
                                    == semantics::then_left(
                                    right@,
                                    context@,
                                    Trace::done(exit, r),
                                ) by {
                                assert(semantics::exec(right@, context@, r)
                                    =~= semantics::then_left(
                                    right@,
                                    context@,
                                    Trace::done(exit, r),
                                ));
                            }
                        }
                        evaluate(&right, context, frames, close)
                    } else {
                        let all = context.release(close);
                        proof {
                            assert(closes(all@) =~= closes(close@) + closes(context@.handles()));
                            assert forall|r: Seq<ReplyView>|
                                unwind(frames@, #[trigger] Trace::done(exit, r)).after(closes(all@))
                                    == unwind(
                                    frames@,
                                    semantics::then_left(
                                        right@,
                                        context@,
                                        Trace::done(exit, r),
                                    ),
                                ).after(closes(close@)) by {
                                let ended = Trace::done(exit, r);
                                let kept = closes(context@.handles());
                                assert(semantics::then_left(right@, context@, ended)
                                    =~= ended.after(kept));
                                lemma_unwind_after(frames@, ended, kept);
                                lemma_after_after(unwind(frames@, ended), closes(close@), kept);
                            }
                        }
                        finish(exit, frames, all)
                    }
                },
            }
        },
    }
}

/// Ends an expression that could not get what it needs: its context is closed.
fn give_up<'a>(
    error: std::io::Error,
    context: IoContext,
    frames: Vec<Frame<'a>>,
    close: Vec<Handle>,
) -> (step: TaskStep<'a>)
    ensures
        step.well_formed(),
        forall|r: Seq<ReplyView>| #[trigger]
            step.trace(r) == unwind(
                frames@,
                Trace::done(Err(error), r).after(closes(close@) + closes(context@.handles())),
            ),
{
    let exit: Exit = Err(error);
    let all = context.release(close);
    proof {
        assert(closes(all@) =~= closes(close@) + closes(context@.handles()));
        assert forall|r: Seq<ReplyView>|
            unwind(frames@, #[trigger] Trace::done(exit, r)).after(closes(all@)) == unwind(
                frames@,
                Trace::done(exit, r).after(closes(all@)),
            ) by {
            lemma_unwind_after(frames@, Trace::done(exit, r), closes(all@));
        }
    }
    finish(exit, frames, all)
}

/// The step that starts an expression after one handle has been replaced.
fn redirected<'a>(
    expression: &Expression<'a>,
    context: IoContext,
    replaced: Handle,
    frames: Vec<Frame<'a>>,
) -> (step: TaskStep<'a>)
    ensures
        step.well_formed(),
        forall|r: Seq<ReplyView>| #[trigger]
            step.trace(r) == unwind(
                frames@,
                semantics::exec(expression@, context@, r).after(closes(seq![replaced])),
            ),
{
    let mut close: Vec<Handle> = Vec::new();
    close.push(replaced);
    proof {
        assert(close@ =~= seq![replaced]);
        assert forall|r: Seq<ReplyView>|
            unwind(frames@, #[trigger] semantics::exec(expression@, context@, r)).after(
                closes(close@),
            ) == unwind(
                frames@,
                semantics::exec(expression@, context@, r).after(closes(seq![replaced])),
            ) by {
            lemma_unwind_after(
                frames@,
                semantics::exec(expression@, context@, r),
                closes(seq![replaced]),
            );
        }
    }
    evaluate(expression, context, frames, close)
}

impl<'a> Job<'a> {
    /// Starts the expression in its context.
    pub fn start(self) -> (step: TaskStep<'a>)
        ensures
            step.well_formed(),
            forall|r: Seq<ReplyView>| #[trigger]
                step.trace(r) == semantics::exec(self.expression@, self.context@, r),
    {
        let frames: Vec<Frame<'a>> = Vec::new();
        let close: Vec<Handle> = Vec::new();
        proof {
            lemma_nothing_closed(close);
        }
        evaluate(&self.expression, self.context, frames, close)
    }
}

/// Closing no handles adds nothing to a trace.
proof fn lemma_nothing_closed(none: Vec<Handle>)
    requires
        none@.len() == 0,
    ensures
        forall|t: Trace<Exit>| #[trigger] t.after(closes(none@)) == t,
{
    assert forall|t: Trace<Exit>| #[trigger] t.after(closes(none@)) == t by {
        assert(t.after(closes(none@)) =~= t);
    }
}

/// Goes on after a command has exited.
fn after_launch<'a>(
    context: IoContext,
    exit: Exit,
    frames: Vec<Frame<'a>>,
) -> (step: TaskStep<'a>)
    ensures
        step.well_formed(),
        forall|r: Seq<ReplyView>| #[trigger]
            step.trace(r) == unwind(
                frames@,
                semantics::exited(context@, seq![ReplyView::Exited(exit)] + r),
            ),
{
    let none: Vec<Handle> = Vec::new();
    proof {
        lemma_answered(ReplyView::Exited(exit));
        lemma_nothing_closed(none);
    }
    let close = context.release(none);
    proof {
        assert(close@ =~= context@.handles());
        assert forall|r: Seq<ReplyView>|
            unwind(frames@, #[trigger] Trace::done(exit, r)).after(closes(close@)) == unwind(
                frames@,
                semantics::exited(context@, seq![ReplyView::Exited(exit)] + r),
            ) by {
            lemma_unwind_after(frames@, Trace::done(exit, r), closes(close@));
        }
    }
    finish(exit, frames, close)
}

/// Goes on after a new standard stream was asked for.
fn after_redirect<'a>(
    stream: Stream,
    inner: Expression<'a>,
    context: IoContext,
    opened: Result<Handle, std::io::Error>,
    frames: Vec<Frame<'a>>,
) -> (step: TaskStep<'a>)
    ensures
        step.well_formed(),
        forall|r: Seq<ReplyView>| #[trigger]
            step.trace(r) == unwind(
                frames@,
                semantics::redirected(
                    stream,
                    inner@,
                    context@,
                    seq![ReplyView::Opened(opened)] + r,
                ),
            ),
{
    let none: Vec<Handle> = Vec::new();
    proof {
        lemma_answered(ReplyView::Opened(opened));
        lemma_nothing_closed(none);
    }
    match opened {
        Ok(handle) => {
            let replaced = context.stream(stream);
            redirected(&inner, context.with_stream(stream, handle), replaced, frames)
        },
        Err(e) => give_up(e, context, frames, none),
    }
}

/// Goes on after a pipe for input was opened.
fn after_input_pipe<'a>(
    inner: Expression<'a>,
    context: IoContext,
    input: Vec<u8>,
    read: Handle,
    write: Handle,
    frames: Vec<Frame<'a>>,
) -> (step: TaskStep<'a>)
    ensures
        step.well_formed(),
        forall|r: Seq<ReplyView>| #[trigger]
            step.trace(r) == unwind(
                frames@,
                semantics::input_piped(
                    inner@,
                    context@,
                    input@,
                    seq![ReplyView::Pipe(read, write)] + r,
                ),
            ),
{
    let none: Vec<Handle> = Vec::new();
    proof {
        lemma_answered(ReplyView::Pipe(read, write));
        lemma_nothing_closed(none);
    }
    waiting(
        Request::StartWriter(write, input),
        State::StartingWriter(inner, context, read),
        frames,
        none,
    )
}

/// Goes on after a writer was started.
fn after_writer<'a>(
    inner: Expression<'a>,
    context: IoContext,
    read: Handle,
    writer: Worker,
    frames: Vec<Frame<'a>>,
) -> (step: TaskStep<'a>)
    ensures
        step.well_formed(),
        forall|r: Seq<ReplyView>| #[trigger]
            step.trace(r) == unwind(
                frames@,
                semantics::writer_started(
                    inner@,
                    context@,
                    read,
                    seq![ReplyView::Started(writer)] + r,
                ),
            ),
{
    let none: Vec<Handle> = Vec::new();
    proof {
        lemma_answered(ReplyView::Started(writer));
        lemma_nothing_closed(none);
    }
    let ghost outer = frames@;
    let mut frames = frames;
    frames.push(Frame::Writer(writer));
    proof {
        assert(frames@.drop_last() =~= outer);
        assert forall|t: Trace<Exit>, ops: Seq<Op>|
            unwind(frames@, #[trigger] t.after(ops)) == unwind(
                outer,
                semantics::fed(writer, t).after(ops),
            ) by {
            lemma_resume_after(frames@.last(), t, ops);
        }
    }
    let replaced = context.stdin;
    redirected(&inner, IoContext { stdin: read, ..context }, replaced, frames)
}

/// Goes on after a pipe between two expressions was opened.
fn after_pipe<'a>(
    left: Expression<'a>,
    right: Expression<'a>,
    context: IoContext,
    read: Handle,
    write: Handle,
    frames: Vec<Frame<'a>>,
) -> (step: TaskStep<'a>)
    ensures
        step.well_formed(),
        forall|r: Seq<ReplyView>| #[trigger]
            step.trace(r) == unwind(
                frames@,
                semantics::pipe_opened(
                    left@,
                    right@,
                    context@,
                    seq![ReplyView::Pipe(read, write)] + r,
                ),
            ),
{
    let none: Vec<Handle> = Vec::new();
    proof {
        lemma_answered(ReplyView::Pipe(read, write));
        lemma_nothing_closed(none);
    }
    let copies: Vec<Handle> = Vec::new();
    proof {
        assert(copies@ =~= Seq::empty());
    }
    clone_for_pipe(left, right, context, read, write, copies, frames, none)
}

/// Goes on after a handle was duplicated for the left side of a pipe.
fn after_pipe_copy<'a>(
    left: Expression<'a>,
    right: Expression<'a>,
    context: IoContext,
    read: Handle,
    write: Handle,
    copies: Vec<Handle>,
    opened: Result<Handle, std::io::Error>,
    frames: Vec<Frame<'a>>,
) -> (step: TaskStep<'a>)
    requires
        copies@.len() < 5,
    ensures
        step.well_formed(),
        forall|r: Seq<ReplyView>| #[trigger]
            step.trace(r) == unwind(
                frames@,
                semantics::pipe_cloned(
                    left@,
                    right@,
                    context@,
                    read,
                    write,
                    semantics::handle_cloned(
                        context@,
                        copies@,
                        seq![ReplyView::Opened(opened)] + r,
                    ),
                ),
            ),
{
    let none: Vec<Handle> = Vec::new();
    proof {
        lemma_answered(ReplyView::Opened(opened));
        lemma_nothing_closed(none);
    }
    let mut copies = copies;
    match opened {
        Ok(copy) => {
            copies.push(copy);
            clone_for_pipe(left, right, context, read, write, copies, frames, none)
        },
        Err(e) => {
            let ghost made = copies@;
            let mut close = reversed(copies);
            let ghost before = close@;
            close.push(write);
            close.push(read);
            proof {
                let kept = closes(context@.handles());
                let ends = closes(seq![write, read]);
                assert(closes(close@) + kept =~= closes(before) + ends + kept);
                assert forall|r: Seq<ReplyView>|
                    #[trigger] Trace::<Exit>::done(Err(e), r).after(closes(close@) + kept)
                        == semantics::pipe_cloned(
                        left@,
                        right@,
                        context@,
                        read,
                        write,
                        semantics::handle_cloned(
                            context@,
                            made,
                            seq![ReplyView::Opened(opened)] + r,
                        ),
                    ) by {
                    assert(closes(before) + Seq::<Op>::empty() =~= closes(before));
                }
            }
            give_up(e, context, frames, close)
        },
    }
}

/// Goes on after a handle was duplicated for the first expression of a sequence.
fn after_then_copy<'a>(
    left: Expression<'a>,
    right: Expression<'a>,
    context: IoContext,
    copies: Vec<Handle>,
    opened: Result<Handle, std::io::Error>,
    frames: Vec<Frame<'a>>,
) -> (step: TaskStep<'a>)
    requires
        copies@.len() < 5,
    ensures
        step.well_formed(),
        forall|r: Seq<ReplyView>| #[trigger]
            step.trace(r) == unwind(
                frames@,
                semantics::then_cloned(
                    left@,
                    right@,
                    context@,
                    semantics::handle_cloned(
                        context@,
                        copies@,
                        seq![ReplyView::Opened(opened)] + r,
                    ),
                ),
            ),
{
    let none: Vec<Handle> = Vec::new();
    proof {
        lemma_answered(ReplyView::Opened(opened));
        lemma_nothing_closed(none);
    }
    let mut copies = copies;
    match opened {
        Ok(copy) => {
            copies.push(copy);
            clone_for_then(left, right, context, copies, frames, none)
        },
        Err(e) => {
            let close = reversed(copies);
            proof {
                assert(closes(close@) + Seq::<Op>::empty() =~= closes(close@));
            }
            give_up(e, context, frames, close)
        },
    }
}

/// Goes on after both sides of a pipe have ended.
fn after_fork<'a>(
    left: Exit,
    right: Exit,
    frames: Vec<Frame<'a>>,
) -> (step: TaskStep<'a>)
    ensures
        step.well_formed(),
        forall|r: Seq<ReplyView>| #[trigger]
            step.trace(r) == unwind(
                frames@,
                semantics::forked(seq![ReplyView::Forked(left, right)] + r),
            ),
{
    let none: Vec<Handle> = Vec::new();
    proof {
        lemma_answered(ReplyView::Forked(left, right));
        lemma_nothing_closed(none);
    }
    finish(pipe_exit(left, right), frames, none)
}

/// Goes on after a writer was waited for.
fn after_join<'a>(
    exit: Exit,
    written: Result<(), std::io::Error>,
    frames: Vec<Frame<'a>>,
) -> (step: TaskStep<'a>)
    ensures
        step.well_formed(),
        forall|r: Seq<ReplyView>| #[trigger]
            step.trace(r) == unwind(
                frames@,
                semantics::writer_joined(exit, seq![ReplyView::Written(written)] + r),
            ),
{
    let none: Vec<Handle> = Vec::new();
    proof {
        lemma_answered(ReplyView::Written(written));
        lemma_nothing_closed(none);
    }
    finish(written_exit(exit, written), frames, none)
}

impl<'a> Task<'a> {
    /// Hands the reply to its request to the task.
    pub fn advance(self, reply: Reply) -> (step: TaskStep<'a>)
        requires
            self.well_formed(),
            self.awaits(reply@),
        ensures
            step.well_formed(),
            forall|r: Seq<ReplyView>| #[trigger]
                step.trace(r) == self.trace(seq![reply@] + r),
    {
        let frames = self.frames;
        match (self.state, reply) {
            (State::Launched(context), Reply::Exited(exit)) => after_launch(context, exit, frames),
            (State::Redirecting(stream, inner, context), Reply::Opened(opened)) => after_redirect(
                stream,
                inner,
                context,
                opened,
                frames,
            ),
            (
                State::PipingInput(inner, context, input),
                Reply::Pipe(read, write),
            ) => after_input_pipe(inner, context, input, read, write, frames),
            (State::StartingWriter(inner, context, read), Reply::Started(writer)) => after_writer(
                inner,
                context,
                read,
                writer,
                frames,
            ),
            (State::OpeningPipe(left, right, context), Reply::Pipe(read, write)) => after_pipe(
                left,
                right,
                context,
                read,
                write,
                frames,
            ),
            (
                State::CloningForPipe(left, right, context, read, write, copies),
                Reply::Opened(opened),
            ) => after_pipe_copy(left, right, context, read, write, copies, opened, frames),
            (
                State::CloningForThen(left, right, context, copies),
                Reply::Opened(opened),
            ) => after_then_copy(left, right, context, copies, opened, frames),
            (State::Forked, Reply::Forked(left, right)) => after_fork(left, right, frames),
            (State::JoiningWriter(exit), Reply::Written(written)) => after_join(
                exit,
                written,
                frames,
            ),
            (_, _) => vstd::pervasive::unreached(),
        }
    }
}

/// How a pipe ended, given how its sides ended.
pub fn pipe_exit(left: Exit, right: Exit) -> (exit: Exit)
    ensures
        exit == semantics::pipe_exit(left, right),
        right is Err ==> exit == right,
        right is Ok && left is Err ==> exit == left,
        right == Ok::<Status, std::io::Error>(0) ==> exit == left,
        left is Ok && right is Ok && right->Ok_0 != 0 ==> exit == right,
{
    match right {
        Err(e) => Err(e),
        Ok(right_status) => match left {
            Err(e) => Err(e),
            Ok(left_status) => if right_status != 0 {
                Ok(right_status)
            } else {
                Ok(left_status)
            },
        },
    }
}

/// How an expression ended whose writer failed, given what kind of error the writer met.
pub fn writer_failed(status: Status, error: std::io::Error, fault: Fault) -> (exit: Exit)
    ensures
        exit == semantics::writer_failed(status, error, fault),
        fault == Fault::BrokenPipe ==> exit == Ok::<Status, std::io::Error>(status),
        fault == Fault::Other ==> exit == Err::<Status, std::io::Error>(error),
{
    match fault {
        Fault::BrokenPipe => Ok(status),
        Fault::Other => Err(error),
    }
}

/// How an expression with a writer ended, given how the expression itself and the writer ended.
pub fn written_exit(exit: Exit, written: Result<(), std::io::Error>) -> (result: Exit)
    ensures
        result == semantics::written_exit(exit, written),
        exit is Err || written is Ok ==> result == exit,
        exit is Ok && written is Err && fault_of(written->Err_0) == Fault::BrokenPipe ==> result
            == exit,
        exit is Ok && written is Err && fault_of(written->Err_0) != Fault::BrokenPipe ==> result
            == Err::<Status, std::io::Error>(written->Err_0),
{
    match exit {
        Err(e) => Err(e),
        Ok(status) => match written {
            Ok(_) => Ok(status),
            Err(e) => {
                let kind = fault(&e);
                writer_failed(status, e, kind)
            },
        },
    }
}

} // verus!
