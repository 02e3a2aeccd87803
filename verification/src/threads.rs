//! Threads are waited for.
//!
//! [`crew`] keeps track of the threads that are running over a list of steps and the replies to its
//! requests.

use vstd::multiset::Multiset;
use vstd::prelude::*;

use crate::env;
use crate::model::{
    answers, ask, closes, tail, ContextView, ErrorView, Expr, Op, ReplyView, RequestView, Setting,
    Sink, Source, Trace,
};
use crate::os::{Exit, Handle, Status, Stream, Worker};
use crate::progress::{asks, exec_comes_to_an_end, lemma_clone_progress};
use crate::semantics;
use crate::semantics::{exec, read, run, Captures, RunResult};

verus! {

/// Whether a request may be made while exactly these threads are running: only a running thread
/// can be waited for.
pub open spec fn sensible(request: RequestView, running: Multiset<Worker>) -> bool {
    match request {
        RequestView::JoinWriter(writer) => running.count(writer) > 0,
        RequestView::JoinReader(reader) => running.count(reader) > 0,
        _ => true,
    }
}

/// The threads that are running once a request has been answered.
pub open spec fn relieved(
    request: RequestView,
    reply: ReplyView,
    running: Multiset<Worker>,
) -> Multiset<Worker> {
    match request {
        RequestView::StartWriter(_, _) | RequestView::StartReader(_) => match reply {
            ReplyView::Started(worker) => running.insert(worker),
            _ => running,
        },
        RequestView::JoinWriter(writer) => running.remove(writer),
        RequestView::JoinReader(reader) => running.remove(reader),
        _ => running,
    }
}

/// The threads that are running after some steps. There is no result if a thread is waited for that
/// is not running.
pub open spec fn crew(
    ops: Seq<Op>,
    r: Seq<ReplyView>,
    running: Multiset<Worker>,
) -> Option<Multiset<Worker>>
    decreases ops.len(),
{
    if ops.len() == 0 {
        Some(running)
    } else {
        match ops[0] {
            Op::Close(_) => crew(ops.drop_first(), r, running),
            Op::Ask(request) => if !sensible(request, running) {
                None
            } else if r.len() == 0 {
                crew(ops.drop_first(), r, running)
            } else {
                crew(ops.drop_first(), tail(r), relieved(request, r[0], running))
            },
        }
    }
}

/// Only running threads are waited for, and when the computation is over exactly the threads in
/// `left` are running.
pub open spec fn attended<R>(
    t: Trace<R>,
    r: Seq<ReplyView>,
    running: Multiset<Worker>,
    left: Multiset<Worker>,
) -> bool {
    &&& crew(t.ops, r, running) is Some
    &&& t.end is Some ==> crew(t.ops, r, running) == Some(left)
}

proof fn lemma_crew_closes(
    handles: Seq<Handle>,
    ops: Seq<Op>,
    r: Seq<ReplyView>,
    running: Multiset<Worker>,
)
    ensures
        crew(closes(handles) + ops, r, running) == crew(ops, r, running),
    decreases handles.len(),
{
    if handles.len() == 0 {
        assert(closes(handles) + ops =~= ops);
    } else {
        assert((closes(handles) + ops).drop_first() =~= closes(handles.drop_first()) + ops);
        lemma_crew_closes(handles.drop_first(), ops, r, running);
    }
}

proof fn lemma_crew_ask(
    request: RequestView,
    ops: Seq<Op>,
    r: Seq<ReplyView>,
    running: Multiset<Worker>,
)
    requires
        sensible(request, running),
    ensures
        crew(ask(request) + ops, r, running) == if r.len() == 0 {
            crew(ops, r, running)
        } else {
            crew(ops, tail(r), relieved(request, r[0], running))
        },
{
    assert((ask(request) + ops).drop_first() =~= ops);
}

/// Steps after steps that used one reply for each of their requests.
proof fn lemma_crew_concat(
    first: Seq<Op>,
    second: Seq<Op>,
    r: Seq<ReplyView>,
    running: Multiset<Worker>,
)
    requires
        asks(first) <= r.len(),
        crew(first, r, running) is Some,
    ensures
        crew(first + second, r, running) == crew(
            second,
            r.skip(asks(first) as int),
            crew(first, r, running)->0,
        ),
    decreases first.len(),
{
    if first.len() == 0 {
        assert(first + second =~= second);
        assert(r.skip(0) =~= r);
    } else {
        assert((first + second).drop_first() =~= first.drop_first() + second);
        match first[0] {
            Op::Close(_) => {
                lemma_crew_concat(first.drop_first(), second, r, running);
            },
            Op::Ask(request) => {
                let n = asks(first.drop_first()) as int;
                lemma_crew_concat(
                    first.drop_first(),
                    second,
                    tail(r),
                    relieved(request, r[0], running),
                );
                assert(tail(r).skip(n) =~= r.skip(n + 1));
            },
        }
    }
}

proof fn lemma_attended_closes<R>(
    t: Trace<R>,
    handles: Seq<Handle>,
    r: Seq<ReplyView>,
    running: Multiset<Worker>,
    left: Multiset<Worker>,
)
    requires
        attended(t, r, running, left),
    ensures
        attended(t.after(closes(handles)), r, running, left),
{
    lemma_crew_closes(handles, t.ops, r, running);
}

proof fn lemma_attended_done<R>(
    result: R,
    handles: Seq<Handle>,
    r: Seq<ReplyView>,
    running: Multiset<Worker>,
)
    ensures
        attended(Trace::done(result, r), r, running, running),
        attended(Trace::done(result, r).after(closes(handles)), r, running, running),
{
    lemma_attended_closes(Trace::done(result, r), handles, r, running, running);
}

/// A request, and a trace that goes on with the reply to it.
proof fn lemma_attended_ask<R>(
    t: Trace<R>,
    request: RequestView,
    r: Seq<ReplyView>,
    running: Multiset<Worker>,
    left: Multiset<Worker>,
)
    requires
        sensible(request, running),
        r.len() == 0 ==> t == Trace::<R>::stuck(),
        r.len() > 0 && !answers(request, r[0]) ==> t == Trace::<R>::stuck(),
        r.len() > 0 && answers(request, r[0]) ==> attended(
            t,
            tail(r),
            relieved(request, r[0], running),
            left,
        ),
    ensures
        attended(t.after(ask(request)), r, running, left),
{
    lemma_crew_ask(request, t.ops, r, running);
}

/// Two traces, one after the other.
proof fn lemma_attended_sequence<R, Q>(
    first: Trace<R>,
    second: Trace<Q>,
    r: Seq<ReplyView>,
    running: Multiset<Worker>,
    middle: Multiset<Worker>,
    left: Multiset<Worker>,
)
    requires
        first.end is Some,
        asks(first.ops) <= r.len(),
        first.rest == r.skip(asks(first.ops) as int),
        attended(first, r, running, middle),
        attended(second, first.rest, middle, left),
    ensures
        attended(second.after(first.ops), r, running, left),
{
    lemma_crew_concat(first.ops, second.ops, r, running);
}

proof fn lemma_clone_attended(
    c: ContextView,
    copies: Seq<Handle>,
    r: Seq<ReplyView>,
    running: Multiset<Worker>,
)
    requires
        copies.len() <= 5,
    ensures
        attended(semantics::clone_context(c, copies, r), r, running, running),
    decreases 5 - copies.len(),
{
    if copies.len() < 5 {
        let request = RequestView::Duplicate(c.handles()[copies.len() as int]);
        let t = semantics::handle_cloned(c, copies, r);
        if r.len() > 0 {
            match r[0] {
                ReplyView::Opened(Ok(copy)) => {
                    lemma_clone_attended(c, copies.push(copy), tail(r), running);
                },
                ReplyView::Opened(Err(e)) => {
                    lemma_attended_done::<Result<ContextView, std::io::Error>>(
                        Err(e),
                        copies.reverse(),
                        tail(r),
                        running,
                    );
                },
                _ => {},
            }
        }
        lemma_attended_ask(t, request, r, running, running);
    }
}

proof fn lemma_launch_attended(
    argv: Seq<Seq<u8>>,
    c: ContextView,
    r: Seq<ReplyView>,
    running: Multiset<Worker>,
)
    ensures
        attended(semantics::launch(argv, c, r), r, running, running),
{
    if r.len() > 0 {
        if let ReplyView::Exited(exit) = r[0] {
            lemma_attended_done(exit, c.handles(), tail(r), running);
        }
    }
    lemma_attended_ask(
        semantics::exited(c, r),
        RequestView::Launch(semantics::launch_of(argv, c)),
        r,
        running,
        running,
    );
}

/// A new standard stream is opened, and then the expression runs.
proof fn lemma_redirect_attended(
    stream: Stream,
    request: RequestView,
    inner: Expr,
    c: ContextView,
    r: Seq<ReplyView>,
    running: Multiset<Worker>,
)
    requires
        request is OpenRead || request is OpenWrite || request is Duplicate,
    ensures
        attended(
            semantics::redirected(stream, inner, c, r).after(ask(request)),
            r,
            running,
            running,
        ),
    decreases inner, 2nat,
{
    let t = semantics::redirected(stream, inner, c, r);
    if r.len() > 0 {
        match r[0] {
            ReplyView::Opened(Ok(handle)) => {
                let next = c.with_stream(stream, handle);
                lemma_exec_attended(inner, next, tail(r), running);
                lemma_attended_closes(
                    exec(inner, next, tail(r)),
                    seq![c.stream(stream)],
                    tail(r),
                    running,
                    running,
                );
            },
            ReplyView::Opened(Err(e)) => {
                lemma_attended_done::<Exit>(Err(e), c.handles(), tail(r), running);
            },
            _ => {},
        }
    }
    lemma_attended_ask(t, request, r, running, running);
}

/// Input is fed to an expression by a writer that is waited for.
proof fn lemma_input_attended(
    inner: Expr,
    c: ContextView,
    input: Seq<u8>,
    r: Seq<ReplyView>,
    running: Multiset<Worker>,
)
    ensures
        attended(
            semantics::input_piped(inner, c, input, r).after(ask(RequestView::OpenPipe)),
            r,
            running,
            running,
        ),
    decreases inner, 2nat,
{
    if r.len() > 0 {
        if let ReplyView::Pipe(read, write) = r[0] {
            let r1 = tail(r);
            let started = semantics::writer_started(inner, c, read, r1);
            if r1.len() > 0 {
                if let ReplyView::Started(writer) = r1[0] {
                    let r2 = tail(r1);
                    let more = running.insert(writer);
                    let next = ContextView { stdin: read, ..c };
                    let t = exec(inner, next, r2);
                    lemma_exec_attended(inner, next, r2, more);
                    exec_comes_to_an_end(inner, next, r2);
                    if let Some(exit) = t.end {
                        let join = RequestView::JoinWriter(writer);
                        let joined = semantics::writer_joined(exit, t.rest);
                        assert(more.remove(writer) =~= running);
                        if t.rest.len() > 0 {
                            if let ReplyView::Written(written) = t.rest[0] {
                                lemma_attended_done(
                                    semantics::written_exit(exit, written),
                                    Seq::empty(),
                                    tail(t.rest),
                                    running,
                                );
                            }
                        }
                        lemma_attended_ask(joined, join, t.rest, more, running);
                        lemma_attended_sequence(
                            t,
                            joined.after(ask(join)),
                            r2,
                            more,
                            more,
                            running,
                        );
                        assert(semantics::fed(writer, t) =~= joined.after(ask(join)).after(t.ops));
                    }
                    lemma_attended_closes(
                        semantics::fed(writer, t),
                        seq![c.stdin],
                        r2,
                        more,
                        running,
                    );
                }
            }
            lemma_attended_ask(
                started,
                RequestView::StartWriter(write, input),
                r1,
                running,
                running,
            );
        }
    }
    lemma_attended_ask(
        semantics::input_piped(inner, c, input, r),
        RequestView::OpenPipe,
        r,
        running,
        running,
    );
}

/// Both sides of a pipe are started.
proof fn lemma_pipe_attended(
    left: Expr,
    right: Expr,
    c: ContextView,
    r: Seq<ReplyView>,
    running: Multiset<Worker>,
)
    ensures
        attended(
            semantics::pipe_opened(left, right, c, r).after(ask(RequestView::OpenPipe)),
            r,
            running,
            running,
        ),
{
    let opened = semantics::pipe_opened(left, right, c, r);
    if r.len() > 0 {
        if let ReplyView::Pipe(read, write) = r[0] {
            let t = semantics::clone_context(c, Seq::empty(), tail(r));
            lemma_clone_attended(c, Seq::empty(), tail(r), running);
            lemma_clone_progress(c, Seq::empty(), tail(r));
            match t.end {
                None => {},
                Some(Err(e)) => {
                    let over = Trace::<Exit>::done(Err(e), t.rest).after(closes(c.handles()));
                    let closed = over.after(closes(seq![write, read]));
                    lemma_attended_done::<Exit>(Err(e), c.handles(), t.rest, running);
                    lemma_attended_closes(over, seq![write, read], t.rest, running, running);
                    lemma_attended_sequence(t, closed, tail(r), running, running, running);
                    assert(opened =~= closed.after(t.ops));
                },
                Some(Ok(copy)) => {
                    let request = RequestView::Fork(
                        left,
                        ContextView { stdout: write, ..copy },
                        right,
                        ContextView { stdin: read, ..c },
                    );
                    let dropped = seq![copy.stdout, c.stdin];
                    let forked = semantics::forked(t.rest);
                    let asked = forked.after(ask(request));
                    if t.rest.len() > 0 {
                        if let ReplyView::Forked(l, r) = t.rest[0] {
                            lemma_attended_done(
                                semantics::pipe_exit(l, r),
                                Seq::empty(),
                                tail(t.rest),
                                running,
                            );
                        }
                    }
                    lemma_attended_ask(forked, request, t.rest, running, running);
                    lemma_attended_closes(asked, dropped, t.rest, running, running);
                    lemma_attended_sequence(
                        t,
                        asked.after(closes(dropped)),
                        tail(r),
                        running,
                        running,
                        running,
                    );
                    assert(opened =~= asked.after(closes(dropped)).after(t.ops));
                },
            }
        }
    }
    lemma_attended_ask(opened, RequestView::OpenPipe, r, running, running);
}

/// A sequence runs its first expression, and then perhaps its second.
proof fn lemma_then_attended(
    left: Expr,
    right: Expr,
    c: ContextView,
    r: Seq<ReplyView>,
    running: Multiset<Worker>,
)
    ensures
        attended(
            exec(Expr::Then(Box::new(left), Box::new(right)), c, r),
            r,
            running,
            running,
        ),
    decreases Expr::Then(Box::new(left), Box::new(right)), 0nat,
{
    let e = Expr::Then(Box::new(left), Box::new(right));
    assert(decreases_to!(e => e->Then_0));
    assert(decreases_to!(e => e->Then_1));
    let t = semantics::clone_context(c, Seq::empty(), r);
    let whole = semantics::then_cloned(left, right, c, t);
    lemma_clone_attended(c, Seq::empty(), r, running);
    lemma_clone_progress(c, Seq::empty(), r);
    match t.end {
        None => {},
        Some(Err(x)) => {
            let over = Trace::<Exit>::done(Err(x), t.rest).after(closes(c.handles()));
            lemma_attended_done::<Exit>(Err(x), c.handles(), t.rest, running);
            lemma_attended_sequence(t, over, r, running, running, running);
            assert(whole =~= over.after(t.ops));
        },
        Some(Ok(copy)) => {
            let first = exec(left, copy, t.rest);
            let second = semantics::then_left(right, c, first);
            lemma_exec_attended(left, copy, t.rest, running);
            exec_comes_to_an_end(left, copy, t.rest);
            match first.end {
                None => {},
                Some(Ok(0)) => {
                    let rest = exec(right, c, first.rest);
                    lemma_exec_attended(right, c, first.rest, running);
                    lemma_attended_sequence(first, rest, t.rest, running, running, running);
                },
                Some(exit) => {
                    let over = Trace::done(exit, first.rest).after(closes(c.handles()));
                    lemma_attended_done(exit, c.handles(), first.rest, running);
                    lemma_attended_sequence(first, over, t.rest, running, running, running);
                    assert(second =~= over.after(first.ops));
                },
            }
            lemma_attended_sequence(t, second, r, running, running, running);
        },
    }
}

proof fn lemma_exec_attended(
    e: Expr,
    c: ContextView,
    r: Seq<ReplyView>,
    running: Multiset<Worker>,
)
    ensures
        attended(exec(e, c, r), r, running, running),
    decreases e, 1nat,
{
    match e {
        Expr::Argv(argv) => {
            lemma_launch_attended(argv, c, r, running);
        },
        Expr::Sh(command) => {
            lemma_launch_attended(semantics::shell_argv(command), c, r, running);
        },
        Expr::Pipe(left, right) => {
            lemma_pipe_attended(*left, *right, c, r, running);
        },
        Expr::Then(left, right) => {
            lemma_then_attended(*left, *right, c, r, running);
        },
        Expr::Io(setting, inner) => {
            match setting {
                Setting::Stdin(Source::Bytes(input)) => {
                    lemma_input_attended(*inner, c, input, r, running);
                },
                Setting::Stdin(source) => {
                    let request = semantics::input_request(source);
                    lemma_redirect_attended(Stream::Stdin, request, *inner, c, r, running);
                },
                Setting::Stdout(sink) => {
                    let request = semantics::output_request(
                        sink,
                        c.stdout,
                        c.stderr,
                        c.stdout_capture,
                    );
                    lemma_redirect_attended(Stream::Stdout, request, *inner, c, r, running);
                },
                Setting::Stderr(sink) => {
                    let request = semantics::output_request(
                        sink,
                        c.stdout,
                        c.stderr,
                        c.stderr_capture,
                    );
                    lemma_redirect_attended(Stream::Stderr, request, *inner, c, r, running);
                },
                Setting::Dir(dir) => {
                    lemma_exec_attended(*inner, ContextView { dir, ..c }, r, running);
                },
                Setting::Env(name, value) => {
                    let env = c.env.insert(name, value);
                    lemma_exec_attended(*inner, ContextView { env, ..c }, r, running);
                },
                Setting::FullEnv(env) => {
                    lemma_exec_attended(*inner, ContextView { env, ..c }, r, running);
                },
                Setting::Unchecked => {
                    lemma_exec_attended(*inner, c, r, running);
                },
            }
        },
    }
}

/// Whatever an expression comes to, every thread that was started for it has been waited for, once.
pub proof fn exec_waits_for_its_threads(e: Expr, c: ContextView, r: Seq<ReplyView>)
    ensures
        attended(exec(e, c, r), r, Multiset::empty(), Multiset::empty()),
{
    lemma_exec_attended(e, c, r, Multiset::empty());
}

/// Only running threads are waited for, and none is running when the result is there, unless the
/// result is an error of the operating system: then `left` may still be.
pub open spec fn concluded<T>(
    t: Trace<Result<T, ErrorView>>,
    r: Seq<ReplyView>,
    running: Multiset<Worker>,
    left: Multiset<Worker>,
) -> bool {
    let after = crew(t.ops, r, running);
    &&& after is Some
    &&& match t.end {
        None => true,
        Some(Err(ErrorView::Io(_))) => after->0.subset_of(left),
        Some(_) => after->0 == Multiset::<Worker>::empty(),
    }
}

/// A request, and a run that goes on with the reply to it.
proof fn lemma_concluded_ask(
    t: Trace<RunResult>,
    request: RequestView,
    r: Seq<ReplyView>,
    running: Multiset<Worker>,
    left: Multiset<Worker>,
)
    requires
        sensible(request, running),
        r.len() == 0 ==> t == Trace::<RunResult>::stuck(),
        r.len() > 0 && !answers(request, r[0]) ==> t == Trace::<RunResult>::stuck(),
        r.len() > 0 && answers(request, r[0]) ==> concluded(
            t,
            tail(r),
            relieved(request, r[0], running),
            left,
        ),
    ensures
        concluded(t.after(ask(request)), r, running, left),
{
    lemma_crew_ask(request, t.ops, r, running);
}

/// The readers of a run.
pub open spec fn readers(stdout: Worker, stderr: Worker) -> Multiset<Worker> {
    Multiset::<Worker>::empty().insert(stdout).insert(stderr)
}

/// The readers are waited for.
proof fn lemma_collect_concluded(
    status: Status,
    stdout: Worker,
    stderr: Worker,
    r: Seq<ReplyView>,
)
    ensures
        concluded(
            semantics::stdout_collected(status, stderr, r).after(
                ask(RequestView::JoinReader(stdout)),
            ),
            r,
            readers(stdout, stderr),
            readers(stdout, stderr),
        ),
{
    let both = readers(stdout, stderr);
    let one = Multiset::<Worker>::empty().insert(stderr);
    let none = Multiset::<Worker>::empty();
    assert(both.remove(stdout) =~= one);
    assert(one.remove(stderr) =~= none);
    if r.len() > 0 {
        if let ReplyView::Collected(Ok(bytes)) = r[0] {
            let t = semantics::stderr_collected(status, bytes, tail(r));
            lemma_concluded_ask(t, RequestView::JoinReader(stderr), tail(r), one, both);
        }
    }
    lemma_concluded_ask(
        semantics::stdout_collected(status, stderr, r),
        RequestView::JoinReader(stdout),
        r,
        both,
        both,
    );
}

/// The expression runs while the readers are running.
proof fn lemma_executed_concluded(
    e: Expr,
    c: ContextView,
    stdout: Worker,
    stderr: Worker,
    r: Seq<ReplyView>,
)
    ensures
        concluded(
            semantics::executed(stdout, stderr, exec(e, c, r)),
            r,
            readers(stdout, stderr),
            readers(stdout, stderr),
        ),
{
    let both = readers(stdout, stderr);
    let t = exec(e, c, r);
    lemma_exec_attended(e, c, r, both);
    exec_comes_to_an_end(e, c, r);
    match t.end {
        None => {},
        Some(Err(x)) => {
            assert(t.ops + Seq::<Op>::empty() =~= t.ops);
        },
        Some(Ok(status)) => {
            let join = ask(RequestView::JoinReader(stdout));
            let over = semantics::stdout_collected(status, stderr, t.rest).after(join);
            lemma_collect_concluded(status, stdout, stderr, t.rest);
            lemma_crew_concat(t.ops, over.ops, r, both);
            assert(semantics::executed(stdout, stderr, t) =~= over.after(t.ops));
        },
    }
}

/// The context is put together while the readers are running.
proof fn lemma_inherit_concluded(
    e: Expr,
    captures: Captures,
    env: Map<Seq<u8>, Seq<u8>>,
    streams: Seq<Handle>,
    r: Seq<ReplyView>,
)
    requires
        streams.len() <= 3,
    ensures
        concluded(
            semantics::inheriting(e, captures, env, streams, r),
            r,
            readers(captures.stdout, captures.stderr),
            readers(captures.stdout, captures.stderr),
        ),
    decreases 3 - streams.len(),
{
    let both = readers(captures.stdout, captures.stderr);
    if streams.len() < 3 {
        if r.len() > 0 {
            if let ReplyView::Inherited(stream) = r[0] {
                lemma_inherit_concluded(e, captures, env, streams.push(stream), tail(r));
            }
        }
        lemma_concluded_ask(
            semantics::stream_inherited(e, captures, env, streams, r),
            RequestView::Inherit(semantics::standard(streams.len() as int)),
            r,
            both,
            both,
        );
    } else {
        if r.len() > 0 {
            match r[0] {
                ReplyView::Directory(Ok(dir)) => {
                    let c = semantics::first_context(captures, env, streams, dir);
                    lemma_executed_concluded(e, c, captures.stdout, captures.stderr, tail(r));
                },
                ReplyView::Directory(Err(x)) => {
                    let c = semantics::first_context(captures, env, streams, Seq::empty());
                    lemma_crew_closes(c.handles().reverse(), Seq::empty(), tail(r), both);
                },
                _ => {},
            }
        }
        lemma_concluded_ask(
            semantics::dir_found(e, captures, env, streams, r),
            RequestView::CurrentDir,
            r,
            both,
            both,
        );
    }
}

/// The reader of captured errors is started while that of captured output is running.
proof fn lemma_capture_concluded(
    e: Expr,
    stdout: Worker,
    stdout_write: Handle,
    r: Seq<ReplyView>,
)
    ensures
        concluded(
            semantics::stderr_piped(e, stdout, stdout_write, r).after(ask(RequestView::OpenPipe)),
            r,
            Multiset::empty().insert(stdout),
            readers(stdout, r[1]->Started_0),
        ),
{
    let one = Multiset::<Worker>::empty().insert(stdout);
    let both = readers(stdout, r[1]->Started_0);
    if r.len() > 0 {
        if let ReplyView::Pipe(read, write) = r[0] {
            let r1 = tail(r);
            if r1.len() > 0 {
                if let ReplyView::Started(stderr) = r1[0] {
                    let r2 = tail(r1);
                    let captures = Captures {
                        stdout,
                        stdout_write,
                        stderr,
                        stderr_write: write,
                    };
                    assert(r1[0] == r[1]);
                    if r2.len() > 0 {
                        if let ReplyView::Variables(pairs) = r2[0] {
                            lemma_inherit_concluded(
                                e,
                                captures,
                                env::collect(pairs),
                                Seq::empty(),
                                tail(r2),
                            );
                        }
                    }
                    lemma_concluded_ask(
                        semantics::variables_listed(e, captures, r2),
                        RequestView::Environment,
                        r2,
                        both,
                        both,
                    );
                }
            }
            lemma_concluded_ask(
                semantics::stderr_reading(e, stdout, stdout_write, write, r1),
                RequestView::StartReader(read),
                r1,
                one,
                both,
            );
        }
    }
    lemma_concluded_ask(
        semantics::stderr_piped(e, stdout, stdout_write, r),
        RequestView::OpenPipe,
        r,
        one,
        both,
    );
}

/// When a run is over, every thread that was started for it has been waited for, once. Only where
/// the run fails with an error of the operating system may the two threads that collect captured
/// output be left to end by themselves.
pub proof fn run_waits_for_its_threads(e: Expr, r: Seq<ReplyView>)
    ensures
        concluded(
            run(e, r),
            r,
            Multiset::empty(),
            readers(r[1]->Started_0, r[3]->Started_0),
        ),
{
    let none = Multiset::<Worker>::empty();
    let both = readers(r[1]->Started_0, r[3]->Started_0);
    if r.len() > 0 {
        if let ReplyView::Pipe(read, write) = r[0] {
            let r1 = tail(r);
            if r1.len() > 0 {
                if let ReplyView::Started(stdout) = r1[0] {
                    lemma_capture_concluded(e, stdout, write, tail(r1));
                    if r.len() > 3 {
                        assert(tail(r1)[1] == r[3]);
                    } else {
                        assert(run(e, r).end is None);
                    }
                }
            }
            lemma_concluded_ask(
                semantics::stdout_reading(e, write, r1),
                RequestView::StartReader(read),
                r1,
                none,
                both,
            );
        }
    }
    lemma_concluded_ask(semantics::stdout_piped(e, r), RequestView::OpenPipe, r, none, both);
}

/// Reading an expression waits for its threads as running it does.
pub proof fn read_waits_for_its_threads(e: Expr, r: Seq<ReplyView>)
    ensures
        concluded(
            read(e, r),
            r,
            Multiset::empty(),
            readers(r[1]->Started_0, r[3]->Started_0),
        ),
{
    run_waits_for_its_threads(Expr::Io(Setting::Stdout(Sink::Capture), Box::new(e)), r);
}

} // verus!
