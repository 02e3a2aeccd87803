//! Every expression comes to an end.

use vstd::prelude::*;

use crate::env;
use crate::model::{
    answers, ask, closes, tail, ContextView, ErrorView, Expr, Op, ReplyView, RequestView, Setting,
    Sink, Source, Trace,
};
use crate::os::{Exit, Handle, Status, Stream, Worker};
use crate::semantics;
use crate::semantics::{exec, read, run, Captures, RunResult};

verus! {

/// The number of requests among some steps.
pub open spec fn asks(ops: Seq<Op>) -> nat
    decreases ops.len(),
{
    if ops.len() == 0 {
        0
    } else {
        asks(ops.drop_first()) + if ops[0] is Ask {
            1nat
        } else {
            0nat
        }
    }
}

/// The most requests that an expression makes by itself. What the sides of a pipe ask for is asked
/// for in their own names.
pub open spec fn cost(e: Expr) -> nat
    decreases e,
{
    match e {
        Expr::Argv(_) => 1,
        Expr::Sh(_) => 1,
        Expr::Pipe(_, _) => 7,
        Expr::Then(left, right) => 5 + cost(*left) + cost(*right),
        Expr::Io(Setting::Stdin(Source::Bytes(_)), inner) => 3 + cost(*inner),
        Expr::Io(Setting::Stdin(_), inner) => 1 + cost(*inner),
        Expr::Io(Setting::Stdout(_), inner) => 1 + cost(*inner),
        Expr::Io(Setting::Stderr(_), inner) => 1 + cost(*inner),
        Expr::Io(_, inner) => cost(*inner),
    }
}

/// The last step is a request that was not answered: there are no more replies, or the reply is
/// not of the right kind.
pub open spec fn unanswered(ops: Seq<Op>, r: Seq<ReplyView>) -> bool {
    &&& ops.len() > 0
    &&& ops.last() matches Op::Ask(request) && (asks(ops) > r.len() || !answers(
        request,
        r[asks(ops) - 1],
    ))
}

/// A trace makes at most so many requests, uses one reply for each, and stops short of its end only
/// for want of a reply.
pub open spec fn progresses<R>(t: Trace<R>, r: Seq<ReplyView>, limit: nat) -> bool {
    &&& asks(t.ops) <= limit
    &&& t.end is Some ==> asks(t.ops) <= r.len() && t.rest == r.skip(asks(t.ops) as int)
    &&& t.end is None ==> unanswered(t.ops, r)
}

proof fn lemma_asks_concat(first: Seq<Op>, second: Seq<Op>)
    ensures
        asks(first + second) == asks(first) + asks(second),
    decreases first.len(),
{
    if first.len() == 0 {
        assert(first + second =~= second);
    } else {
        assert((first + second).drop_first() =~= first.drop_first() + second);
        lemma_asks_concat(first.drop_first(), second);
    }
}

proof fn lemma_asks_closes(handles: Seq<Handle>)
    ensures
        asks(closes(handles)) == 0,
    decreases handles.len(),
{
    if handles.len() > 0 {
        assert(closes(handles).drop_first() =~= closes(handles.drop_first()));
        lemma_asks_closes(handles.drop_first());
    }
}

proof fn lemma_asks_ask(request: RequestView)
    ensures
        asks(ask(request)) == 1,
{
    reveal_with_fuel(asks, 2);
    assert(ask(request).drop_first() =~= Seq::empty());
}

proof fn lemma_asks_last(ops: Seq<Op>)
    requires
        ops.len() > 0,
        ops.last() is Ask,
    ensures
        asks(ops) > 0,
    decreases ops.len(),
{
    if ops.len() > 1 {
        lemma_asks_last(ops.drop_first());
    }
}

/// Steps before a trace that use as many replies as they make requests.
proof fn lemma_progress_after<R>(
    t: Trace<R>,
    ops: Seq<Op>,
    r: Seq<ReplyView>,
    first: nat,
    limit: nat,
)
    requires
        asks(ops) <= first,
        asks(ops) <= r.len(),
        progresses(t, r.skip(asks(ops) as int), limit),
    ensures
        progresses(t.after(ops), r, first + limit),
{
    lemma_asks_concat(ops, t.ops);
    let n = asks(ops) as int;
    let m = asks(t.ops) as int;
    if t.end is Some {
        assert(r.skip(n).skip(m) =~= r.skip(n + m));
    } else {
        lemma_asks_last(t.ops);
        assert((ops + t.ops).last() == t.ops.last());
    }
}

proof fn lemma_progress_closes<R>(
    t: Trace<R>,
    handles: Seq<Handle>,
    r: Seq<ReplyView>,
    limit: nat,
)
    requires
        progresses(t, r, limit),
    ensures
        progresses(t.after(closes(handles)), r, limit),
{
    lemma_asks_closes(handles);
    assert(r.skip(0) =~= r);
    lemma_progress_after(t, closes(handles), r, 0, limit);
}

proof fn lemma_progress_done<R>(result: R, handles: Seq<Handle>, r: Seq<ReplyView>, limit: nat)
    ensures
        progresses(Trace::done(result, r), r, limit),
        progresses(Trace::done(result, r).after(closes(handles)), r, limit),
{
    assert(r.skip(0) =~= r);
    lemma_progress_closes(Trace::done(result, r), handles, r, limit);
}

/// A request, and a trace that goes on with the reply to it.
proof fn lemma_progress_ask<R>(t: Trace<R>, request: RequestView, r: Seq<ReplyView>, limit: nat)
    requires
        r.len() == 0 ==> t == Trace::<R>::stuck(),
        r.len() > 0 && !answers(request, r[0]) ==> t == Trace::<R>::stuck(),
        r.len() > 0 && answers(request, r[0]) ==> progresses(t, tail(r), limit),
    ensures
        progresses(t.after(ask(request)), r, 1 + limit),
{
    lemma_asks_ask(request);
    if r.len() > 0 && answers(request, r[0]) {
        assert(r.skip(1) =~= tail(r));
        lemma_progress_after(t, ask(request), r, 1, limit);
    } else {
        assert(t.after(ask(request)).ops =~= ask(request));
    }
}

/// Two traces, one after the other.
proof fn lemma_progress_sequence<R, Q>(
    first: Trace<R>,
    second: Trace<Q>,
    r: Seq<ReplyView>,
    first_limit: nat,
    limit: nat,
)
    requires
        first.end is Some,
        progresses(first, r, first_limit),
        progresses(second, first.rest, limit),
    ensures
        progresses(second.after(first.ops), r, first_limit + limit),
{
    lemma_progress_after(second, first.ops, r, first_limit, limit);
}

pub(crate) proof fn lemma_clone_progress(c: ContextView, copies: Seq<Handle>, r: Seq<ReplyView>)
    requires
        copies.len() <= 5,
    ensures
        progresses(semantics::clone_context(c, copies, r), r, (5 - copies.len()) as nat),
    decreases 5 - copies.len(),
{
    if copies.len() == 5 {
        assert(r.skip(0) =~= r);
    } else {
        let limit = (4 - copies.len()) as nat;
        let request = RequestView::Duplicate(c.handles()[copies.len() as int]);
        let t = semantics::handle_cloned(c, copies, r);
        if r.len() > 0 {
            match r[0] {
                ReplyView::Opened(Ok(copy)) => {
                    lemma_clone_progress(c, copies.push(copy), tail(r));
                },
                ReplyView::Opened(Err(e)) => {
                    lemma_progress_done::<Result<ContextView, std::io::Error>>(
                        Err(e),
                        copies.reverse(),
                        tail(r),
                        limit,
                    );
                },
                _ => {},
            }
        }
        lemma_progress_ask(t, request, r, limit);
    }
}

proof fn lemma_launch_progress(argv: Seq<Seq<u8>>, c: ContextView, r: Seq<ReplyView>)
    ensures
        progresses(semantics::launch(argv, c, r), r, 1),
{
    if r.len() > 0 {
        if let ReplyView::Exited(exit) = r[0] {
            lemma_progress_done(exit, c.handles(), tail(r), 0);
        }
    }
    lemma_progress_ask(
        semantics::exited(c, r),
        RequestView::Launch(semantics::launch_of(argv, c)),
        r,
        0,
    );
}

/// A new standard stream is opened, and then the expression runs.
proof fn lemma_redirect_progress(
    stream: Stream,
    request: RequestView,
    inner: Expr,
    c: ContextView,
    r: Seq<ReplyView>,
)
    requires
        forall|reply: ReplyView| answers(request, reply) ==> reply is Opened,
        forall|reply: ReplyView| reply is Opened ==> answers(request, reply),
    ensures
        progresses(
            semantics::redirected(stream, inner, c, r).after(ask(request)),
            r,
            1 + cost(inner),
        ),
    decreases inner, 2nat,
{
    let t = semantics::redirected(stream, inner, c, r);
    if r.len() > 0 {
        match r[0] {
            ReplyView::Opened(Ok(handle)) => {
                let next = c.with_stream(stream, handle);
                lemma_exec_progress(inner, next, tail(r));
                lemma_progress_closes(
                    exec(inner, next, tail(r)),
                    seq![c.stream(stream)],
                    tail(r),
                    cost(inner),
                );
            },
            ReplyView::Opened(Err(e)) => {
                lemma_progress_done::<Exit>(Err(e), c.handles(), tail(r), cost(inner));
            },
            _ => {},
        }
    }
    lemma_progress_ask(t, request, r, cost(inner));
}

/// Input is fed to an expression.
proof fn lemma_input_progress(inner: Expr, c: ContextView, input: Seq<u8>, r: Seq<ReplyView>)
    ensures
        progresses(
            semantics::input_piped(inner, c, input, r).after(ask(RequestView::OpenPipe)),
            r,
            3 + cost(inner),
        ),
    decreases inner, 2nat,
{
    if r.len() > 0 {
        if let ReplyView::Pipe(read, write) = r[0] {
            let r1 = tail(r);
            let started = semantics::writer_started(inner, c, read, r1);
            if r1.len() > 0 {
                if let ReplyView::Started(writer) = r1[0] {
                    let r2 = tail(r1);
                    let next = ContextView { stdin: read, ..c };
                    let t = exec(inner, next, r2);
                    lemma_exec_progress(inner, next, r2);
                    if let Some(exit) = t.end {
                        let join = RequestView::JoinWriter(writer);
                        let joined = semantics::writer_joined(exit, t.rest);
                        if t.rest.len() > 0 {
                            if let ReplyView::Written(written) = t.rest[0] {
                                lemma_progress_done(
                                    semantics::written_exit(exit, written),
                                    Seq::empty(),
                                    tail(t.rest),
                                    0,
                                );
                            }
                        }
                        lemma_progress_ask(joined, join, t.rest, 0);
                        lemma_progress_sequence(t, joined.after(ask(join)), r2, cost(inner), 1);
                        assert(semantics::fed(writer, t) =~= joined.after(ask(join)).after(t.ops));
                    }
                    lemma_progress_closes(
                        semantics::fed(writer, t),
                        seq![c.stdin],
                        r2,
                        1 + cost(inner),
                    );
                }
            }
            lemma_progress_ask(
                started,
                RequestView::StartWriter(write, input),
                r1,
                1 + cost(inner),
            );
        }
    }
    lemma_progress_ask(
        semantics::input_piped(inner, c, input, r),
        RequestView::OpenPipe,
        r,
        2 + cost(inner),
    );
}

/// Both sides of a pipe are started.
proof fn lemma_pipe_progress(left: Expr, right: Expr, c: ContextView, r: Seq<ReplyView>)
    ensures
        progresses(
            semantics::pipe_opened(left, right, c, r).after(ask(RequestView::OpenPipe)),
            r,
            7,
        ),
{
    let opened = semantics::pipe_opened(left, right, c, r);
    if r.len() > 0 {
        if let ReplyView::Pipe(read, write) = r[0] {
            let t = semantics::clone_context(c, Seq::empty(), tail(r));
            lemma_clone_progress(c, Seq::empty(), tail(r));
            match t.end {
                None => {},
                Some(Err(e)) => {
                    let over = Trace::<Exit>::done(Err(e), t.rest).after(closes(c.handles()));
                    lemma_progress_done::<Exit>(Err(e), c.handles(), t.rest, 1);
                    lemma_progress_closes(over, seq![write, read], t.rest, 1);
                    lemma_progress_sequence(
                        t,
                        over.after(closes(seq![write, read])),
                        tail(r),
                        5,
                        1,
                    );
                    assert(opened =~= over.after(closes(seq![write, read])).after(t.ops));
                },
                Some(Ok(copy)) => {
                    let request = RequestView::Fork(
                        left,
                        ContextView { stdout: write, ..copy },
                        right,
                        ContextView { stdin: read, ..c },
                    );
                    let dropped = seq![copy.stdout, c.stdin];
                    let forked = semantics::forked(t.rest);
                    if t.rest.len() > 0 {
                        if let ReplyView::Forked(l, r) = t.rest[0] {
                            lemma_progress_done(
                                semantics::pipe_exit(l, r),
                                Seq::empty(),
                                tail(t.rest),
                                0,
                            );
                        }
                    }
                    lemma_progress_ask(forked, request, t.rest, 0);
                    lemma_progress_closes(forked.after(ask(request)), dropped, t.rest, 1);
                    lemma_progress_sequence(
                        t,
                        forked.after(ask(request)).after(closes(dropped)),
                        tail(r),
                        5,
                        1,
                    );
                    assert(opened =~= forked.after(ask(request)).after(closes(dropped)).after(
                        t.ops,
                    ));
                },
            }
        }
    }
    lemma_progress_ask(opened, RequestView::OpenPipe, r, 6);
}

/// A sequence runs its first expression, and then perhaps its second.
proof fn lemma_then_progress(left: Expr, right: Expr, c: ContextView, r: Seq<ReplyView>)
    ensures
        progresses(
            exec(Expr::Then(Box::new(left), Box::new(right)), c, r),
            r,
            5 + cost(left) + cost(right),
        ),
    decreases Expr::Then(Box::new(left), Box::new(right)), 0nat,
{
    let e = Expr::Then(Box::new(left), Box::new(right));
    assert(decreases_to!(e => e->Then_0));
    assert(decreases_to!(e => e->Then_1));
    let t = semantics::clone_context(c, Seq::empty(), r);
    let whole = semantics::then_cloned(left, right, c, t);
    lemma_clone_progress(c, Seq::empty(), r);
    match t.end {
        None => {},
        Some(Err(x)) => {
            let over = Trace::<Exit>::done(Err(x), t.rest).after(closes(c.handles()));
            lemma_progress_done::<Exit>(Err(x), c.handles(), t.rest, 0);
            lemma_progress_sequence(t, over, r, 5, 0);
            assert(whole =~= over.after(t.ops));
        },
        Some(Ok(copy)) => {
            let first = exec(left, copy, t.rest);
            let second = semantics::then_left(right, c, first);
            lemma_exec_progress(left, copy, t.rest);
            match first.end {
                None => {},
                Some(Ok(0)) => {
                    lemma_exec_progress(right, c, first.rest);
                    lemma_progress_sequence(
                        first,
                        exec(right, c, first.rest),
                        t.rest,
                        cost(left),
                        cost(right),
                    );
                },
                Some(exit) => {
                    let over = Trace::done(exit, first.rest).after(closes(c.handles()));
                    lemma_progress_done(exit, c.handles(), first.rest, 0);
                    lemma_progress_sequence(first, over, t.rest, cost(left), 0);
                    assert(second =~= over.after(first.ops));
                },
            }
            lemma_progress_sequence(t, second, r, 5, cost(left) + cost(right));
        },
    }
}

proof fn lemma_exec_progress(e: Expr, c: ContextView, r: Seq<ReplyView>)
    ensures
        progresses(exec(e, c, r), r, cost(e)),
    decreases e, 1nat,
{
    match e {
        Expr::Argv(argv) => {
            lemma_launch_progress(argv, c, r);
        },
        Expr::Sh(command) => {
            lemma_launch_progress(semantics::shell_argv(command), c, r);
        },
        Expr::Pipe(left, right) => {
            lemma_pipe_progress(*left, *right, c, r);
        },
        Expr::Then(left, right) => {
            lemma_then_progress(*left, *right, c, r);
        },
        Expr::Io(setting, inner) => {
            match setting {
                Setting::Stdin(Source::Bytes(input)) => {
                    lemma_input_progress(*inner, c, input, r);
                },
                Setting::Stdin(source) => {
                    let request = semantics::input_request(source);
                    lemma_redirect_progress(Stream::Stdin, request, *inner, c, r);
                },
                Setting::Stdout(sink) => {
                    let request = semantics::output_request(
                        sink,
                        c.stdout,
                        c.stderr,
                        c.stdout_capture,
                    );
                    lemma_redirect_progress(Stream::Stdout, request, *inner, c, r);
                },
                Setting::Stderr(sink) => {
                    let request = semantics::output_request(
                        sink,
                        c.stdout,
                        c.stderr,
                        c.stderr_capture,
                    );
                    lemma_redirect_progress(Stream::Stderr, request, *inner, c, r);
                },
                Setting::Dir(dir) => {
                    lemma_exec_progress(*inner, ContextView { dir, ..c }, r);
                },
                Setting::Env(name, value) => {
                    let env = c.env.insert(name, value);
                    lemma_exec_progress(*inner, ContextView { env, ..c }, r);
                },
                Setting::FullEnv(env) => {
                    lemma_exec_progress(*inner, ContextView { env, ..c }, r);
                },
                Setting::Unchecked => {
                    lemma_exec_progress(*inner, c, r);
                },
            }
        },
    }
}

/// Whatever the operating system replies, an expression makes a limited number of requests, uses
/// one reply for each, and stops short of its end only if a reply is missing or of the wrong kind.
pub proof fn exec_comes_to_an_end(e: Expr, c: ContextView, r: Seq<ReplyView>)
    ensures
        progresses(exec(e, c, r), r, cost(e)),
{
    lemma_exec_progress(e, c, r);
}

proof fn lemma_collect_progress(
    status: Status,
    stdout: Worker,
    stderr: Worker,
    r: Seq<ReplyView>,
)
    ensures
        progresses(
            semantics::stdout_collected(status, stderr, r).after(
                ask(RequestView::JoinReader(stdout)),
            ),
            r,
            2,
        ),
{
    if r.len() > 0 {
        match r[0] {
            ReplyView::Collected(Ok(bytes)) => {
                let r1 = tail(r);
                if r1.len() > 0 {
                    if let ReplyView::Collected(collected) = r1[0] {
                        let t = semantics::stderr_collected(status, bytes, r1);
                        lemma_progress_done(t.end->0, Seq::empty(), tail(r1), 0);
                    }
                }
                lemma_progress_ask(
                    semantics::stderr_collected(status, bytes, r1),
                    RequestView::JoinReader(stderr),
                    r1,
                    0,
                );
            },
            ReplyView::Collected(Err(x)) => {
                lemma_progress_done::<RunResult>(
                    Err(ErrorView::Io(x)),
                    Seq::empty(),
                    tail(r),
                    1,
                );
            },
            _ => {},
        }
    }
    lemma_progress_ask(
        semantics::stdout_collected(status, stderr, r),
        RequestView::JoinReader(stdout),
        r,
        1,
    );
}

proof fn lemma_executed_progress(
    e: Expr,
    c: ContextView,
    stdout: Worker,
    stderr: Worker,
    r: Seq<ReplyView>,
)
    ensures
        progresses(
            semantics::executed(stdout, stderr, exec(e, c, r)),
            r,
            cost(e) + 2,
        ),
{
    let t = exec(e, c, r);
    lemma_exec_progress(e, c, r);
    match t.end {
        None => {},
        Some(Err(x)) => {
            let over = Trace::<RunResult>::done(Err(ErrorView::Io(x)), t.rest);
            lemma_progress_done::<RunResult>(Err(ErrorView::Io(x)), Seq::empty(), t.rest, 2);
            lemma_progress_sequence(t, over, r, cost(e), 2);
        },
        Some(Ok(status)) => {
            let join = ask(RequestView::JoinReader(stdout));
            let over = semantics::stdout_collected(status, stderr, t.rest).after(join);
            lemma_collect_progress(status, stdout, stderr, t.rest);
            lemma_progress_sequence(t, over, r, cost(e), 2);
            assert(semantics::executed(stdout, stderr, t) =~= over.after(t.ops));
        },
    }
}

proof fn lemma_inherit_progress(
    e: Expr,
    captures: Captures,
    env: Map<Seq<u8>, Seq<u8>>,
    streams: Seq<Handle>,
    r: Seq<ReplyView>,
)
    requires
        streams.len() <= 3,
    ensures
        progresses(
            semantics::inheriting(e, captures, env, streams, r),
            r,
            (4 - streams.len()) as nat + cost(e) + 2,
        ),
    decreases 3 - streams.len(),
{
    let limit = (3 - streams.len()) as nat + cost(e) + 2;
    if streams.len() < 3 {
        if r.len() > 0 {
            if let ReplyView::Inherited(stream) = r[0] {
                lemma_inherit_progress(e, captures, env, streams.push(stream), tail(r));
            }
        }
        lemma_progress_ask(
            semantics::stream_inherited(e, captures, env, streams, r),
            RequestView::Inherit(semantics::standard(streams.len() as int)),
            r,
            limit,
        );
    } else {
        if r.len() > 0 {
            match r[0] {
                ReplyView::Directory(Ok(dir)) => {
                    let c = semantics::first_context(captures, env, streams, dir);
                    lemma_executed_progress(e, c, captures.stdout, captures.stderr, tail(r));
                },
                ReplyView::Directory(Err(x)) => {
                    let c = semantics::first_context(captures, env, streams, Seq::empty());
                    lemma_progress_done::<RunResult>(
                        Err(ErrorView::Io(x)),
                        c.handles().reverse(),
                        tail(r),
                        limit,
                    );
                },
                _ => {},
            }
        }
        lemma_progress_ask(
            semantics::dir_found(e, captures, env, streams, r),
            RequestView::CurrentDir,
            r,
            limit,
        );
    }
}

proof fn lemma_capture_progress(
    e: Expr,
    stdout: Worker,
    stdout_write: Handle,
    r: Seq<ReplyView>,
)
    ensures
        progresses(
            semantics::stderr_piped(e, stdout, stdout_write, r).after(ask(RequestView::OpenPipe)),
            r,
            9 + cost(e),
        ),
{
    if r.len() > 0 {
        if let ReplyView::Pipe(read, write) = r[0] {
            let r1 = tail(r);
            if r1.len() > 0 {
                if let ReplyView::Started(stderr) = r1[0] {
                    let r2 = tail(r1);
                    let captures = Captures {
                        stdout,
                        stdout_write,
                        stderr,
                        stderr_write: write,
                    };
                    if r2.len() > 0 {
                        if let ReplyView::Variables(pairs) = r2[0] {
                            lemma_inherit_progress(
                                e,
                                captures,
                                env::collect(pairs),
                                Seq::empty(),
                                tail(r2),
                            );
                        }
                    }
                    lemma_progress_ask(
                        semantics::variables_listed(e, captures, r2),
                        RequestView::Environment,
                        r2,
                        6 + cost(e),
                    );
                }
            }
            lemma_progress_ask(
                semantics::stderr_reading(e, stdout, stdout_write, write, r1),
                RequestView::StartReader(read),
                r1,
                7 + cost(e),
            );
        }
    }
    lemma_progress_ask(
        semantics::stderr_piped(e, stdout, stdout_write, r),
        RequestView::OpenPipe,
        r,
        8 + cost(e),
    );
}

/// A run comes to an end as its expression does: it makes a limited number of requests, uses one
/// reply for each, and stops short of its end only if a reply is missing or of the wrong kind.
pub proof fn run_comes_to_an_end(e: Expr, r: Seq<ReplyView>)
    ensures
        progresses(run(e, r), r, 11 + cost(e)),
{
    if r.len() > 0 {
        if let ReplyView::Pipe(read, write) = r[0] {
            let r1 = tail(r);
            if r1.len() > 0 {
                if let ReplyView::Started(stdout) = r1[0] {
                    lemma_capture_progress(e, stdout, write, tail(r1));
                }
            }
            lemma_progress_ask(
                semantics::stdout_reading(e, write, r1),
                RequestView::StartReader(read),
                r1,
                9 + cost(e),
            );
        }
    }
    lemma_progress_ask(
        semantics::stdout_piped(e, r),
        RequestView::OpenPipe,
        r,
        10 + cost(e),
    );
}

/// Reading an expression comes to an end as running it does.
pub proof fn read_comes_to_an_end(e: Expr, r: Seq<ReplyView>)
    ensures
        progresses(read(e, r), r, 12 + cost(e)),
{
    run_comes_to_an_end(Expr::Io(Setting::Stdout(Sink::Capture), Box::new(e)), r);
}

} // verus!
