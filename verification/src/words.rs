//! Commands that have words can be started.
//!
//! A command without any words names no program. Nothing is wrong with such an expression until it
//! is run: then a launch is asked for that nobody can carry out.

use vstd::prelude::*;

use crate::env;
use crate::model::{
    ask, closes, head, tail, ContextView, Expr, Op, ReplyView, RequestView, Setting, Sink, Source,
};
use crate::os::{Handle, Stream, Worker};
use crate::semantics;
use crate::semantics::{exec, read, run, Captures};

verus! {

/// Every command of an expression has a word.
pub open spec fn worded(e: Expr) -> bool
    decreases e,
{
    match e {
        Expr::Argv(argv) => argv.len() > 0,
        Expr::Sh(_) => true,
        Expr::Pipe(left, right) => worded(*left) && worded(*right),
        Expr::Then(left, right) => worded(*left) && worded(*right),
        Expr::Io(_, inner) => worded(*inner),
    }
}

/// Whether a request starts nothing but commands with a program: neither directly nor by way of an
/// expression.
pub open spec fn startable(request: RequestView) -> bool {
    match request {
        RequestView::Launch(launch) => launch.has_program(),
        RequestView::Fork(left, _, right, _) => worded(left) && worded(right),
        _ => true,
    }
}

/// All requests among some steps are of that kind.
pub open spec fn all_startable(ops: Seq<Op>) -> bool {
    forall|i: int| 0 <= i < ops.len() ==> (#[trigger] ops[i] matches Op::Ask(request) ==> startable(
        request,
    ))
}

proof fn lemma_startable_concat(first: Seq<Op>, second: Seq<Op>)
    requires
        all_startable(first),
        all_startable(second),
    ensures
        all_startable(first + second),
{
    assert forall|i: int| 0 <= i < (first + second).len() implies (#[trigger] (first
        + second)[i] matches Op::Ask(request) ==> startable(request)) by {
        if i < first.len() {
            assert((first + second)[i] == first[i]);
        } else {
            assert((first + second)[i] == second[i - first.len()]);
        }
    }
}

/// Steps that close handles and then ask for something, before others.
proof fn lemma_startable_after(handles: Seq<Handle>, request: RequestView, ops: Seq<Op>)
    requires
        all_startable(ops),
    ensures
        all_startable(closes(handles) + ops),
        startable(request) ==> all_startable(ask(request) + ops),
{
    lemma_startable_concat(closes(handles), ops);
    if startable(request) {
        lemma_startable_concat(ask(request), ops);
    }
}

proof fn lemma_clone_startable(c: ContextView, copies: Seq<Handle>, r: Seq<ReplyView>)
    requires
        copies.len() <= 5,
    ensures
        all_startable(semantics::clone_context(c, copies, r).ops),
    decreases 5 - copies.len(),
{
    if copies.len() < 5 {
        let request = RequestView::Duplicate(c.handles()[copies.len() as int]);
        let t = semantics::handle_cloned(c, copies, r);
        match head(r) {
            Some(ReplyView::Opened(Ok(copy))) => {
                lemma_clone_startable(c, copies.push(copy), tail(r));
            },
            Some(ReplyView::Opened(Err(_))) => {
                lemma_startable_after(copies.reverse(), request, Seq::empty());
            },
            _ => {},
        }
        lemma_startable_after(copies, request, t.ops);
    }
}

proof fn lemma_launch_startable(argv: Seq<Seq<u8>>, c: ContextView, r: Seq<ReplyView>)
    requires
        argv.len() > 0,
    ensures
        all_startable(semantics::launch(argv, c, r).ops),
{
    let request = RequestView::Launch(semantics::launch_of(argv, c));
    lemma_startable_after(c.handles(), request, Seq::empty());
    lemma_startable_after(c.handles(), request, semantics::exited(c, r).ops);
}

proof fn lemma_redirect_startable(
    stream: Stream,
    request: RequestView,
    inner: Expr,
    c: ContextView,
    r: Seq<ReplyView>,
)
    requires
        worded(inner),
        startable(request),
    ensures
        all_startable(semantics::redirected(stream, inner, c, r).after(ask(request)).ops),
    decreases inner, 2nat,
{
    match head(r) {
        Some(ReplyView::Opened(Ok(handle))) => {
            let next = c.with_stream(stream, handle);
            lemma_exec_startable(inner, next, tail(r));
            lemma_startable_after(
                seq![c.stream(stream)],
                request,
                exec(inner, next, tail(r)).ops,
            );
        },
        Some(ReplyView::Opened(Err(_))) => {
            lemma_startable_after(c.handles(), request, Seq::empty());
        },
        _ => {},
    }
    lemma_startable_after(
        c.handles(),
        request,
        semantics::redirected(stream, inner, c, r).ops,
    );
}

proof fn lemma_input_startable(inner: Expr, c: ContextView, input: Seq<u8>, r: Seq<ReplyView>)
    requires
        worded(inner),
    ensures
        all_startable(
            semantics::input_piped(inner, c, input, r).after(ask(RequestView::OpenPipe)).ops,
        ),
    decreases inner, 2nat,
{
    if let Some(ReplyView::Pipe(read, write)) = head(r) {
        let r1 = tail(r);
        let start = RequestView::StartWriter(write, input);
        if let Some(ReplyView::Started(writer)) = head(r1) {
            let t = exec(inner, ContextView { stdin: read, ..c }, tail(r1));
            lemma_exec_startable(inner, ContextView { stdin: read, ..c }, tail(r1));
            let join = RequestView::JoinWriter(writer);
            lemma_startable_concat(t.ops, ask(join));
            if let Some(exit) = t.end {
                let joined = semantics::writer_joined(exit, t.rest);
                assert(joined.ops =~= Seq::empty());
                assert(t.ops + ask(join) + joined.ops =~= t.ops + ask(join));
            }
            lemma_startable_after(seq![c.stdin], start, semantics::fed(writer, t).ops);
        }
        lemma_startable_after(
            seq![c.stdin],
            start,
            semantics::writer_started(inner, c, read, r1).ops,
        );
    }
    lemma_startable_after(
        seq![c.stdin],
        RequestView::OpenPipe,
        semantics::input_piped(inner, c, input, r).ops,
    );
}

proof fn lemma_pipe_startable(left: Expr, right: Expr, c: ContextView, r: Seq<ReplyView>)
    requires
        worded(left),
        worded(right),
    ensures
        all_startable(
            semantics::pipe_opened(left, right, c, r).after(ask(RequestView::OpenPipe)).ops,
        ),
{
    let opened = semantics::pipe_opened(left, right, c, r);
    if let Some(ReplyView::Pipe(read, write)) = head(r) {
        let t = semantics::clone_context(c, Seq::empty(), tail(r));
        lemma_clone_startable(c, Seq::empty(), tail(r));
        match t.end {
            None => {},
            Some(Err(_)) => {
                let over = closes(seq![write, read]) + closes(c.handles());
                lemma_startable_concat(t.ops, over);
                assert(opened.ops =~= t.ops + over);
            },
            Some(Ok(copy)) => {
                let request = RequestView::Fork(
                    left,
                    ContextView { stdout: write, ..copy },
                    right,
                    ContextView { stdin: read, ..c },
                );
                let over = closes(seq![copy.stdout, c.stdin]) + ask(request);
                lemma_startable_concat(closes(seq![copy.stdout, c.stdin]), ask(request));
                lemma_startable_concat(t.ops, over);
                assert(opened.ops =~= t.ops + over);
            },
        }
    }
    lemma_startable_after(c.handles(), RequestView::OpenPipe, opened.ops);
}

proof fn lemma_then_startable(left: Expr, right: Expr, c: ContextView, r: Seq<ReplyView>)
    requires
        worded(left),
        worded(right),
    ensures
        all_startable(exec(Expr::Then(Box::new(left), Box::new(right)), c, r).ops),
    decreases Expr::Then(Box::new(left), Box::new(right)), 0nat,
{
    let e = Expr::Then(Box::new(left), Box::new(right));
    assert(decreases_to!(e => e->Then_0));
    assert(decreases_to!(e => e->Then_1));
    let t = semantics::clone_context(c, Seq::empty(), r);
    let whole = semantics::then_cloned(left, right, c, t);
    lemma_clone_startable(c, Seq::empty(), r);
    lemma_startable_concat(t.ops, closes(c.handles()));
    match t.end {
        None => {},
        Some(Err(_)) => {
            assert(whole.ops =~= t.ops + closes(c.handles()));
        },
        Some(Ok(copy)) => {
            let first = exec(left, copy, t.rest);
            let second = semantics::then_left(right, c, first);
            lemma_exec_startable(left, copy, t.rest);
            lemma_startable_concat(first.ops, closes(c.handles()));
            match first.end {
                None => {},
                Some(Ok(0)) => {
                    lemma_exec_startable(right, c, first.rest);
                    lemma_startable_concat(first.ops, exec(right, c, first.rest).ops);
                },
                Some(_) => {
                    assert(second.ops =~= first.ops + closes(c.handles()));
                },
            }
            lemma_startable_concat(t.ops, second.ops);
            assert(whole == second.after(t.ops));
        },
    }
}

proof fn lemma_exec_startable(e: Expr, c: ContextView, r: Seq<ReplyView>)
    requires
        worded(e),
    ensures
        all_startable(exec(e, c, r).ops),
    decreases e, 1nat,
{
    match e {
        Expr::Argv(argv) => {
            lemma_launch_startable(argv, c, r);
        },
        Expr::Sh(command) => {
            lemma_launch_startable(semantics::shell_argv(command), c, r);
        },
        Expr::Pipe(left, right) => {
            lemma_pipe_startable(*left, *right, c, r);
        },
        Expr::Then(left, right) => {
            lemma_then_startable(*left, *right, c, r);
        },
        Expr::Io(Setting::Stdin(Source::Bytes(input)), inner) => {
            lemma_input_startable(*inner, c, input, r);
        },
        Expr::Io(Setting::Stdin(source), inner) => {
            let request = semantics::input_request(source);
            lemma_redirect_startable(Stream::Stdin, request, *inner, c, r);
        },
        Expr::Io(Setting::Stdout(sink), inner) => {
            let request = semantics::output_request(sink, c.stdout, c.stderr, c.stdout_capture);
            lemma_redirect_startable(Stream::Stdout, request, *inner, c, r);
        },
        Expr::Io(Setting::Stderr(sink), inner) => {
            let request = semantics::output_request(sink, c.stdout, c.stderr, c.stderr_capture);
            lemma_redirect_startable(Stream::Stderr, request, *inner, c, r);
        },
        Expr::Io(Setting::Dir(dir), inner) => {
            lemma_exec_startable(*inner, ContextView { dir, ..c }, r);
        },
        Expr::Io(Setting::Env(name, value), inner) => {
            let env = c.env.insert(name, value);
            lemma_exec_startable(*inner, ContextView { env, ..c }, r);
        },
        Expr::Io(Setting::FullEnv(env), inner) => {
            lemma_exec_startable(*inner, ContextView { env, ..c }, r);
        },
        Expr::Io(Setting::Unchecked, inner) => {
            lemma_exec_startable(*inner, c, r);
        },
    }
}

/// A command asks for one launch, before anything else, and that launch has a program exactly if
/// the command has a word.
pub proof fn a_command_has_a_program_if_it_has_a_word(
    argv: Seq<Seq<u8>>,
    c: ContextView,
    r: Seq<ReplyView>,
)
    ensures
        ({
            let ops = exec(Expr::Argv(argv), c, r).ops;
            &&& ops[0] == Op::Ask(RequestView::Launch(semantics::launch_of(argv, c)))
            &&& forall|i: int| 0 < i < ops.len() ==> #[trigger] ops[i] is Close
            &&& startable(ops[0]->Ask_0) <==> argv.len() > 0
        }),
{
}

/// Where every command of an expression has a word, only launches with a program are asked for, and
/// only expressions are forked of which that is true as well.
pub proof fn worded_expressions_can_be_started(e: Expr, c: ContextView, r: Seq<ReplyView>)
    requires
        worded(e),
    ensures
        all_startable(exec(e, c, r).ops),
{
    lemma_exec_startable(e, c, r);
}

proof fn lemma_executed_startable(
    e: Expr,
    c: ContextView,
    stdout: Worker,
    stderr: Worker,
    r: Seq<ReplyView>,
)
    requires
        worded(e),
    ensures
        all_startable(semantics::executed(stdout, stderr, exec(e, c, r)).ops),
{
    let t = exec(e, c, r);
    lemma_exec_startable(e, c, r);
    match t.end {
        None => {},
        Some(Err(_)) => {
            assert(t.ops + Seq::<Op>::empty() =~= t.ops);
        },
        Some(Ok(status)) => {
            let join = ask(RequestView::JoinReader(stdout));
            let over = semantics::stdout_collected(status, stderr, t.rest);
            if let Some(ReplyView::Collected(Ok(bytes))) = head(t.rest) {
                let last = semantics::stderr_collected(status, bytes, tail(t.rest));
                assert(last.ops =~= Seq::empty());
                lemma_startable_after(Seq::empty(), RequestView::JoinReader(stderr), last.ops);
            }
            lemma_startable_concat(t.ops, join);
            lemma_startable_concat(t.ops + join, over.ops);
        },
    }
}

proof fn lemma_inherit_startable(
    e: Expr,
    captures: Captures,
    env: Map<Seq<u8>, Seq<u8>>,
    streams: Seq<Handle>,
    r: Seq<ReplyView>,
)
    requires
        worded(e),
        streams.len() <= 3,
    ensures
        all_startable(semantics::inheriting(e, captures, env, streams, r).ops),
    decreases 3 - streams.len(),
{
    if streams.len() < 3 {
        let t = semantics::stream_inherited(e, captures, env, streams, r);
        if let Some(ReplyView::Inherited(stream)) = head(r) {
            lemma_inherit_startable(e, captures, env, streams.push(stream), tail(r));
        }
        lemma_startable_after(
            streams,
            RequestView::Inherit(semantics::standard(streams.len() as int)),
            t.ops,
        );
    } else {
        let t = semantics::dir_found(e, captures, env, streams, r);
        match head(r) {
            Some(ReplyView::Directory(Ok(dir))) => {
                let c = semantics::first_context(captures, env, streams, dir);
                lemma_executed_startable(e, c, captures.stdout, captures.stderr, tail(r));
            },
            Some(ReplyView::Directory(Err(_))) => {
                let c = semantics::first_context(captures, env, streams, Seq::empty());
                lemma_startable_after(c.handles().reverse(), RequestView::CurrentDir, Seq::empty());
            },
            _ => {},
        }
        lemma_startable_after(streams, RequestView::CurrentDir, t.ops);
    }
}

/// Running an expression whose commands all have words asks only for launches with a program.
pub proof fn worded_expressions_can_be_run(e: Expr, r: Seq<ReplyView>)
    requires
        worded(e),
    ensures
        all_startable(run(e, r).ops),
{
    let none = Seq::<Handle>::empty();
    if let Some(ReplyView::Pipe(stdout_read, stdout_write)) = head(r) {
        let r1 = tail(r);
        if let Some(ReplyView::Started(stdout)) = head(r1) {
            let r2 = tail(r1);
            if let Some(ReplyView::Pipe(stderr_read, stderr_write)) = head(r2) {
                let r3 = tail(r2);
                if let Some(ReplyView::Started(stderr)) = head(r3) {
                    let r4 = tail(r3);
                    let captures = Captures { stdout, stdout_write, stderr, stderr_write };
                    if let Some(ReplyView::Variables(pairs)) = head(r4) {
                        lemma_inherit_startable(
                            e,
                            captures,
                            env::collect(pairs),
                            none,
                            tail(r4),
                        );
                    }
                    lemma_startable_after(
                        none,
                        RequestView::Environment,
                        semantics::variables_listed(e, captures, r4).ops,
                    );
                }
                lemma_startable_after(
                    none,
                    RequestView::StartReader(stderr_read),
                    semantics::stderr_reading(e, stdout, stdout_write, stderr_write, r3).ops,
                );
            }
            lemma_startable_after(
                none,
                RequestView::OpenPipe,
                semantics::stderr_piped(e, stdout, stdout_write, r2).ops,
            );
        }
        lemma_startable_after(
            none,
            RequestView::StartReader(stdout_read),
            semantics::stdout_reading(e, stdout_write, r1).ops,
        );
    }
    lemma_startable_after(none, RequestView::OpenPipe, semantics::stdout_piped(e, r).ops);
}

/// Reading an expression whose commands all have words asks only for launches with a program.
pub proof fn worded_expressions_can_be_read(e: Expr, r: Seq<ReplyView>)
    requires
        worded(e),
    ensures
        all_startable(read(e, r).ops),
{
    worded_expressions_can_be_run(Expr::Io(Setting::Stdout(Sink::Capture), Box::new(e)), r);
}

} // verus!
