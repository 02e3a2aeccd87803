//! What every kind of expression does, written out step by step.
//!
//! Each law takes one kind of expression and says, for all replies, which requests are made and
//! which handles are closed, in which order, what the parts of the expression are run under, and
//! what comes of it.

use vstd::prelude::*;

use crate::model::{
    ContextView, Expr, Op, ReplyView, RequestView, Setting, Sink, Source, Trace,
};
use crate::os::{fault_of, Exit, Fault, Handle, Status, Stream};
use crate::semantics;
use crate::semantics::{clone_context, exec};

verus! {

/// A command asks for one launch: of exactly its words, with the streams, the directory and the
/// environment of its context. Once it has exited the five handles of the context are closed, and
/// it ends as the launch did.
pub proof fn a_command_is_launched(argv: Seq<Seq<u8>>, c: ContextView, r: Seq<ReplyView>)
    ensures
        ({
            let t = exec(Expr::Argv(argv), c, r);
            &&& t.ops.len() > 0
            &&& t.ops[0] is Ask
            &&& t.ops[0]->Ask_0 is Launch
            &&& ({
                let launch = t.ops[0]->Ask_0->Launch_0;
                &&& launch.argv.len() == argv.len()
                &&& forall|i: int| 0 <= i < argv.len() ==> #[trigger] launch.argv[i] == argv[i]
                &&& launch.stdin == c.stdin
                &&& launch.stdout == c.stdout
                &&& launch.stderr == c.stderr
                &&& launch.dir == c.dir
                &&& launch.env == c.env
            })
            &&& if r.len() > 0 && r[0] is Exited {
                &&& t.ops == seq![
                    t.ops[0],
                    Op::Close(c.stdin),
                    Op::Close(c.stdout),
                    Op::Close(c.stderr),
                    Op::Close(c.stdout_capture),
                    Op::Close(c.stderr_capture),
                ]
                &&& t.rest == r.drop_first()
                &&& t.end == Some(r[0]->Exited_0)
            } else {
                t.ops.len() == 1 && t.end is None
            }
        }),
{
    let t = exec(Expr::Argv(argv), c, r);
    if r.len() > 0 && r[0] is Exited {
        assert(t.ops =~= seq![
            t.ops[0],
            Op::Close(c.stdin),
            Op::Close(c.stdout),
            Op::Close(c.stderr),
            Op::Close(c.stdout_capture),
            Op::Close(c.stderr_capture),
        ]);
    }
}

/// A shell command does what the command with the three words `/bin/sh`, `-c` and the shell command
/// does.
pub proof fn a_shell_command_is_given_to_the_shell(
    command: Seq<u8>,
    c: ContextView,
    r: Seq<ReplyView>,
)
    ensures
        exec(Expr::Sh(command), c, r) == exec(
            Expr::Argv(
                seq![
                    vstd::utf8::encode_utf8("/bin/sh"@),
                    vstd::utf8::encode_utf8("-c"@),
                    command,
                ],
            ),
            c,
            r,
        ),
{
}

/// The first replies are duplicates.
spec fn granted(r: Seq<ReplyView>, n: int) -> bool {
    &&& 0 <= n <= r.len()
    &&& forall|i: int| 0 <= i < n ==> #[trigger] r[i] is Opened && r[i]->Opened_0 is Ok
}

/// The duplicates in the first replies.
spec fn duplicates(r: Seq<ReplyView>, n: int) -> Seq<Handle> {
    Seq::new(n as nat, |i: int| r[i]->Opened_0->Ok_0)
}

/// Duplicating goes on after some duplicates have been made.
proof fn lemma_clone_goes_on(c: ContextView, r: Seq<ReplyView>, n: int)
    requires
        granted(r, n),
        n <= 5,
    ensures
        ({
            let t = clone_context(c, Seq::empty(), r);
            let u = clone_context(c, duplicates(r, n), r.skip(n));
            &&& t.ops == Seq::new(
                n as nat,
                |i: int| Op::Ask(RequestView::Duplicate(c.handles()[i])),
            ) + u.ops
            &&& t.rest == u.rest
            &&& t.end == u.end
        }),
    decreases n,
{
    let t = clone_context(c, Seq::empty(), r);
    let u = clone_context(c, duplicates(r, n), r.skip(n));
    let asked = |i: int| Op::Ask(RequestView::Duplicate(c.handles()[i]));
    if n == 0 {
        assert(duplicates(r, n) =~= Seq::empty());
        assert(r.skip(0) =~= r);
        assert(t.ops =~= Seq::new(0, asked) + u.ops);
    } else {
        let m = n - 1;
        assert(granted(r, m));
        lemma_clone_goes_on(c, r, m);
        let v = clone_context(c, duplicates(r, m), r.skip(m));
        let opened = semantics::handle_cloned(c, duplicates(r, m), r.skip(m));
        assert(r[m] is Opened && r[m]->Opened_0 is Ok);
        assert(r.skip(m)[0] == r[m]);
        assert(r.skip(m).drop_first() =~= r.skip(n));
        assert(duplicates(r, m).push(r[m]->Opened_0->Ok_0) =~= duplicates(r, n));
        assert(opened == u);
        assert(v.ops =~= seq![asked(m)] + u.ops);
        assert(Seq::new(m as nat, asked) + (seq![asked(m)] + u.ops) =~= Seq::new(n as nat, asked)
            + u.ops);
    }
}

/// Duplicating a context asks for a duplicate of each of the five handles in turn. The copy has
/// exactly the duplicates for its handles, and the directory and the environment of the context
/// that it was made from.
pub proof fn a_copy_has_the_same_directory_and_environment(c: ContextView, r: Seq<ReplyView>)
    requires
        r.len() >= 5,
        forall|i: int| 0 <= i < 5 ==> #[trigger] r[i] is Opened && r[i]->Opened_0 is Ok,
    ensures
        clone_context(c, Seq::empty(), r) == (Trace {
            ops: seq![
                Op::Ask(RequestView::Duplicate(c.stdin)),
                Op::Ask(RequestView::Duplicate(c.stdout)),
                Op::Ask(RequestView::Duplicate(c.stderr)),
                Op::Ask(RequestView::Duplicate(c.stdout_capture)),
                Op::Ask(RequestView::Duplicate(c.stderr_capture)),
            ],
            rest: r.skip(5),
            end: Some(
                Ok::<ContextView, std::io::Error>(
                    ContextView {
                        stdin: r[0]->Opened_0->Ok_0,
                        stdout: r[1]->Opened_0->Ok_0,
                        stderr: r[2]->Opened_0->Ok_0,
                        stdout_capture: r[3]->Opened_0->Ok_0,
                        stderr_capture: r[4]->Opened_0->Ok_0,
                        dir: c.dir,
                        env: c.env,
                    },
                ),
            ),
        }),
{
    lemma_clone_goes_on(c, r, 5);
    assert(clone_context(c, Seq::empty(), r).ops =~= seq![
        Op::Ask(RequestView::Duplicate(c.stdin)),
        Op::Ask(RequestView::Duplicate(c.stdout)),
        Op::Ask(RequestView::Duplicate(c.stderr)),
        Op::Ask(RequestView::Duplicate(c.stdout_capture)),
        Op::Ask(RequestView::Duplicate(c.stderr_capture)),
    ]);
}

/// Duplicating a context stops at the first duplicate that is refused: those that were made are
/// closed, the latest first, and the error is the result.
pub proof fn a_refused_copy_is_undone(
    c: ContextView,
    r: Seq<ReplyView>,
    n: int,
    error: std::io::Error,
)
    requires
        0 <= n < 5,
        n < r.len(),
        forall|i: int| 0 <= i < n ==> #[trigger] r[i] is Opened && r[i]->Opened_0 is Ok,
        r[n] == ReplyView::Opened(Err(error)),
    ensures
        ({
            let handles = seq![c.stdin, c.stdout, c.stderr, c.stdout_capture, c.stderr_capture];
            clone_context(c, Seq::empty(), r) == (Trace {
                ops: Seq::new(
                    (n + 1) as nat,
                    |i: int| Op::Ask(RequestView::Duplicate(handles[i])),
                ) + Seq::new(n as nat, |i: int| Op::Close(r[n - 1 - i]->Opened_0->Ok_0)),
                rest: r.skip(n + 1),
                end: Some(Err::<ContextView, std::io::Error>(error)),
            })
        }),
{
    let handles = seq![c.stdin, c.stdout, c.stderr, c.stdout_capture, c.stderr_capture];
    lemma_clone_goes_on(c, r, n);
    assert(r.skip(n)[0] == r[n]);
    assert(r.skip(n).drop_first() =~= r.skip(n + 1));
    let u = clone_context(c, duplicates(r, n), r.skip(n));
    let undone = Seq::new(n as nat, |i: int| Op::Close(r[n - 1 - i]->Opened_0->Ok_0));
    assert(u.ops =~= seq![Op::Ask(RequestView::Duplicate(handles[n]))] + undone);
    assert(clone_context(c, Seq::empty(), r).ops =~= Seq::new(
        (n + 1) as nat,
        |i: int| Op::Ask(RequestView::Duplicate(handles[i])),
    ) + undone);
}

/// Duplicating a context waits for each duplicate.
pub proof fn a_copy_waits_for_its_handles(c: ContextView, r: Seq<ReplyView>, n: int)
    requires
        0 <= n < 5,
        n <= r.len(),
        forall|i: int| 0 <= i < n ==> #[trigger] r[i] is Opened && r[i]->Opened_0 is Ok,
        n == r.len() || !(r[n] is Opened),
    ensures
        ({
            let handles = seq![c.stdin, c.stdout, c.stderr, c.stdout_capture, c.stderr_capture];
            let t = clone_context(c, Seq::empty(), r);
            &&& t.ops == Seq::new(
                (n + 1) as nat,
                |i: int| Op::Ask(RequestView::Duplicate(handles[i])),
            )
            &&& t.end is None
        }),
{
    let handles = seq![c.stdin, c.stdout, c.stderr, c.stdout_capture, c.stderr_capture];
    lemma_clone_goes_on(c, r, n);
    if n < r.len() {
        assert(r.skip(n)[0] == r[n]);
    }
    let u = clone_context(c, duplicates(r, n), r.skip(n));
    assert(u.ops =~= seq![Op::Ask(RequestView::Duplicate(handles[n]))]);
    assert(clone_context(c, Seq::empty(), r).ops =~= Seq::new(
        (n + 1) as nat,
        |i: int| Op::Ask(RequestView::Duplicate(handles[i])),
    ));
}

/// A pipe ends as its left side did, if the right side succeeds or only the left one has an error,
/// and otherwise as its right side did.
pub proof fn a_pipe_ends_as_one_of_its_sides(left: Exit, right: Exit)
    ensures
        right == Ok::<Status, std::io::Error>(0) ==> semantics::pipe_exit(left, right) == left,
        left is Err && right is Ok ==> semantics::pipe_exit(left, right) == left,
        right is Err ==> semantics::pipe_exit(left, right) == right,
        left is Ok && right is Ok && right->Ok_0 != 0 ==> semantics::pipe_exit(left, right)
            == right,
{
}

/// A pipe asks for a pipe and for a copy of its context. Then both sides are started at once: the
/// left one in the copy, writing into the pipe, the right one in the context itself, reading from
/// the pipe. The two handles that are replaced are closed. The pipe ends as its left side if the
/// right one succeeds, or if only the left one has an error, and otherwise as its right side.
pub proof fn a_pipe_runs_both_sides(left: Expr, right: Expr, c: ContextView, r: Seq<ReplyView>)
    ensures
        ({
            let t = exec(Expr::Pipe(Box::new(left), Box::new(right)), c, r);
            &&& t.ops.len() > 0
            &&& t.ops[0] == Op::Ask(RequestView::OpenPipe)
            &&& if r.len() > 0 && r[0] is Pipe {
                let read = r[0]->Pipe_0;
                let write = r[0]->Pipe_1;
                let copying = clone_context(c, Seq::empty(), r.drop_first());
                let before = seq![Op::Ask(RequestView::OpenPipe)] + copying.ops;
                match copying.end {
                    None => t.ops == before && t.end is None,
                    Some(Err(error)) => {
                        &&& t.ops == before + seq![
                            Op::Close(write),
                            Op::Close(read),
                            Op::Close(c.stdin),
                            Op::Close(c.stdout),
                            Op::Close(c.stderr),
                            Op::Close(c.stdout_capture),
                            Op::Close(c.stderr_capture),
                        ]
                        &&& t.rest == copying.rest
                        &&& t.end == Some(Err::<Status, std::io::Error>(error))
                    },
                    Some(Ok(copy)) => {
                        let q = copying.rest;
                        &&& t.ops == before + seq![
                            Op::Close(copy.stdout),
                            Op::Close(c.stdin),
                            Op::Ask(
                                RequestView::Fork(
                                    left,
                                    ContextView {
                                        stdin: copy.stdin,
                                        stdout: write,
                                        stderr: copy.stderr,
                                        stdout_capture: copy.stdout_capture,
                                        stderr_capture: copy.stderr_capture,
                                        dir: copy.dir,
                                        env: copy.env,
                                    },
                                    right,
                                    ContextView {
                                        stdin: read,
                                        stdout: c.stdout,
                                        stderr: c.stderr,
                                        stdout_capture: c.stdout_capture,
                                        stderr_capture: c.stderr_capture,
                                        dir: c.dir,
                                        env: c.env,
                                    },
                                ),
                            ),
                        ]
                        &&& if q.len() > 0 && q[0] is Forked {
                            let l = q[0]->Forked_0;
                            let r = q[0]->Forked_1;
                            &&& t.rest == q.drop_first()
                            &&& t.end == Some(
                                if r is Err || (r->Ok_0 != 0 && l is Ok) {
                                    r
                                } else {
                                    l
                                },
                            )
                        } else {
                            t.end is None
                        }
                    },
                }
            } else {
                t.ops.len() == 1 && t.end is None
            }
        }),
{
    let t = exec(Expr::Pipe(Box::new(left), Box::new(right)), c, r);
    if r.len() > 0 && r[0] is Pipe {
        let read = r[0]->Pipe_0;
        let write = r[0]->Pipe_1;
        let copying = clone_context(c, Seq::empty(), r.drop_first());
        let before = seq![Op::Ask(RequestView::OpenPipe)] + copying.ops;
        match copying.end {
            None => {
                assert(t.ops =~= before);
            },
            Some(Err(_)) => {
                assert(t.ops =~= before + seq![
                    Op::Close(write),
                    Op::Close(read),
                    Op::Close(c.stdin),
                    Op::Close(c.stdout),
                    Op::Close(c.stderr),
                    Op::Close(c.stdout_capture),
                    Op::Close(c.stderr_capture),
                ]);
            },
            Some(Ok(copy)) => {
                assert(t.ops =~= before + seq![
                    Op::Close(copy.stdout),
                    Op::Close(c.stdin),
                    t.ops.last(),
                ]);
            },
        }
    }
}

/// A sequence asks for a copy of its context and runs its first part in it. Only if that succeeds
/// the second part is run, in the context itself; otherwise the context is closed and the sequence
/// ends as its first part did.
pub proof fn a_sequence_runs_its_parts_in_turn(
    left: Expr,
    right: Expr,
    c: ContextView,
    r: Seq<ReplyView>,
)
    ensures
        ({
            let t = exec(Expr::Then(Box::new(left), Box::new(right)), c, r);
            let copying = clone_context(c, Seq::empty(), r);
            let closing = seq![
                Op::Close(c.stdin),
                Op::Close(c.stdout),
                Op::Close(c.stderr),
                Op::Close(c.stdout_capture),
                Op::Close(c.stderr_capture),
            ];
            match copying.end {
                None => t.ops == copying.ops && t.end is None,
                Some(Err(error)) => {
                    &&& t.ops == copying.ops + closing
                    &&& t.rest == copying.rest
                    &&& t.end == Some(Err::<Status, std::io::Error>(error))
                },
                Some(Ok(copy)) => {
                    let first = exec(left, copy, copying.rest);
                    let second = exec(right, c, first.rest);
                    if first.end is None {
                        t.ops == copying.ops + first.ops && t.end is None
                    } else if first.end == Some(Ok::<Status, std::io::Error>(0)) {
                        &&& t.ops == copying.ops + first.ops + second.ops
                        &&& t.rest == second.rest
                        &&& t.end == second.end
                    } else {
                        &&& t.ops == copying.ops + first.ops + closing
                        &&& t.rest == first.rest
                        &&& t.end == first.end
                    }
                },
            }
        }),
{
    let whole = Expr::Then(Box::new(left), Box::new(right));
    let t = exec(whole, c, r);
    let copying = clone_context(c, Seq::empty(), r);
    let closing = seq![
        Op::Close(c.stdin),
        Op::Close(c.stdout),
        Op::Close(c.stderr),
        Op::Close(c.stdout_capture),
        Op::Close(c.stderr_capture),
    ];
    assert(t == semantics::then_cloned(left, right, c, copying));
    match copying.end {
        None => {},
        Some(Err(_)) => {
            assert(t.ops =~= copying.ops + closing);
        },
        Some(Ok(copy)) => {
            let first = exec(left, copy, copying.rest);
            let next = semantics::then_left(right, c, first);
            assert(t == next.after(copying.ops));
            if first.end is None {
                assert(next == first);
            } else if first.end == Some(Ok::<Status, std::io::Error>(0)) {
                let second = exec(right, c, first.rest);
                assert(t.ops =~= copying.ops + first.ops + second.ops);
            } else {
                assert(t.ops =~= copying.ops + first.ops + closing);
            }
        },
    }
}

/// The first command of a sequence is launched with its own words, in the directory and with the
/// environment that the sequence has.
pub proof fn a_sequence_starts_where_it_is(
    argv: Seq<Seq<u8>>,
    right: Expr,
    c: ContextView,
    r: Seq<ReplyView>,
)
    requires
        r.len() >= 5,
        forall|i: int| 0 <= i < 5 ==> #[trigger] r[i] is Opened && r[i]->Opened_0 is Ok,
    ensures
        ({
            let t = exec(Expr::Then(Box::new(Expr::Argv(argv)), Box::new(right)), c, r);
            &&& t.ops.len() > 5
            &&& t.ops[5] is Ask
            &&& t.ops[5]->Ask_0 is Launch
            &&& ({
                let launch = t.ops[5]->Ask_0->Launch_0;
                &&& launch.argv == argv
                &&& launch.stdin == r[0]->Opened_0->Ok_0
                &&& launch.stdout == r[1]->Opened_0->Ok_0
                &&& launch.stderr == r[2]->Opened_0->Ok_0
                &&& launch.dir == c.dir
                &&& launch.env == c.env
            })
        }),
{
    let left = Expr::Argv(argv);
    a_copy_has_the_same_directory_and_environment(c, r);
    a_sequence_runs_its_parts_in_turn(left, right, c, r);
    let copying = clone_context(c, Seq::empty(), r);
    let copy = copying.end->0->Ok_0;
    a_command_is_launched(argv, copy, copying.rest);
    let t = exec(Expr::Then(Box::new(left), Box::new(right)), c, r);
    let first = exec(left, copy, copying.rest);
    assert(t.ops[5] == first.ops[0]);
    assert(t.ops[5]->Ask_0->Launch_0.argv =~= argv);
}

/// Setting a directory runs the expression in that directory, and changes nothing else.
pub proof fn a_directory_is_set(e: Expr, dir: Seq<u8>, c: ContextView, r: Seq<ReplyView>)
    ensures
        exec(Expr::Io(Setting::Dir(dir), Box::new(e)), c, r) == exec(
            e,
            ContextView {
                stdin: c.stdin,
                stdout: c.stdout,
                stderr: c.stderr,
                stdout_capture: c.stdout_capture,
                stderr_capture: c.stderr_capture,
                dir,
                env: c.env,
            },
            r,
        ),
{
    reveal_with_fuel(semantics::exec, 2);
}

/// Setting a variable runs the expression with that variable, and changes no other variable and
/// nothing else.
pub proof fn a_variable_is_set(
    e: Expr,
    name: Seq<u8>,
    value: Seq<u8>,
    env: Map<Seq<u8>, Seq<u8>>,
    c: ContextView,
    r: Seq<ReplyView>,
)
    requires
        env.contains_key(name),
        env[name] == value,
        forall|other: Seq<u8>|
            other != name ==> (#[trigger] env.contains_key(other) <==> c.env.contains_key(other)),
        forall|other: Seq<u8>|
            other != name && c.env.contains_key(other) ==> #[trigger] env[other] == c.env[other],
    ensures
        exec(Expr::Io(Setting::Env(name, value), Box::new(e)), c, r) == exec(
            e,
            ContextView {
                stdin: c.stdin,
                stdout: c.stdout,
                stderr: c.stderr,
                stdout_capture: c.stdout_capture,
                stderr_capture: c.stderr_capture,
                dir: c.dir,
                env,
            },
            r,
        ),
{
    reveal_with_fuel(semantics::exec, 2);
    assert(env =~= c.env.insert(name, value));
}

/// Setting the whole environment runs the expression with exactly that environment, and changes
/// nothing else.
pub proof fn an_environment_is_set(
    e: Expr,
    env: Map<Seq<u8>, Seq<u8>>,
    c: ContextView,
    r: Seq<ReplyView>,
)
    ensures
        exec(Expr::Io(Setting::FullEnv(env), Box::new(e)), c, r) == exec(
            e,
            ContextView {
                stdin: c.stdin,
                stdout: c.stdout,
                stderr: c.stderr,
                stdout_capture: c.stdout_capture,
                stderr_capture: c.stderr_capture,
                dir: c.dir,
                env,
            },
            r,
        ),
{
    reveal_with_fuel(semantics::exec, 2);
}

/// An unchecked expression is run as it is. Any status becomes zero, and errors stay.
pub proof fn a_status_is_ignored(e: Expr, c: ContextView, r: Seq<ReplyView>)
    ensures
        ({
            let t = exec(e, c, r);
            exec(Expr::Io(Setting::Unchecked, Box::new(e)), c, r) == (Trace {
                ops: t.ops,
                rest: t.rest,
                end: match t.end {
                    None => None,
                    Some(Ok(_)) => Some(Ok::<Status, std::io::Error>(0)),
                    Some(Err(error)) => Some(Err::<Status, std::io::Error>(error)),
                },
            })
        }),
{
    reveal_with_fuel(semantics::exec, 2);
    assert(exec(Expr::Io(Setting::Unchecked, Box::new(e)), c, r) =~= semantics::unchecked(
        exec(e, c, r),
    ));
}

/// One request, and what follows if it is answered by a handle, by an error, or not at all.
///
/// With a handle the old one is closed and the expression runs. With an error the context is
/// closed and the error is the result.
pub open spec fn swaps(
    t: Trace<Exit>,
    request: RequestView,
    replaced: Handle,
    c: ContextView,
    inside: Trace<Exit>,
    r: Seq<ReplyView>,
) -> bool {
    if r.len() > 0 && r[0] is Opened {
        match r[0]->Opened_0 {
            Ok(_) => {
                &&& t.ops == seq![Op::Ask(request), Op::Close(replaced)] + inside.ops
                &&& t.rest == inside.rest
                &&& t.end == inside.end
            },
            Err(error) => {
                &&& t.ops == seq![
                    Op::Ask(request),
                    Op::Close(c.stdin),
                    Op::Close(c.stdout),
                    Op::Close(c.stderr),
                    Op::Close(c.stdout_capture),
                    Op::Close(c.stderr_capture),
                ]
                &&& t.rest == r.drop_first()
                &&& t.end == Some(Err::<Status, std::io::Error>(error))
            },
        }
    } else {
        t.ops == seq![Op::Ask(request)] && t.end is None
    }
}

/// A redirection replaces one handle.
proof fn lemma_swaps(
    stream: Stream,
    e: Expr,
    c: ContextView,
    r: Seq<ReplyView>,
    request: RequestView,
)
    ensures
        swaps(
            semantics::redirected(stream, e, c, r).after(seq![Op::Ask(request)]),
            request,
            c.stream(stream),
            c,
            exec(e, c.with_stream(stream, r[0]->Opened_0->Ok_0), r.drop_first()),
            r,
        ),
{
    let t = semantics::redirected(stream, e, c, r).after(seq![Op::Ask(request)]);
    let inside = exec(e, c.with_stream(stream, r[0]->Opened_0->Ok_0), r.drop_first());
    if r.len() > 0 && r[0] is Opened {
        match r[0]->Opened_0 {
            Ok(_) => {
                assert(t.ops =~= seq![Op::Ask(request), Op::Close(c.stream(stream))] + inside.ops);
            },
            Err(_) => {
                assert(t.ops =~= seq![
                    Op::Ask(request),
                    Op::Close(c.stdin),
                    Op::Close(c.stdout),
                    Op::Close(c.stderr),
                    Op::Close(c.stdout_capture),
                    Op::Close(c.stderr_capture),
                ]);
            },
        }
    } else {
        assert(t.ops =~= seq![Op::Ask(request)]);
    }
}

/// Redirecting standard input asks for the null device, for the file at exactly the given path, or
/// for a duplicate of exactly the given file. The handle that comes takes the place of standard
/// input alone.
pub proof fn input_is_redirected(e: Expr, source: Source, c: ContextView, r: Seq<ReplyView>)
    requires
        !(source is Bytes),
    ensures
        ({
            let request = match source {
                Source::Null => RequestView::OpenRead(vstd::utf8::encode_utf8("/dev/null"@)),
                Source::Path(path) => RequestView::OpenRead(path),
                Source::File(file) => RequestView::Duplicate(file),
                Source::Bytes(_) => RequestView::OpenPipe,
            };
            let inside = exec(
                e,
                ContextView {
                    stdin: r[0]->Opened_0->Ok_0,
                    stdout: c.stdout,
                    stderr: c.stderr,
                    stdout_capture: c.stdout_capture,
                    stderr_capture: c.stderr_capture,
                    dir: c.dir,
                    env: c.env,
                },
                r.drop_first(),
            );
            swaps(
                exec(Expr::Io(Setting::Stdin(source), Box::new(e)), c, r),
                request,
                c.stdin,
                c,
                inside,
                r,
            )
        }),
{
    let t = exec(Expr::Io(Setting::Stdin(source), Box::new(e)), c, r);
    let request = semantics::input_request(source);
    assert(t == semantics::redirected(Stream::Stdin, e, c, r).after(seq![Op::Ask(request)]));
    lemma_swaps(Stream::Stdin, e, c, r, request);
}

/// Redirecting standard output asks for the capture pipe of standard output, for the null device,
/// for standard output or standard error as they are in the context, for exactly the given path, or
/// for a duplicate of exactly the given file. The handle that comes takes the place of standard
/// output alone.
pub proof fn stdout_is_redirected(e: Expr, sink: Sink, c: ContextView, r: Seq<ReplyView>)
    ensures
        ({
            let request = match sink {
                Sink::Capture => RequestView::Duplicate(c.stdout_capture),
                Sink::Null => RequestView::OpenWrite(vstd::utf8::encode_utf8("/dev/null"@)),
                Sink::Stdout => RequestView::Duplicate(c.stdout),
                Sink::Stderr => RequestView::Duplicate(c.stderr),
                Sink::Path(path) => RequestView::OpenWrite(path),
                Sink::File(file) => RequestView::Duplicate(file),
            };
            let inside = exec(
                e,
                ContextView {
                    stdin: c.stdin,
                    stdout: r[0]->Opened_0->Ok_0,
                    stderr: c.stderr,
                    stdout_capture: c.stdout_capture,
                    stderr_capture: c.stderr_capture,
                    dir: c.dir,
                    env: c.env,
                },
                r.drop_first(),
            );
            swaps(
                exec(Expr::Io(Setting::Stdout(sink), Box::new(e)), c, r),
                request,
                c.stdout,
                c,
                inside,
                r,
            )
        }),
{
    let t = exec(Expr::Io(Setting::Stdout(sink), Box::new(e)), c, r);
    let request = semantics::output_request(sink, c.stdout, c.stderr, c.stdout_capture);
    assert(t == semantics::redirected(Stream::Stdout, e, c, r).after(seq![Op::Ask(request)]));
    lemma_swaps(Stream::Stdout, e, c, r, request);
}

/// Redirecting standard error asks for the capture pipe of standard error, for the null device,
/// for standard output or standard error as they are in the context, for exactly the given path, or
/// for a duplicate of exactly the given file. The handle that comes takes the place of standard
/// error alone.
pub proof fn stderr_is_redirected(e: Expr, sink: Sink, c: ContextView, r: Seq<ReplyView>)
    ensures
        ({
            let request = match sink {
                Sink::Capture => RequestView::Duplicate(c.stderr_capture),
                Sink::Null => RequestView::OpenWrite(vstd::utf8::encode_utf8("/dev/null"@)),
                Sink::Stdout => RequestView::Duplicate(c.stdout),
                Sink::Stderr => RequestView::Duplicate(c.stderr),
                Sink::Path(path) => RequestView::OpenWrite(path),
                Sink::File(file) => RequestView::Duplicate(file),
            };
            let inside = exec(
                e,
                ContextView {
                    stdin: c.stdin,
                    stdout: c.stdout,
                    stderr: r[0]->Opened_0->Ok_0,
                    stdout_capture: c.stdout_capture,
                    stderr_capture: c.stderr_capture,
                    dir: c.dir,
                    env: c.env,
                },
                r.drop_first(),
            );
            swaps(
                exec(Expr::Io(Setting::Stderr(sink), Box::new(e)), c, r),
                request,
                c.stderr,
                c,
                inside,
                r,
            )
        }),
{
    let t = exec(Expr::Io(Setting::Stderr(sink), Box::new(e)), c, r);
    let request = semantics::output_request(sink, c.stdout, c.stderr, c.stderr_capture);
    assert(t == semantics::redirected(Stream::Stderr, e, c, r).after(seq![Op::Ask(request)]));
    lemma_swaps(Stream::Stderr, e, c, r, request);
}

/// Input bytes come through a pipe that a thread writes exactly these bytes into. The read end
/// takes the place of standard input alone. When the expression has ended, whatever it came to, the
/// thread is waited for. Its error counts only if the expression has none, and only if it is not
/// that the pipe was broken.
pub proof fn input_is_fed(e: Expr, input: Seq<u8>, c: ContextView, r: Seq<ReplyView>)
    ensures
        ({
            let t = exec(Expr::Io(Setting::Stdin(Source::Bytes(input)), Box::new(e)), c, r);
            if !(r.len() > 0 && r[0] is Pipe) {
                t.ops == seq![Op::Ask(RequestView::OpenPipe)] && t.end is None
            } else {
                let start = RequestView::StartWriter(r[0]->Pipe_1, input);
                if !(r.len() > 1 && r[1] is Started) {
                    &&& t.ops == seq![Op::Ask(RequestView::OpenPipe), Op::Ask(start)]
                    &&& t.end is None
                } else {
                    let inside = exec(
                        e,
                        ContextView {
                            stdin: r[0]->Pipe_0,
                            stdout: c.stdout,
                            stderr: c.stderr,
                            stdout_capture: c.stdout_capture,
                            stderr_capture: c.stderr_capture,
                            dir: c.dir,
                            env: c.env,
                        },
                        r.skip(2),
                    );
                    let before = seq![
                        Op::Ask(RequestView::OpenPipe),
                        Op::Ask(start),
                        Op::Close(c.stdin),
                    ] + inside.ops;
                    let q = inside.rest;
                    match inside.end {
                        None => t.ops == before && t.end is None,
                        Some(exit) => {
                            &&& t.ops == before + seq![
                                Op::Ask(RequestView::JoinWriter(r[1]->Started_0)),
                            ]
                            &&& if q.len() > 0 && q[0] is Written {
                                &&& t.rest == q.drop_first()
                                &&& t.end == Some(
                                    match q[0]->Written_0 {
                                        Err(error) => if exit is Ok && fault_of(error)
                                            != Fault::BrokenPipe {
                                            Err::<Status, std::io::Error>(error)
                                        } else {
                                            exit
                                        },
                                        Ok(_) => exit,
                                    },
                                )
                            } else {
                                t.end is None
                            }
                        },
                    }
                }
            }
        }),
{
    let t = exec(Expr::Io(Setting::Stdin(Source::Bytes(input)), Box::new(e)), c, r);
    let piped = semantics::input_piped(e, c, input, r);
    assert(t == piped.after(seq![Op::Ask(RequestView::OpenPipe)]));
    if r.len() > 0 && r[0] is Pipe {
        let read = r[0]->Pipe_0;
        let start = RequestView::StartWriter(r[0]->Pipe_1, input);
        let started = semantics::writer_started(e, c, read, r.drop_first());
        assert(piped == started.after(seq![Op::Ask(start)]));
        if r.len() > 1 && r[1] is Started {
            let writer = r[1]->Started_0;
            let inside = exec(e, ContextView { stdin: read, ..c }, r.skip(2));
            assert(r.drop_first()[0] == r[1]);
            assert(r.drop_first().drop_first() =~= r.skip(2));
            assert(started == semantics::fed(writer, inside).after(seq![Op::Close(c.stdin)]));
            let before = seq![
                Op::Ask(RequestView::OpenPipe),
                Op::Ask(start),
                Op::Close(c.stdin),
            ] + inside.ops;
            match inside.end {
                None => {
                    assert(t.ops =~= before);
                },
                Some(exit) => {
                    assert(t.ops =~= before + seq![Op::Ask(RequestView::JoinWriter(writer))]);
                },
            }
        } else {
            assert(t.ops =~= seq![Op::Ask(RequestView::OpenPipe), Op::Ask(start)]);
        }
    } else {
        assert(t.ops =~= seq![Op::Ask(RequestView::OpenPipe)]);
    }
}

} // verus!
