//! What running and reading an expression does, written out from beginning to end.

use vstd::prelude::*;

use crate::env;
use crate::error;
use crate::laws;
use crate::laws::Opening;
use crate::model::{
    ContextView, ErrorView, Expr, Op, OutputView, ReplyView, RequestView, Setting, Sink,
    Trace,
};
use crate::os::Stream;
use crate::semantics;
use crate::semantics::{exec, read, run, Captures};

verus! {

/// Whether the reply in this place is of the kind that a run waits for there, before it starts the
/// expression.
pub open spec fn expected(r: Seq<ReplyView>, i: int) -> bool {
    if i == 0 || i == 2 {
        r[i] is Pipe
    } else if i == 1 || i == 3 {
        r[i] is Started
    } else if i == 4 {
        r[i] is Variables
    } else if 5 <= i <= 7 {
        r[i] is Inherited
    } else {
        r[i] is Directory
    }
}

/// The requests that a run makes before it starts the expression.
pub open spec fn preparation(r: Seq<ReplyView>) -> Seq<Op> {
    seq![
        Op::Ask(RequestView::OpenPipe),
        Op::Ask(RequestView::StartReader(r[0]->Pipe_0)),
        Op::Ask(RequestView::OpenPipe),
        Op::Ask(RequestView::StartReader(r[2]->Pipe_0)),
        Op::Ask(RequestView::Environment),
        Op::Ask(RequestView::Inherit(Stream::Stdin)),
        Op::Ask(RequestView::Inherit(Stream::Stdout)),
        Op::Ask(RequestView::Inherit(Stream::Stderr)),
        Op::Ask(RequestView::CurrentDir),
    ]
}

/// The context that a run starts the expression in: the three standard streams that were inherited,
/// the write ends of the two pipes, the directory that was found, and the variables that were
/// listed.
pub open spec fn starting_point(r: Seq<ReplyView>, dir: Seq<u8>) -> ContextView {
    ContextView {
        stdin: r[5]->Inherited_0,
        stdout: r[6]->Inherited_0,
        stderr: r[7]->Inherited_0,
        stdout_capture: r[0]->Pipe_1,
        stderr_capture: r[2]->Pipe_1,
        dir,
        env: env::collect(r[4]->Variables_0),
    }
}

/// A run makes nine requests, waits for the reply to each, and then starts the expression where the
/// current process is. With its status it waits for what the reader of the first pipe and then for
/// what the reader of the second pipe have collected. The output has exactly that status and
/// exactly those bytes. It comes as a success if the status is zero, and in an error otherwise.
pub proof fn a_run_from_beginning_to_end(e: Expr, r: Seq<ReplyView>, dir: Seq<u8>)
    requires
        r.len() >= 9,
        forall|i: int| 0 <= i < 9 ==> #[trigger] expected(r, i),
        r[8] == ReplyView::Directory(Ok(dir)),
    ensures
        ({
            let t = run(e, r);
            let inside = exec(e, starting_point(r, dir), r.skip(9));
            let before = preparation(r) + inside.ops;
            let q = inside.rest;
            let first = seq![Op::Ask(RequestView::JoinReader(r[1]->Started_0))];
            let second = seq![Op::Ask(RequestView::JoinReader(r[3]->Started_0))];
            match inside.end {
                None => t.ops == before && t.end is None,
                Some(Err(error)) => {
                    &&& t.ops == before
                    &&& t.rest == q
                    &&& t.end == Some(Err::<OutputView, ErrorView>(ErrorView::Io(error)))
                },
                Some(Ok(status)) => if !(q.len() > 0 && q[0] is Collected) {
                    t.ops == before + first && t.end is None
                } else {
                    match q[0]->Collected_0 {
                        Err(error) => {
                            &&& t.ops == before + first
                            &&& t.rest == q.drop_first()
                            &&& t.end == Some(Err::<OutputView, ErrorView>(ErrorView::Io(error)))
                        },
                        Ok(stdout) => if !(q.len() > 1 && q[1] is Collected) {
                            t.ops == before + first + second && t.end is None
                        } else {
                            &&& t.ops == before + first + second
                            &&& t.rest == q.skip(2)
                            &&& match q[1]->Collected_0 {
                                Err(error) => t.end == Some(
                                    Err::<OutputView, ErrorView>(ErrorView::Io(error)),
                                ),
                                Ok(stderr) => if status == 0 {
                                    &&& t.end is Some
                                    &&& t.end->0 is Ok
                                    &&& t.end->0->Ok_0.status == 0
                                    &&& t.end->0->Ok_0.stdout == stdout
                                    &&& t.end->0->Ok_0.stderr == stderr
                                } else {
                                    &&& t.end is Some
                                    &&& t.end->0 is Err
                                    &&& t.end->0->Err_0 is Status
                                    &&& t.end->0->Err_0->Status_0.status == status
                                    &&& t.end->0->Err_0->Status_0.stdout == stdout
                                    &&& t.end->0->Err_0->Status_0.stderr == stderr
                                },
                            }
                        },
                    }
                },
            }
        }),
{
    let open = Opening {
        stdout_read: r[0]->Pipe_0,
        stderr_read: r[2]->Pipe_0,
        captures: Captures {
            stdout: r[1]->Started_0,
            stdout_write: r[0]->Pipe_1,
            stderr: r[3]->Started_0,
            stderr_write: r[2]->Pipe_1,
        },
        variables: r[4]->Variables_0,
        stdin: r[5]->Inherited_0,
        stdout: r[6]->Inherited_0,
        stderr: r[7]->Inherited_0,
        dir,
    };
    assert(expected(r, 0) && expected(r, 1) && expected(r, 2) && expected(r, 3) && expected(r, 4)
        && expected(r, 5) && expected(r, 6) && expected(r, 7));
    assert(open.replies() + r.skip(9) =~= r);
    assert(open.steps() =~= preparation(r));
    laws::a_run_starts_where_the_process_is(e, open, r.skip(9));
    let t = run(e, r);
    let inside = exec(e, starting_point(r, dir), r.skip(9));
    let before = preparation(r) + inside.ops;
    let q = inside.rest;
    let first = seq![Op::Ask(RequestView::JoinReader(r[1]->Started_0))];
    let second = seq![Op::Ask(RequestView::JoinReader(r[3]->Started_0))];
    match inside.end {
        None => {},
        Some(Err(_)) => {
            assert(t.ops =~= before);
        },
        Some(Ok(_)) => {
            if q.len() > 0 && q[0] is Collected {
                match q[0]->Collected_0 {
                    Err(_) => {
                        assert(t.ops =~= before + first);
                    },
                    Ok(_) => {
                        assert(t.ops =~= before + first + second);
                        if q.len() > 1 {
                            assert(q.drop_first()[0] == q[1]);
                            assert(q.drop_first().drop_first() =~= q.skip(2));
                        }
                    },
                }
            } else {
                assert(t.ops =~= before + first);
            }
        },
    }
}

/// What a run does after so many of the replies that it waits for at its beginning.
spec fn prepared(e: Expr, r: Seq<ReplyView>, n: int) -> Trace<semantics::RunResult> {
    let captures = Captures {
        stdout: r[1]->Started_0,
        stdout_write: r[0]->Pipe_1,
        stderr: r[3]->Started_0,
        stderr_write: r[2]->Pipe_1,
    };
    let env = env::collect(r[4]->Variables_0);
    let streams = Seq::new((n - 5) as nat, |i: int| r[5 + i]->Inherited_0);
    if n == 0 {
        semantics::stdout_piped(e, r)
    } else if n == 1 {
        semantics::stdout_reading(e, captures.stdout_write, r.skip(1))
    } else if n == 2 {
        semantics::stderr_piped(e, captures.stdout, captures.stdout_write, r.skip(2))
    } else if n == 3 {
        semantics::stderr_reading(
            e,
            captures.stdout,
            captures.stdout_write,
            captures.stderr_write,
            r.skip(3),
        )
    } else if n == 4 {
        semantics::variables_listed(e, captures, r.skip(4))
    } else if n < 8 {
        semantics::stream_inherited(e, captures, env, streams, r.skip(n))
    } else {
        semantics::dir_found(e, captures, env, streams, r.skip(8))
    }
}

/// The requests at the beginning of a run, one by one.
proof fn lemma_prepared(e: Expr, r: Seq<ReplyView>, n: int)
    requires
        0 <= n < 9,
        n <= r.len(),
        forall|i: int| 0 <= i < n ==> #[trigger] expected(r, i),
    ensures
        run(e, r) == prepared(e, r, n).after(preparation(r).take(n + 1)),
    decreases n,
{
    let steps = preparation(r);
    if n == 0 {
        assert(steps.take(1) =~= seq![Op::Ask(RequestView::OpenPipe)]);
    } else {
        let m = n - 1;
        lemma_prepared(e, r, m);
        assert(expected(r, m));
        assert(r.skip(m)[0] == r[m]);
        assert(r.skip(m).drop_first() =~= r.skip(n));
        assert(r.skip(0) =~= r);
        if m >= 4 {
            let before = Seq::new((m - 5) as nat, |i: int| r[5 + i]->Inherited_0);
            let after = Seq::new((n - 5) as nat, |i: int| r[5 + i]->Inherited_0);
            if m == 4 {
                assert(after =~= Seq::empty());
            } else {
                assert(after =~= before.push(r[m]->Inherited_0));
            }
        }
        assert(prepared(e, r, m) == prepared(e, r, n).after(seq![steps[n]]));
        assert(steps.take(n + 1) =~= steps.take(n) + seq![steps[n]]);
        assert(run(e, r) =~= prepared(e, r, n).after(steps.take(n + 1)));
    }
}

/// A run makes its first nine requests one after the other, and waits for the reply to each.
pub proof fn a_run_waits_for_every_reply(e: Expr, r: Seq<ReplyView>, n: int)
    requires
        0 <= n < 9,
        n <= r.len(),
        forall|i: int| 0 <= i < n ==> #[trigger] expected(r, i),
        n == r.len() || !expected(r, n),
    ensures
        run(e, r).ops == preparation(r).take(n + 1),
        run(e, r).end is None,
{
    lemma_prepared(e, r, n);
    if n < r.len() {
        assert(r.skip(n)[0] == r[n]);
    }
    assert(prepared(e, r, n) == Trace::<semantics::RunResult>::stuck());
    assert(run(e, r).ops =~= preparation(r).take(n + 1));
}

/// A run that finds no directory closes the five handles that it has, the latest first, and ends
/// with the error.
pub proof fn a_run_without_a_directory_ends(e: Expr, r: Seq<ReplyView>, error: std::io::Error)
    requires
        r.len() >= 9,
        forall|i: int| 0 <= i < 9 ==> #[trigger] expected(r, i),
        r[8] == ReplyView::Directory(Err(error)),
    ensures
        run(e, r) == (Trace {
            ops: preparation(r) + seq![
                Op::Close(r[2]->Pipe_1),
                Op::Close(r[0]->Pipe_1),
                Op::Close(r[7]->Inherited_0),
                Op::Close(r[6]->Inherited_0),
                Op::Close(r[5]->Inherited_0),
            ],
            rest: r.skip(9),
            end: Some(Err::<OutputView, ErrorView>(ErrorView::Io(error))),
        }),
{
    lemma_prepared(e, r, 8);
    assert(r.skip(8)[0] == r[8]);
    assert(r.skip(8).drop_first() =~= r.skip(9));
    assert(preparation(r).take(9) =~= preparation(r));
    assert(run(e, r).ops =~= preparation(r) + seq![
        Op::Close(r[2]->Pipe_1),
        Op::Close(r[0]->Pipe_1),
        Op::Close(r[7]->Inherited_0),
        Op::Close(r[6]->Inherited_0),
        Op::Close(r[5]->Inherited_0),
    ]);
}

/// Reading takes the steps of running the expression with its standard output captured. An error of
/// that run is the result. Otherwise the output must be UTF-8, and the result is the text that it
/// encodes up to the newlines at its end, all of which are left off.
pub proof fn reading_gives_the_captured_text(e: Expr, r: Seq<ReplyView>)
    ensures
        ({
            let t = read(e, r);
            let captured = run(Expr::Io(Setting::Stdout(Sink::Capture), Box::new(e)), r);
            &&& t.ops == captured.ops
            &&& t.rest == captured.rest
            &&& match captured.end {
                None => t.end is None,
                Some(Err(error)) => t.end == Some(Err::<Seq<char>, ErrorView>(error)),
                Some(Ok(output)) => if vstd::utf8::valid_utf8(output.stdout) {
                    let whole = vstd::utf8::decode_utf8(output.stdout);
                    &&& t.end is Some
                    &&& t.end->0 is Ok
                    &&& ({
                        let text = t.end->0->Ok_0;
                        &&& text.len() <= whole.len()
                        &&& forall|i: int|
                            0 <= i < text.len() ==> #[trigger] text[i] == whole[i]
                        &&& forall|i: int|
                            text.len() <= i < whole.len() ==> #[trigger] whole[i] == '\n'
                        &&& text.len() > 0 ==> text.last() != '\n'
                    })
                } else {
                    t.end == Some(
                        Err::<Seq<char>, ErrorView>(
                            ErrorView::Utf8(error::utf8_error(output.stdout)),
                        ),
                    )
                },
            }
        }),
{
    let captured = run(Expr::Io(Setting::Stdout(Sink::Capture), Box::new(e)), r);
    if let Some(Ok(output)) = captured.end {
        let whole = vstd::utf8::decode_utf8(output.stdout);
        laws::trimming_takes_off_newlines(whole);
        let kept = error::trim_newlines(whole);
        assert(forall|i: int| 0 <= i < kept.len() ==> #[trigger] kept[i] == whole.take(
            kept.len() as int,
        )[i]);
    }
}

/// Captured text comes back whole: what was captured as the encoding of a text and some newlines,
/// where the text itself does not end in one, is read as exactly that text.
pub proof fn captured_text_comes_back_whole(
    e: Expr,
    r: Seq<ReplyView>,
    text: Seq<char>,
    newlines: Seq<char>,
    output: OutputView,
)
    requires
        run(Expr::Io(Setting::Stdout(Sink::Capture), Box::new(e)), r).end == Some(
            Ok::<OutputView, ErrorView>(output),
        ),
        output.stdout == vstd::utf8::encode_utf8(text + newlines),
        forall|i: int| 0 <= i < newlines.len() ==> #[trigger] newlines[i] == '\n',
        text.len() > 0 ==> text.last() != '\n',
    ensures
        read(e, r).end == Some(Ok::<Seq<char>, ErrorView>(text)),
{
    let whole = text + newlines;
    vstd::utf8::encode_utf8_valid_utf8(whole);
    vstd::utf8::encode_utf8_decode_utf8(whole);
    reading_gives_the_captured_text(e, r);
    let found = read(e, r).end->0->Ok_0;
    if found.len() < text.len() {
        assert(whole[text.len() - 1] == text.last());
    }
    if found.len() > text.len() {
        assert(found.last() == whole[found.len() - 1]);
        assert(whole[found.len() - 1] == newlines[found.len() - 1 - text.len()]);
    }
    assert(found =~= text);
}

} // verus!
