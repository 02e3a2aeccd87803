//! What holds of all expressions.

use vstd::prelude::*;

use crate::env;
use crate::error;
use crate::error::trim_newlines;
use crate::expression::{ReadStep, RunStep, TaskStep};
use crate::model::{
    ask, closes, head, tail, ContextView, ErrorView, Expr, Op, OutputView,
    ReplyView, RequestView, Setting, Sink, Source, Trace,
};
use crate::os::{fault_of, Exit, Fault, Handle, Status, Stream, Worker};
use crate::protocol::Next;
use crate::semantics;
use crate::semantics::{exec, read, run, Captures, RunResult};

verus! {

/// A shell command is the command `/bin/sh -c` with the shell command as its last argument.
pub proof fn sh_is_a_command(command: Seq<u8>, c: ContextView, r: Seq<ReplyView>)
    ensures
        exec(Expr::Sh(command), c, r) == exec(Expr::Argv(semantics::shell_argv(command)), c, r),
{
}

/// Ignoring the status changes nothing about what an expression does. It succeeds whatever the
/// status is; errors are still errors.
pub proof fn unchecked_ignores_the_status(e: Expr, c: ContextView, r: Seq<ReplyView>)
    ensures
        ({
            let t = exec(e, c, r);
            let u = exec(Expr::Io(Setting::Unchecked, Box::new(e)), c, r);
            &&& u.ops == t.ops
            &&& u.rest == t.rest
            &&& t.end is None ==> u.end is None
            &&& t.end matches Some(Ok(_)) ==> u.end == Some(Ok::<Status, std::io::Error>(0))
            &&& t.end matches Some(Err(x)) ==> u.end == Some(Err::<Status, std::io::Error>(x))
        }),
{
    reveal_with_fuel(semantics::exec, 2);
}

/// Ignoring the status twice is ignoring it once.
pub proof fn unchecked_is_idempotent(e: Expr, c: ContextView, r: Seq<ReplyView>)
    ensures
        ({
            let once = Expr::Io(Setting::Unchecked, Box::new(e));
            exec(Expr::Io(Setting::Unchecked, Box::new(once)), c, r) == exec(once, c, r)
        }),
{
    reveal_with_fuel(semantics::exec, 3);
}

/// The trace of the first expression of a sequence, if there is one: its context must have been
/// duplicated.
pub open spec fn first_of(left: Expr, c: ContextView, r: Seq<ReplyView>) -> Option<Trace<Exit>> {
    let t = semantics::clone_context(c, Seq::empty(), r);
    match t.end {
        Some(Ok(copy)) => Some(exec(left, copy, t.rest)),
        _ => None,
    }
}

/// If the first expression of a sequence does not succeed, the second does not matter: nothing of
/// it is run, and the sequence ends as the first expression did.
pub proof fn then_stops_after_failure(
    left: Expr,
    right: Expr,
    other: Expr,
    c: ContextView,
    r: Seq<ReplyView>,
)
    requires
        first_of(left, c, r) matches Some(first) ==> first.end != Some(
            Ok::<Status, std::io::Error>(0),
        ),
    ensures
        exec(Expr::Then(Box::new(left), Box::new(right)), c, r) == exec(
            Expr::Then(Box::new(left), Box::new(other)),
            c,
            r,
        ),
        first_of(left, c, r) matches Some(first) ==> exec(
            Expr::Then(Box::new(left), Box::new(right)),
            c,
            r,
        ).end == first.end,
{
    let t = semantics::clone_context(c, Seq::empty(), r);
    let whole = semantics::then_cloned(left, right, c, t);
    let instead = semantics::then_cloned(left, other, c, t);
    if let Some(Ok(copy)) = t.end {
        let first = exec(left, copy, t.rest);
        assert(whole == semantics::then_left(right, c, first).after(t.ops));
        assert(instead == semantics::then_left(other, c, first).after(t.ops));
    }
}

/// If the first expression of a sequence succeeds, the second runs in the context that the
/// sequence was given, and the sequence ends as the second expression does.
pub proof fn then_goes_on_after_success(
    left: Expr,
    right: Expr,
    c: ContextView,
    r: Seq<ReplyView>,
)
    requires
        first_of(left, c, r) matches Some(first) && first.end == Some(
            Ok::<Status, std::io::Error>(0),
        ),
    ensures
        ({
            let whole = exec(Expr::Then(Box::new(left), Box::new(right)), c, r);
            let first = first_of(left, c, r)->0;
            let second = exec(right, c, first.rest);
            let copying = semantics::clone_context(c, Seq::empty(), r).ops;
            &&& whole.ops == copying + first.ops + second.ops
            &&& whole.rest == second.rest
            &&& whole.end == second.end
        }),
{
    let whole = exec(Expr::Then(Box::new(left), Box::new(right)), c, r);
    let first = first_of(left, c, r)->0;
    let t = semantics::clone_context(c, Seq::empty(), r);
    assert(whole == semantics::then_cloned(left, right, c, t));
    assert(whole == semantics::then_left(right, c, first).after(t.ops));
    let second = exec(right, c, first.rest);
    let copying = semantics::clone_context(c, Seq::empty(), r).ops;
    assert(whole.ops =~= copying + first.ops + second.ops);
}

/// A pipe succeeds exactly if both sides do, and it fails with an error exactly if one side does.
pub proof fn pipe_succeeds_if_both_sides_do(left: Exit, right: Exit)
    ensures
        semantics::pipe_exit(left, right) == Ok::<Status, std::io::Error>(0) <==> left == Ok::<
            Status,
            std::io::Error,
        >(0) && right == Ok::<Status, std::io::Error>(0),
        semantics::pipe_exit(left, right) is Err <==> left is Err || right is Err,
        right is Err ==> semantics::pipe_exit(left, right) == right,
        left is Ok && right is Ok && right != Ok::<Status, std::io::Error>(0)
            ==> semantics::pipe_exit(left, right) == right,
{
}

/// It does not matter how a pipeline is grouped: the status or error that it ends with is that of
/// the last side with an error, or else of the last side that failed.
pub proof fn pipe_exits_associate(first: Exit, second: Exit, third: Exit)
    ensures
        semantics::pipe_exit(semantics::pipe_exit(first, second), third) == semantics::pipe_exit(
            first,
            semantics::pipe_exit(second, third),
        ),
{
}

/// What a duplicated handle is answered with.
pub open spec fn copied(copies: Seq<Handle>) -> Seq<ReplyView> {
    copies.map_values(|copy: Handle| ReplyView::Opened(Ok(copy)))
}

/// Duplicating a context asks for a duplicate of each handle in turn.
pub(crate) proof fn lemma_clone_succeeds(
    c: ContextView,
    done: Seq<Handle>,
    copies: Seq<Handle>,
    r: Seq<ReplyView>,
)
    requires
        done.len() + copies.len() == 5,
    ensures
        semantics::clone_context(c, done, copied(copies) + r) == (Trace {
            ops: c.handles().skip(done.len() as int).map_values(
                |h: Handle| Op::Ask(RequestView::Duplicate(h)),
            ),
            rest: r,
            end: Some(Ok::<ContextView, std::io::Error>(c.with_handles(done + copies))),
        }),
    decreases copies.len(),
{
    let asked = |h: Handle| Op::Ask(RequestView::Duplicate(h));
    let n = done.len() as int;
    if copies.len() == 0 {
        assert(copied(copies) + r =~= r);
        assert(done + copies =~= done);
        assert(c.handles().skip(n).map_values(asked) =~= Seq::empty());
    } else {
        let next = copies.drop_first();
        let replies = copied(copies) + r;
        assert(head(replies) == Some(ReplyView::Opened(Ok(copies[0]))));
        assert(tail(replies) =~= copied(next) + r);
        assert(done.push(copies[0]) + next =~= done + copies);
        lemma_clone_succeeds(c, done.push(copies[0]), next, r);
        assert(c.handles().skip(n).map_values(asked) =~= ask(
            RequestView::Duplicate(c.handles()[n]),
        ) + c.handles().skip(n + 1).map_values(asked));
    }
}

/// A pipe connects its sides: the left one runs in a copy of the context that writes into the
/// pipe, the right one in the context itself but reads from the pipe, and nobody else keeps an end
/// of it.
pub proof fn pipe_connects_both_sides(
    left: Expr,
    right: Expr,
    c: ContextView,
    read: Handle,
    write: Handle,
    copies: Seq<Handle>,
    left_exit: Exit,
    right_exit: Exit,
    r: Seq<ReplyView>,
)
    requires
        copies.len() == 5,
    ensures
        ({
            let copy = c.with_handles(copies);
            let replies = seq![ReplyView::Pipe(read, write)] + copied(copies) + seq![
                ReplyView::Forked(left_exit, right_exit),
            ] + r;
            exec(Expr::Pipe(Box::new(left), Box::new(right)), c, replies) == (Trace {
                ops: ask(RequestView::OpenPipe) + c.handles().map_values(
                    |h: Handle| Op::Ask(RequestView::Duplicate(h)),
                ) + closes(seq![copy.stdout, c.stdin]) + ask(
                    RequestView::Fork(
                        left,
                        ContextView { stdout: write, ..copy },
                        right,
                        ContextView { stdin: read, ..c },
                    ),
                ),
                rest: r,
                end: Some(semantics::pipe_exit(left_exit, right_exit)),
            })
        }),
{
    let none = Seq::<Handle>::empty();
    let copy = c.with_handles(copies);
    let forked = seq![ReplyView::Forked(left_exit, right_exit)] + r;
    let replies = seq![ReplyView::Pipe(read, write)] + copied(copies) + seq![
        ReplyView::Forked(left_exit, right_exit),
    ] + r;
    assert(tail(replies) =~= copied(copies) + forked);
    assert(none + copies =~= copies);
    assert(c.handles().skip(0) =~= c.handles());
    assert(tail(forked) =~= r);
    lemma_clone_succeeds(c, none, copies, forked);
    let asked = |h: Handle| Op::Ask(RequestView::Duplicate(h));
    let whole = exec(Expr::Pipe(Box::new(left), Box::new(right)), c, replies);
    let fork = RequestView::Fork(
        left,
        ContextView { stdout: write, ..copy },
        right,
        ContextView { stdin: read, ..c },
    );
    assert(whole.ops =~= ask(RequestView::OpenPipe) + c.handles().map_values(asked) + closes(
        seq![copy.stdout, c.stdin],
    ) + ask(fork));
}

/// That a command ended before it had read all of its input is no error. Any other trouble of the
/// writer is one, unless the command itself could not be run, which comes first.
pub proof fn unread_input_is_no_error(exit: Exit, error: std::io::Error)
    ensures
        fault_of(error) == Fault::BrokenPipe ==> semantics::written_exit(exit, Err(error)) == exit,
        semantics::written_exit(exit, Ok(())) == exit,
        exit is Ok && fault_of(error) != Fault::BrokenPipe ==> semantics::written_exit(
            exit,
            Err(error),
        ) == Err::<Status, std::io::Error>(error),
        exit is Err ==> semantics::written_exit(exit, Err(error)) == exit,
{
}

/// The directory that is set closest to a command is the one that holds.
pub proof fn nearest_dir_holds(
    e: Expr,
    near: Seq<u8>,
    far: Seq<u8>,
    c: ContextView,
    r: Seq<ReplyView>,
)
    ensures
        ({
            let inner = Expr::Io(Setting::Dir(near), Box::new(e));
            exec(Expr::Io(Setting::Dir(far), Box::new(inner)), c, r) == exec(inner, c, r)
        }),
{
    reveal_with_fuel(semantics::exec, 3);
}

/// The value that is set closest to a command is the one that holds.
pub proof fn nearest_env_holds(
    e: Expr,
    name: Seq<u8>,
    near: Seq<u8>,
    far: Seq<u8>,
    c: ContextView,
    r: Seq<ReplyView>,
)
    ensures
        ({
            let inner = Expr::Io(Setting::Env(name, near), Box::new(e));
            exec(Expr::Io(Setting::Env(name, far), Box::new(inner)), c, r) == exec(inner, c, r)
        }),
{
    reveal_with_fuel(semantics::exec, 3);
    assert(c.env.insert(name, far).insert(name, near) =~= c.env.insert(name, near));
}

/// It does not matter in which order variables with different names are set.
pub proof fn env_order_does_not_matter(
    e: Expr,
    first: (Seq<u8>, Seq<u8>),
    second: (Seq<u8>, Seq<u8>),
    c: ContextView,
    r: Seq<ReplyView>,
)
    requires
        first.0 != second.0,
    ensures
        ({
            let one = Expr::Io(Setting::Env(first.0, first.1), Box::new(e));
            let two = Expr::Io(Setting::Env(second.0, second.1), Box::new(e));
            exec(Expr::Io(Setting::Env(second.0, second.1), Box::new(one)), c, r) == exec(
                Expr::Io(Setting::Env(first.0, first.1), Box::new(two)),
                c,
                r,
            )
        }),
{
    reveal_with_fuel(semantics::exec, 3);
    assert(c.env.insert(first.0, first.1).insert(second.0, second.1) =~= c.env.insert(
        second.0,
        second.1,
    ).insert(first.0, first.1));
}

/// Replacing the whole environment leaves nothing of what was there before: neither of what the
/// current process has nor of what was set further out.
pub proof fn full_env_replaces_everything(
    e: Expr,
    env: Map<Seq<u8>, Seq<u8>>,
    name: Seq<u8>,
    value: Seq<u8>,
    outer: Map<Seq<u8>, Seq<u8>>,
    c: ContextView,
    r: Seq<ReplyView>,
)
    ensures
        ({
            let inner = Expr::Io(Setting::FullEnv(env), Box::new(e));
            &&& exec(Expr::Io(Setting::Env(name, value), Box::new(inner)), c, r) == exec(
                inner,
                c,
                r,
            )
            &&& exec(Expr::Io(Setting::FullEnv(outer), Box::new(inner)), c, r) == exec(inner, c, r)
            &&& exec(inner, ContextView { env: outer, ..c }, r) == exec(inner, c, r)
        }),
{
    reveal_with_fuel(semantics::exec, 3);
}

/// What the operating system hands out for a redirection: the new handle, and, where the input is a
/// byte string, the other end of the pipe and the thread that writes into it.
pub struct Provision {
    pub handle: Handle,
    pub write: Handle,
    pub writer: Worker,
}

/// The standard stream that a setting redirects, if any.
pub open spec fn stream_of(setting: Setting) -> Option<Stream> {
    match setting {
        Setting::Stdin(_) => Some(Stream::Stdin),
        Setting::Stdout(_) => Some(Stream::Stdout),
        Setting::Stderr(_) => Some(Stream::Stderr),
        _ => None,
    }
}

/// The replies by which a setting is put into effect.
pub open spec fn setting_replies(setting: Setting, given: Provision) -> Seq<ReplyView> {
    match setting {
        Setting::Stdin(Source::Bytes(_)) => seq![
            ReplyView::Pipe(given.handle, given.write),
            ReplyView::Started(given.writer),
        ],
        Setting::Stdin(_) | Setting::Stdout(_) | Setting::Stderr(_) => seq![
            ReplyView::Opened(Ok(given.handle)),
        ],
        _ => Seq::empty(),
    }
}

/// The steps by which a setting is put into effect in a context.
pub open spec fn setting_steps(setting: Setting, c: ContextView, given: Provision) -> Seq<Op> {
    match setting {
        Setting::Stdin(Source::Bytes(input)) => ask(RequestView::OpenPipe) + ask(
            RequestView::StartWriter(given.write, input),
        ) + closes(seq![c.stdin]),
        Setting::Stdin(source) => ask(semantics::input_request(source)) + closes(seq![c.stdin]),
        Setting::Stdout(sink) => ask(
            semantics::output_request(sink, c.stdout, c.stderr, c.stdout_capture),
        ) + closes(seq![c.stdout]),
        Setting::Stderr(sink) => ask(
            semantics::output_request(sink, c.stdout, c.stderr, c.stderr_capture),
        ) + closes(seq![c.stderr]),
        _ => Seq::empty(),
    }
}

/// The context with a setting in effect.
pub open spec fn setting_context(
    setting: Setting,
    c: ContextView,
    given: Provision,
) -> ContextView {
    match setting {
        Setting::Stdin(_) => ContextView { stdin: given.handle, ..c },
        Setting::Stdout(_) => ContextView { stdout: given.handle, ..c },
        Setting::Stderr(_) => ContextView { stderr: given.handle, ..c },
        Setting::Dir(dir) => ContextView { dir, ..c },
        Setting::Env(name, value) => ContextView { env: c.env.insert(name, value), ..c },
        Setting::FullEnv(env) => ContextView { env, ..c },
        Setting::Unchecked => c,
    }
}

/// What a setting makes of the expression that it is made for: a writer is waited for, or the
/// status is ignored.
pub open spec fn setting_served(setting: Setting, given: Provision, t: Trace<Exit>) -> Trace<Exit> {
    match setting {
        Setting::Stdin(Source::Bytes(_)) => semantics::fed(given.writer, t),
        Setting::Unchecked => semantics::unchecked(t),
        _ => t,
    }
}

/// A setting changes one thing about the context and nothing else. A redirected stream is closed
/// before the expression runs, and a writer is waited for afterwards.
pub proof fn a_setting_changes_one_thing(
    e: Expr,
    setting: Setting,
    c: ContextView,
    given: Provision,
    r: Seq<ReplyView>,
)
    ensures
        exec(Expr::Io(setting, Box::new(e)), c, setting_replies(setting, given) + r)
            == setting_served(
            setting,
            given,
            exec(e, setting_context(setting, c, given), r),
        ).after(setting_steps(setting, c, given)),
{
    let replies = setting_replies(setting, given) + r;
    let inside = exec(e, setting_context(setting, c, given), r);
    let whole = exec(Expr::Io(setting, Box::new(e)), c, replies);
    let steps = setting_steps(setting, c, given);
    match setting {
        Setting::Stdin(Source::Bytes(input)) => {
            assert(tail(replies) =~= seq![ReplyView::Started(given.writer)] + r);
            assert(tail(tail(replies)) =~= r);
            let piped = semantics::input_piped(e, c, input, replies);
            let started = semantics::writer_started(e, c, given.handle, tail(replies));
            assert(whole == piped.after(ask(RequestView::OpenPipe)));
            assert(piped == started.after(ask(RequestView::StartWriter(given.write, input))));
            assert(started == semantics::fed(given.writer, inside).after(closes(seq![c.stdin])));
        },
        Setting::Stdin(source) => {
            assert(tail(replies) =~= r);
            let opened = semantics::redirected(Stream::Stdin, e, c, replies);
            assert(whole == opened.after(ask(semantics::input_request(source))));
            assert(opened == inside.after(closes(seq![c.stdin])));
        },
        Setting::Stdout(sink) => {
            assert(tail(replies) =~= r);
            let request = semantics::output_request(sink, c.stdout, c.stderr, c.stdout_capture);
            let opened = semantics::redirected(Stream::Stdout, e, c, replies);
            assert(whole == opened.after(ask(request)));
            assert(opened == inside.after(closes(seq![c.stdout])));
        },
        Setting::Stderr(sink) => {
            assert(tail(replies) =~= r);
            let request = semantics::output_request(sink, c.stdout, c.stderr, c.stderr_capture);
            let opened = semantics::redirected(Stream::Stderr, e, c, replies);
            assert(whole == opened.after(ask(request)));
            assert(opened == inside.after(closes(seq![c.stderr])));
        },
        _ => {
            assert(replies =~= r);
            reveal_with_fuel(semantics::exec, 2);
        },
    }
    assert(whole =~= setting_served(setting, given, inside).after(steps));
}

/// Where settings are nested, of whatever kinds, the inner one applies to what the outer one has
/// made of the context.
pub proof fn inner_settings_apply_to_outer_ones(
    e: Expr,
    near: Setting,
    far: Setting,
    c: ContextView,
    outer: Provision,
    inner: Provision,
    r: Seq<ReplyView>,
)
    ensures
        ({
            let once = Expr::Io(near, Box::new(e));
            let replies = setting_replies(far, outer) + (setting_replies(near, inner) + r);
            let changed = setting_context(far, c, outer);
            exec(Expr::Io(far, Box::new(once)), c, replies) == setting_served(
                far,
                outer,
                setting_served(
                    near,
                    inner,
                    exec(e, setting_context(near, changed, inner), r),
                ).after(setting_steps(near, changed, inner)),
            ).after(setting_steps(far, c, outer))
        }),
{
    let once = Expr::Io(near, Box::new(e));
    a_setting_changes_one_thing(once, far, c, outer, setting_replies(near, inner) + r);
    a_setting_changes_one_thing(e, near, setting_context(far, c, outer), inner, r);
}

/// Where a standard stream is redirected twice, the expression meets what was opened closest to it.
/// The outer redirection is opened first, and is closed again before the expression runs.
pub proof fn nearest_redirection_holds(
    e: Expr,
    stream: Stream,
    near: Setting,
    far: Setting,
    c: ContextView,
    outer: Provision,
    inner: Provision,
    r: Seq<ReplyView>,
)
    requires
        stream_of(near) == Some(stream),
        stream_of(far) == Some(stream),
    ensures
        ({
            let once = Expr::Io(near, Box::new(e));
            let replies = setting_replies(far, outer) + (setting_replies(near, inner) + r);
            let changed = c.with_stream(stream, outer.handle);
            exec(Expr::Io(far, Box::new(once)), c, replies) == setting_served(
                far,
                outer,
                setting_served(
                    near,
                    inner,
                    exec(e, c.with_stream(stream, inner.handle), r),
                ).after(setting_steps(near, changed, inner)),
            ).after(setting_steps(far, c, outer))
        }),
{
    inner_settings_apply_to_outer_ones(e, near, far, c, outer, inner, r);
    assert(setting_context(near, setting_context(far, c, outer), inner) == c.with_stream(
        stream,
        inner.handle,
    ));
}

/// Whether two settings have nothing to do with each other and nothing to ask for: one is about the
/// directory, the other about the environment, or one of them about the status.
pub open spec fn independent(one: Setting, other: Setting) -> bool {
    &&& stream_of(one) is None
    &&& stream_of(other) is None
    &&& one is Dir || other is Dir || one is Unchecked || other is Unchecked
    &&& !(one is Dir && other is Dir)
}

/// It does not matter in which order settings are made that have nothing to do with each other.
pub proof fn independent_settings_commute(
    e: Expr,
    one: Setting,
    other: Setting,
    c: ContextView,
    r: Seq<ReplyView>,
)
    requires
        independent(one, other),
    ensures
        exec(Expr::Io(one, Box::new(Expr::Io(other, Box::new(e)))), c, r) == exec(
            Expr::Io(other, Box::new(Expr::Io(one, Box::new(e)))),
            c,
            r,
        ),
{
    reveal_with_fuel(semantics::exec, 3);
}

/// What the operating system hands out before an expression runs: the pipes and threads for what
/// is captured, the environment, the standard streams and the working directory.
pub struct Opening {
    pub stdout_read: Handle,
    pub stderr_read: Handle,
    pub captures: Captures,
    pub variables: Seq<(Seq<u8>, Seq<u8>)>,
    pub stdin: Handle,
    pub stdout: Handle,
    pub stderr: Handle,
    pub dir: Seq<u8>,
}

impl Opening {
    /// The replies by which all that is handed out.
    pub open spec fn replies(self) -> Seq<ReplyView> {
        seq![
            ReplyView::Pipe(self.stdout_read, self.captures.stdout_write),
            ReplyView::Started(self.captures.stdout),
            ReplyView::Pipe(self.stderr_read, self.captures.stderr_write),
            ReplyView::Started(self.captures.stderr),
            ReplyView::Variables(self.variables),
            ReplyView::Inherited(self.stdin),
            ReplyView::Inherited(self.stdout),
            ReplyView::Inherited(self.stderr),
            ReplyView::Directory(Ok(self.dir)),
        ]
    }

    /// The requests by which it is asked for.
    pub open spec fn steps(self) -> Seq<Op> {
        seq![
            Op::Ask(RequestView::OpenPipe),
            Op::Ask(RequestView::StartReader(self.stdout_read)),
            Op::Ask(RequestView::OpenPipe),
            Op::Ask(RequestView::StartReader(self.stderr_read)),
            Op::Ask(RequestView::Environment),
            Op::Ask(RequestView::Inherit(Stream::Stdin)),
            Op::Ask(RequestView::Inherit(Stream::Stdout)),
            Op::Ask(RequestView::Inherit(Stream::Stderr)),
            Op::Ask(RequestView::CurrentDir),
        ]
    }

    /// The context that the expression runs in.
    pub open spec fn context(self) -> ContextView {
        ContextView {
            stdin: self.stdin,
            stdout: self.stdout,
            stderr: self.stderr,
            stdout_capture: self.captures.stdout_write,
            stderr_capture: self.captures.stderr_write,
            dir: self.dir,
            env: env::collect(self.variables),
        }
    }
}

/// The standard streams are asked for one after the other, and then the working directory.
proof fn lemma_streams_inherited(e: Expr, open: Opening, r: Seq<ReplyView>)
    ensures
        semantics::inheriting(
            e,
            open.captures,
            env::collect(open.variables),
            Seq::empty(),
            open.replies().skip(5) + r,
        ) == semantics::executed(
            open.captures.stdout,
            open.captures.stderr,
            exec(e, open.context(), r),
        ).after(open.steps().skip(5)),
{
    let captures = open.captures;
    let env = env::collect(open.variables);
    let none = Seq::<Handle>::empty();
    let r0 = open.replies().skip(5) + r;
    let r1 = open.replies().skip(6) + r;
    let r2 = open.replies().skip(7) + r;
    let r3 = open.replies().skip(8) + r;
    assert(tail(r0) =~= r1);
    assert(tail(r1) =~= r2);
    assert(tail(r2) =~= r3);
    assert(tail(r3) =~= r);
    let s1 = none.push(open.stdin);
    let s2 = s1.push(open.stdout);
    let s3 = s2.push(open.stderr);
    let done = semantics::executed(captures.stdout, captures.stderr, exec(e, open.context(), r));
    let t3 = semantics::inheriting(e, captures, env, s3, r3);
    let t2 = semantics::inheriting(e, captures, env, s2, r2);
    let t1 = semantics::inheriting(e, captures, env, s1, r1);
    let t0 = semantics::inheriting(e, captures, env, none, r0);
    assert(t3 == done.after(ask(RequestView::CurrentDir)));
    assert(semantics::stream_inherited(e, captures, env, s2, r2) == t3);
    assert(t2 == t3.after(ask(RequestView::Inherit(Stream::Stderr))));
    assert(semantics::stream_inherited(e, captures, env, s1, r1) == t2);
    assert(t1 == t2.after(ask(RequestView::Inherit(Stream::Stdout))));
    assert(semantics::stream_inherited(e, captures, env, none, r0) == t1);
    assert(t0 == t1.after(ask(RequestView::Inherit(Stream::Stdin))));
    assert(t0 =~= done.after(open.steps().skip(5)));
}

/// A run sets up two pipes whose other ends are read by threads, inherits the environment, the
/// standard streams and the working directory of the current process, and runs the expression in
/// the context that these make up.
pub proof fn a_run_starts_where_the_process_is(e: Expr, open: Opening, r: Seq<ReplyView>)
    ensures
        run(e, open.replies() + r) == semantics::executed(
            open.captures.stdout,
            open.captures.stderr,
            exec(e, open.context(), r),
        ).after(open.steps()),
{
    let captures = open.captures;
    let r0 = open.replies() + r;
    let r1 = open.replies().skip(1) + r;
    let r2 = open.replies().skip(2) + r;
    let r3 = open.replies().skip(3) + r;
    let r4 = open.replies().skip(4) + r;
    let r5 = open.replies().skip(5) + r;
    assert(tail(r0) =~= r1);
    assert(tail(r1) =~= r2);
    assert(tail(r2) =~= r3);
    assert(tail(r3) =~= r4);
    assert(tail(r4) =~= r5);
    let done = semantics::executed(captures.stdout, captures.stderr, exec(e, open.context(), r));
    lemma_streams_inherited(e, open, r);
    let t5 = semantics::variables_listed(e, captures, r4);
    assert(t5 == done.after(open.steps().skip(5)));
    let t4 = semantics::stderr_reading(
        e,
        captures.stdout,
        captures.stdout_write,
        captures.stderr_write,
        r3,
    );
    assert(t4 == t5.after(ask(RequestView::Environment)));
    let t3 = semantics::stderr_piped(e, captures.stdout, captures.stdout_write, r2);
    assert(t3 == t4.after(ask(RequestView::StartReader(open.stderr_read))));
    let t2 = semantics::stdout_reading(e, captures.stdout_write, r1);
    assert(t2 == t3.after(ask(RequestView::OpenPipe)));
    let t1 = semantics::stdout_piped(e, r0);
    assert(t1 == t2.after(ask(RequestView::StartReader(open.stdout_read))));
    assert(run(e, r0) == t1.after(ask(RequestView::OpenPipe)));
    assert(run(e, r0) =~= done.after(open.steps()));
}

/// When the expression of a run has ended with a status, the run yields that status and exactly the
/// bytes that its two readers collected. A status other than zero makes it an error.
pub proof fn a_run_yields_what_was_captured(
    e: Expr,
    open: Opening,
    r: Seq<ReplyView>,
    status: Status,
    stdout: Seq<u8>,
    stderr: Seq<u8>,
    rest: Seq<ReplyView>,
)
    requires
        exec(e, open.context(), r).end == Some(Ok::<Status, std::io::Error>(status)),
        exec(e, open.context(), r).rest == seq![
            ReplyView::Collected(Ok(stdout)),
            ReplyView::Collected(Ok(stderr)),
        ] + rest,
    ensures
        run(e, open.replies() + r) == (Trace {
            ops: open.steps() + exec(e, open.context(), r).ops + ask(
                RequestView::JoinReader(open.captures.stdout),
            ) + ask(RequestView::JoinReader(open.captures.stderr)),
            rest,
            end: Some(error::judge(OutputView { status, stdout, stderr })),
        }),
{
    a_run_starts_where_the_process_is(e, open, r);
    let t = exec(e, open.context(), r);
    let last = seq![ReplyView::Collected(Ok(stderr))] + rest;
    assert(tail(t.rest) =~= last);
    assert(tail(last) =~= rest);
    assert(run(e, open.replies() + r).ops =~= open.steps() + t.ops + ask(
        RequestView::JoinReader(open.captures.stdout),
    ) + ask(RequestView::JoinReader(open.captures.stderr)));
}

/// When the expression of a run has ended with an error of the operating system, the run does, and
/// nothing is collected.
pub proof fn a_run_passes_errors_on(
    e: Expr,
    open: Opening,
    r: Seq<ReplyView>,
    error: std::io::Error,
)
    requires
        exec(e, open.context(), r).end == Some(Err::<Status, std::io::Error>(error)),
    ensures
        run(e, open.replies() + r) == (Trace {
            ops: open.steps() + exec(e, open.context(), r).ops,
            rest: exec(e, open.context(), r).rest,
            end: Some(Err::<OutputView, ErrorView>(ErrorView::Io(error))),
        }),
{
    a_run_starts_where_the_process_is(e, open, r);
    let t = exec(e, open.context(), r);
    assert(run(e, open.replies() + r).ops =~= open.steps() + t.ops);
}

/// Two expressions do the same in every context.
pub open spec fn alike(one: Expr, other: Expr) -> bool {
    forall|c: ContextView, r: Seq<ReplyView>| #[trigger] exec(one, c, r) == exec(other, c, r)
}

proof fn lemma_alike_inherit(
    one: Expr,
    other: Expr,
    captures: Captures,
    env: Map<Seq<u8>, Seq<u8>>,
    streams: Seq<Handle>,
    r: Seq<ReplyView>,
)
    requires
        alike(one, other),
    ensures
        semantics::inheriting(one, captures, env, streams, r) == semantics::inheriting(
            other,
            captures,
            env,
            streams,
            r,
        ),
    decreases 3 - streams.len(),
{
    if streams.len() < 3 {
        if let Some(ReplyView::Inherited(stream)) = head(r) {
            lemma_alike_inherit(one, other, captures, env, streams.push(stream), tail(r));
        }
        assert(semantics::stream_inherited(one, captures, env, streams, r)
            == semantics::stream_inherited(other, captures, env, streams, r));
    }
}

proof fn lemma_alike_capture(
    one: Expr,
    other: Expr,
    stdout: Worker,
    stdout_write: Handle,
    r: Seq<ReplyView>,
)
    requires
        alike(one, other),
    ensures
        semantics::stderr_piped(one, stdout, stdout_write, r) == semantics::stderr_piped(
            other,
            stdout,
            stdout_write,
            r,
        ),
{
    if let Some(ReplyView::Pipe(_, stderr_write)) = head(r) {
        if let Some(ReplyView::Started(stderr)) = head(tail(r)) {
            if let Some(ReplyView::Variables(pairs)) = head(tail(tail(r))) {
                lemma_alike_inherit(
                    one,
                    other,
                    Captures { stdout, stdout_write, stderr, stderr_write },
                    env::collect(pairs),
                    Seq::empty(),
                    tail(tail(tail(r))),
                );
            }
        }
    }
}

/// Expressions that do the same in every context give the same when they are run and when they
/// are read.
pub proof fn alike_expressions_run_alike(one: Expr, other: Expr, r: Seq<ReplyView>)
    requires
        alike(one, other),
    ensures
        run(one, r) == run(other, r),
        read(one, r) == read(other, r),
{
    lemma_alike_run(one, other, r);
    let capture = Setting::Stdout(Sink::Capture);
    let one_captured = Expr::Io(capture, Box::new(one));
    let other_captured = Expr::Io(capture, Box::new(other));
    assert forall|c: ContextView, r: Seq<ReplyView>| #[trigger]
        exec(one_captured, c, r) == exec(other_captured, c, r) by {
        if let Some(ReplyView::Opened(Ok(stdout))) = head(r) {
            let inside = ContextView { stdout, ..c };
            assert(exec(one, inside, tail(r)) == exec(other, inside, tail(r)));
        }
        assert(semantics::redirected(Stream::Stdout, one, c, r) == semantics::redirected(
            Stream::Stdout,
            other,
            c,
            r,
        ));
    }
    lemma_alike_run(one_captured, other_captured, r);
}

proof fn lemma_alike_run(one: Expr, other: Expr, r: Seq<ReplyView>)
    requires
        alike(one, other),
    ensures
        run(one, r) == run(other, r),
{
    if let Some(ReplyView::Pipe(_, stdout_write)) = head(r) {
        if let Some(ReplyView::Started(stdout)) = head(tail(r)) {
            lemma_alike_capture(one, other, stdout, stdout_write, tail(tail(r)));
        }
    }
}

/// The result of a run is in order: output counts as success exactly if its status is zero. Where
/// `never_fails` holds there is no failing status at all. That output is not text is no concern of
/// a run.
spec fn in_order(result: Option<RunResult>, never_fails: bool) -> bool {
    match result {
        Some(Ok(output)) => output.status == 0,
        Some(Err(ErrorView::Status(output))) => output.status != 0 && !never_fails,
        Some(Err(ErrorView::Utf8(_))) => false,
        _ => true,
    }
}

/// Whether an expression can only end with status zero or an error.
pub open spec fn never_fails(e: Expr) -> bool {
    forall|c: ContextView, r: Seq<ReplyView>|
        (#[trigger] exec(e, c, r)).end matches Some(Ok(status)) ==> status == 0
}

proof fn lemma_inherit_in_order(
    e: Expr,
    captures: Captures,
    env: Map<Seq<u8>, Seq<u8>>,
    streams: Seq<Handle>,
    r: Seq<ReplyView>,
)
    ensures
        in_order(semantics::inheriting(e, captures, env, streams, r).end, never_fails(e)),
    decreases 3 - streams.len(),
{
    if streams.len() < 3 {
        if let Some(ReplyView::Inherited(stream)) = head(r) {
            lemma_inherit_in_order(e, captures, env, streams.push(stream), tail(r));
        }
        assert(in_order(
            semantics::stream_inherited(e, captures, env, streams, r).end,
            never_fails(e),
        ));
    }
}

proof fn lemma_run_in_order(e: Expr, r: Seq<ReplyView>)
    ensures
        in_order(run(e, r).end, never_fails(e)),
{
    if let Some(ReplyView::Pipe(_, stdout_write)) = head(r) {
        if let Some(ReplyView::Started(stdout)) = head(tail(r)) {
            let r2 = tail(tail(r));
            if let Some(ReplyView::Pipe(_, stderr_write)) = head(r2) {
                if let Some(ReplyView::Started(stderr)) = head(tail(r2)) {
                    if let Some(ReplyView::Variables(pairs)) = head(tail(tail(r2))) {
                        lemma_inherit_in_order(
                            e,
                            Captures { stdout, stdout_write, stderr, stderr_write },
                            env::collect(pairs),
                            Seq::empty(),
                            tail(tail(tail(r2))),
                        );
                    }
                }
            }
        }
    }
}

/// A run yields output only if the status is zero, and the error that carries output only if it is
/// not.
pub proof fn run_succeeds_only_with_status_zero(e: Expr, r: Seq<ReplyView>)
    ensures
        run(e, r).end matches Some(Ok(output)) ==> output.status == 0,
        run(e, r).end matches Some(Err(ErrorView::Status(output))) ==> output.status != 0,
        !(run(e, r).end matches Some(Err(ErrorView::Utf8(_)))),
{
    lemma_run_in_order(e, r);
}

/// Running an unchecked expression never fails on account of a status.
pub proof fn unchecked_run_has_no_status_error(e: Expr, r: Seq<ReplyView>)
    ensures
        !(run(Expr::Io(Setting::Unchecked, Box::new(e)), r).end matches Some(
            Err(ErrorView::Status(_)),
        )),
{
    let unchecked = Expr::Io(Setting::Unchecked, Box::new(e));
    assert forall|c: ContextView, r: Seq<ReplyView>|
        ((#[trigger] exec(unchecked, c, r)).end matches Some(Ok(status)) ==> status == 0) by {
        unchecked_ignores_the_status(e, c, r);
    }
    lemma_run_in_order(unchecked, r);
}

/// The result of a run, whatever the status.
pub open spec fn forgiven(result: RunResult) -> RunResult {
    match result {
        Ok(output) => Ok(OutputView { status: 0, ..output }),
        Err(ErrorView::Status(output)) => Ok(OutputView { status: 0, ..output }),
        Err(error) => Err(error),
    }
}

/// A run, with its result taken whatever the status.
pub open spec fn pardoned(t: Trace<RunResult>) -> Trace<RunResult> {
    Trace {
        ops: t.ops,
        rest: t.rest,
        end: match t.end {
            None => None,
            Some(result) => Some(forgiven(result)),
        },
    }
}

/// One expression does what the other does but ignores the status.
spec fn forgives(lenient: Expr, strict: Expr) -> bool {
    forall|c: ContextView, r: Seq<ReplyView>| #[trigger]
        exec(lenient, c, r) == semantics::unchecked(exec(strict, c, r))
}

proof fn lemma_executed_forgives(stdout: Worker, stderr: Worker, t: Trace<Exit>)
    ensures
        semantics::executed(stdout, stderr, semantics::unchecked(t)) == pardoned(
            semantics::executed(stdout, stderr, t),
        ),
{
    if let Some(Ok(status)) = t.end {
        assert(semantics::stdout_collected(0, stderr, t.rest) =~= pardoned(
            semantics::stdout_collected(status, stderr, t.rest),
        ));
    }
    assert(semantics::executed(stdout, stderr, semantics::unchecked(t)) =~= pardoned(
        semantics::executed(stdout, stderr, t),
    ));
}

proof fn lemma_inherit_forgives(
    lenient: Expr,
    strict: Expr,
    captures: Captures,
    env: Map<Seq<u8>, Seq<u8>>,
    streams: Seq<Handle>,
    r: Seq<ReplyView>,
)
    requires
        forgives(lenient, strict),
    ensures
        semantics::inheriting(lenient, captures, env, streams, r) == pardoned(
            semantics::inheriting(strict, captures, env, streams, r),
        ),
    decreases 3 - streams.len(),
{
    if streams.len() < 3 {
        if let Some(ReplyView::Inherited(stream)) = head(r) {
            lemma_inherit_forgives(lenient, strict, captures, env, streams.push(stream), tail(r));
        }
        assert(semantics::stream_inherited(lenient, captures, env, streams, r) =~= pardoned(
            semantics::stream_inherited(strict, captures, env, streams, r),
        ));
    } else {
        if let Some(ReplyView::Directory(Ok(dir))) = head(r) {
            let c = semantics::first_context(captures, env, streams, dir);
            assert(exec(lenient, c, tail(r)) == semantics::unchecked(exec(strict, c, tail(r))));
            lemma_executed_forgives(captures.stdout, captures.stderr, exec(strict, c, tail(r)));
        }
        assert(semantics::dir_found(lenient, captures, env, streams, r) =~= pardoned(
            semantics::dir_found(strict, captures, env, streams, r),
        ));
    }
}

proof fn lemma_run_forgives(lenient: Expr, strict: Expr, r: Seq<ReplyView>)
    requires
        forgives(lenient, strict),
    ensures
        run(lenient, r) == pardoned(run(strict, r)),
{
    if let Some(ReplyView::Pipe(_, stdout_write)) = head(r) {
        if let Some(ReplyView::Started(stdout)) = head(tail(r)) {
            let r2 = tail(tail(r));
            if let Some(ReplyView::Pipe(_, stderr_write)) = head(r2) {
                if let Some(ReplyView::Started(stderr)) = head(tail(r2)) {
                    if let Some(ReplyView::Variables(pairs)) = head(tail(tail(r2))) {
                        lemma_inherit_forgives(
                            lenient,
                            strict,
                            Captures { stdout, stdout_write, stderr, stderr_write },
                            env::collect(pairs),
                            Seq::empty(),
                            tail(tail(tail(r2))),
                        );
                    }
                }
            }
        }
    }
    assert(run(lenient, r) =~= pardoned(run(strict, r)));
}

/// Running an unchecked expression takes the same steps as running the expression. Where that would
/// yield output, as a success or in an error, the output comes as a success with status zero; any
/// other error stays as it is.
pub proof fn an_unchecked_run_forgives_the_status(e: Expr, r: Seq<ReplyView>)
    ensures
        run(Expr::Io(Setting::Unchecked, Box::new(e)), r) == pardoned(run(e, r)),
{
    let lenient = Expr::Io(Setting::Unchecked, Box::new(e));
    assert forall|c: ContextView, r: Seq<ReplyView>| #[trigger]
        exec(lenient, c, r) == semantics::unchecked(exec(e, c, r)) by {
        reveal_with_fuel(semantics::exec, 2);
    }
    lemma_run_forgives(lenient, e, r);
}

/// Reading an unchecked expression gives the text that was captured, whatever the status.
pub proof fn an_unchecked_read_forgives_the_status(e: Expr, r: Seq<ReplyView>)
    ensures
        read(Expr::Io(Setting::Unchecked, Box::new(e)), r) == semantics::decoded(
            pardoned(run(Expr::Io(Setting::Stdout(Sink::Capture), Box::new(e)), r)),
        ),
{
    let unchecked = Expr::Io(Setting::Unchecked, Box::new(e));
    let lenient = Expr::Io(Setting::Stdout(Sink::Capture), Box::new(unchecked));
    let strict = Expr::Io(Setting::Stdout(Sink::Capture), Box::new(e));
    assert forall|c: ContextView, r: Seq<ReplyView>| #[trigger]
        exec(lenient, c, r) == semantics::unchecked(exec(strict, c, r)) by {
        if let Some(ReplyView::Opened(Ok(stdout))) = head(r) {
            let inside = ContextView { stdout, ..c };
            assert(exec(unchecked, inside, tail(r)) == semantics::unchecked(
                exec(e, inside, tail(r)),
            ));
        }
        assert(semantics::redirected(Stream::Stdout, unchecked, c, r) =~= semantics::unchecked(
            semantics::redirected(Stream::Stdout, e, c, r),
        ));
        assert(exec(lenient, c, r) =~= semantics::unchecked(exec(strict, c, r)));
    }
    lemma_run_forgives(lenient, strict, r);
}

/// Trimming a text takes newlines off its end, as many as there are, and nothing else.
pub proof fn trimming_takes_off_newlines(text: Seq<char>)
    ensures
        ({
            let kept = trim_newlines(text);
            &&& kept.len() <= text.len()
            &&& kept == text.take(kept.len() as int)
            &&& forall|i: int| kept.len() <= i < text.len() ==> text[i] == '\n'
            &&& kept.len() > 0 ==> kept.last() != '\n'
        }),
    decreases text.len(),
{
    if text.len() > 0 && text.last() == '\n' {
        let front = text.drop_last();
        trimming_takes_off_newlines(front);
        let kept = trim_newlines(text);
        assert(front.take(kept.len() as int) =~= text.take(kept.len() as int));
        assert forall|i: int| kept.len() <= i < text.len() implies text[i] == '\n' by {
            if i < front.len() {
                assert(front[i] == text[i]);
            }
        }
    } else {
        assert(text.take(text.len() as int) =~= text);
    }
}

/// Reading an expression runs it with its output captured and gives the captured text without the
/// newlines at its end. It gives text only if the run succeeds and the output is UTF-8; otherwise
/// it gives the error of the run, or says that the output is no text.
pub proof fn read_is_a_captured_run(e: Expr, r: Seq<ReplyView>)
    ensures
        ({
            let captured = run(Expr::Io(Setting::Stdout(Sink::Capture), Box::new(e)), r);
            let t = read(e, r);
            &&& t.ops == captured.ops
            &&& t.rest == captured.rest
            &&& t.end is None <==> captured.end is None
            &&& captured.end matches Some(Err(x)) ==> t.end == Some(
                Err::<Seq<char>, ErrorView>(x),
            )
            &&& captured.end matches Some(Ok(output)) ==> if vstd::utf8::valid_utf8(output.stdout) {
                t.end == Some(
                    Ok::<Seq<char>, ErrorView>(
                        trim_newlines(vstd::utf8::decode_utf8(output.stdout)),
                    ),
                )
            } else {
                t.end == Some(
                    Err::<Seq<char>, ErrorView>(ErrorView::Utf8(error::utf8_error(output.stdout))),
                )
            }
        }),
{
}

/// What was captured as the encoding of a text is read back as that text, without the newlines at
/// its end.
pub proof fn captured_text_is_read_back(text: Seq<char>, stderr: Seq<u8>)
    ensures
        error::decode(
            Ok(OutputView { status: 0, stdout: vstd::utf8::encode_utf8(text), stderr }),
        ) == Ok::<Seq<char>, ErrorView>(trim_newlines(text)),
{
    vstd::utf8::encode_utf8_valid_utf8(text);
    vstd::utf8::encode_utf8_decode_utf8(text);
}

/// The step that a request makes, if there is one.
spec fn asked(request: Option<RequestView>) -> Seq<Op> {
    match request {
        Some(request) => ask(request),
        None => Seq::empty(),
    }
}

/// A list of handles to close and a request can be told from the steps that they make.
proof fn lemma_same_steps(
    steps: Seq<Op>,
    one: Seq<Handle>,
    request: Option<RequestView>,
    other: Seq<Handle>,
    instead: Option<RequestView>,
)
    requires
        steps =~= closes(one) + asked(request),
        steps =~= closes(other) + asked(instead),
    ensures
        one == other,
        request == instead,
{
    let same = closes(other) + asked(instead);
    if steps.len() > 0 {
        assert(steps.last() is Ask <==> request is Some);
        assert(same.last() is Ask <==> instead is Some);
    }
    assert(one.len() == other.len());
    assert forall|i: int| 0 <= i < one.len() implies one[i] == other[i] by {
        assert(steps[i] == Op::Close(one[i]));
        assert(same[i] == Op::Close(other[i]));
    }
    assert(one =~= other);
}

/// What happens from a step of a task on determines the step: the handles that it closes, the
/// request that it makes, and the result that it ends with.
pub proof fn a_trace_determines_the_step(one: TaskStep<'_>, other: TaskStep<'_>)
    requires
        forall|r: Seq<ReplyView>| #[trigger] one.trace(r) == other.trace(r),
    ensures
        one.close@ == other.close@,
        match (one.next, other.next) {
            (Next::Ask(request, _), Next::Ask(instead, _)) => request@ == instead@,
            (Next::Done(exit), Next::Done(instead)) => exit == instead,
            _ => false,
        },
{
    let none = Seq::<ReplyView>::empty();
    assert(one.trace(none) == other.trace(none));
    if let Next::Ask(_, waiting) = one.next {
        waiting.waits();
    }
    if let Next::Ask(_, waiting) = other.next {
        waiting.waits();
    }
    let steps = one.trace(none).ops;
    lemma_same_steps(steps, one.close@, one.request(), other.close@, other.request());
}

/// What happens from a step of a run on determines the step.
pub proof fn a_trace_determines_the_run_step(one: RunStep<'_>, other: RunStep<'_>)
    requires
        forall|r: Seq<ReplyView>| #[trigger] one.trace(r) == other.trace(r),
    ensures
        one.close@ == other.close@,
        match (one.next, other.next) {
            (Next::Ask(request, _), Next::Ask(instead, _)) => request@ == instead@,
            (Next::Done(result), Next::Done(instead)) => error::run_result(result)
                == error::run_result(instead),
            _ => false,
        },
{
    let none = Seq::<ReplyView>::empty();
    assert(one.trace(none) == other.trace(none));
    if let Next::Ask(_, waiting) = one.next {
        waiting.waits();
    }
    if let Next::Ask(_, waiting) = other.next {
        waiting.waits();
    }
    let steps = one.trace(none).ops;
    lemma_same_steps(steps, one.close@, one.request(), other.close@, other.request());
}

/// What happens from a step of reading on determines the step.
pub proof fn a_trace_determines_the_read_step(one: ReadStep<'_>, other: ReadStep<'_>)
    requires
        forall|r: Seq<ReplyView>| #[trigger] one.trace(r) == other.trace(r),
    ensures
        one.close@ == other.close@,
        match (one.next, other.next) {
            (Next::Ask(request, _), Next::Ask(instead, _)) => request@ == instead@,
            (Next::Done(result), Next::Done(instead)) => error::read_result(result)
                == error::read_result(instead),
            _ => false,
        },
{
    let none = Seq::<ReplyView>::empty();
    assert(one.trace(none) == other.trace(none));
    if let Next::Ask(_, waiting) = one.next {
        waiting.waits();
    }
    if let Next::Ask(_, waiting) = other.next {
        waiting.waits();
    }
    let steps = one.trace(none).ops;
    lemma_same_steps(steps, one.close@, one.request(), other.close@, other.request());
}

} // verus!
