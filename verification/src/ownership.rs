//! Handles are neither leaked nor used after they are gone.
//!
//! [`settle`] keeps the books over a list of steps and the replies to its requests. Its books do
//! not balance if a handle is closed, handed over or used that is not held at that point.

use vstd::multiset::Multiset;
use vstd::prelude::*;

use crate::env;
use crate::model::{
    ask, closes, tail, ContextView, ErrorView, Expr, Op, ReplyView, RequestView, Setting, Sink,
    Source, Trace,
};
use crate::os::{Exit, Handle, Status, Stream, Worker};
use crate::semantics;
use crate::semantics::Captures;

verus! {

/// The handles in a list, counted.
pub open spec fn bag(handles: Seq<Handle>) -> Multiset<Handle>
    decreases handles.len(),
{
    if handles.len() == 0 {
        Multiset::empty()
    } else {
        Multiset::singleton(handles[0]).add(bag(handles.drop_first()))
    }
}

/// The handles that come with a reply.
pub open spec fn granted(reply: ReplyView) -> Multiset<Handle> {
    match reply {
        ReplyView::Pipe(read, write) => bag(seq![read, write]),
        ReplyView::Inherited(handle) => bag(seq![handle]),
        ReplyView::Opened(Ok(handle)) => bag(seq![handle]),
        _ => Multiset::empty(),
    }
}

/// The handles that are handed over with a request.
pub open spec fn taken(request: RequestView) -> Multiset<Handle> {
    match request {
        RequestView::StartReader(handle) => bag(seq![handle]),
        RequestView::StartWriter(handle, _) => bag(seq![handle]),
        RequestView::Fork(_, left, _, right) => bag(left.handles()).add(bag(right.handles())),
        _ => Multiset::empty(),
    }
}

/// Whether a request may be made while exactly the handles in `live` are held.
///
/// What is handed over must be held. What a request makes use of must be held, or be one of the
/// files that the expression was given. And nothing at all may be held while captured output is
/// waited for: the thread that collects it does not end before every write end of its pipe is
/// closed.
pub open spec fn permitted(
    request: RequestView,
    live: Multiset<Handle>,
    lent: Set<Handle>,
) -> bool {
    match request {
        RequestView::Duplicate(handle) => live.count(handle) > 0 || lent.contains(handle),
        RequestView::Launch(launch) => live.count(launch.stdin) > 0 && live.count(launch.stdout) > 0
            && live.count(launch.stderr) > 0,
        RequestView::JoinReader(_) => live == Multiset::<Handle>::empty(),
        _ => taken(request).subset_of(live),
    }
}

/// Keeps the books over some steps: the handles that are held afterwards, and the replies that
/// were not used. There is no result if a step is not permitted.
pub open spec fn settle(
    ops: Seq<Op>,
    r: Seq<ReplyView>,
    live: Multiset<Handle>,
    lent: Set<Handle>,
) -> Option<(Multiset<Handle>, Seq<ReplyView>)>
    decreases ops.len(),
{
    if ops.len() == 0 {
        Some((live, r))
    } else {
        match ops[0] {
            Op::Close(handle) => if live.count(handle) > 0 {
                settle(ops.drop_first(), r, live.remove(handle), lent)
            } else {
                None
            },
            Op::Ask(request) => if !permitted(request, live, lent) {
                None
            } else if r.len() == 0 {
                settle(ops.drop_first(), r, live.sub(taken(request)), lent)
            } else {
                settle(
                    ops.drop_first(),
                    tail(r),
                    live.sub(taken(request)).add(granted(r[0])),
                    lent,
                )
            },
        }
    }
}

/// The files that an expression was given.
pub open spec fn files(e: Expr) -> Set<Handle>
    decreases e,
{
    match e {
        Expr::Argv(_) => Set::empty(),
        Expr::Sh(_) => Set::empty(),
        Expr::Pipe(left, right) => files(*left).union(files(*right)),
        Expr::Then(left, right) => files(*left).union(files(*right)),
        Expr::Io(Setting::Stdin(Source::File(file)), inner) => files(*inner).insert(file),
        Expr::Io(Setting::Stdout(Sink::File(file)), inner) => files(*inner).insert(file),
        Expr::Io(Setting::Stderr(Sink::File(file)), inner) => files(*inner).insert(file),
        Expr::Io(_, inner) => files(*inner),
    }
}

/// The books over a trace balance: every step is permitted, and when the computation is over
/// exactly the handles in `left` are held.
pub open spec fn balanced<R>(
    t: Trace<R>,
    r: Seq<ReplyView>,
    live: Multiset<Handle>,
    left: Multiset<Handle>,
    lent: Set<Handle>,
) -> bool {
    match settle(t.ops, r, live, lent) {
        None => false,
        Some(books) => t.end is Some ==> books == (left, t.rest),
    }
}

/// The books over two lists of steps are the books over one and then over the other.
proof fn lemma_settle_concat(
    first: Seq<Op>,
    second: Seq<Op>,
    r: Seq<ReplyView>,
    live: Multiset<Handle>,
    lent: Set<Handle>,
)
    ensures
        settle(first + second, r, live, lent) == match settle(first, r, live, lent) {
            None => None,
            Some((held, rest)) => settle(second, rest, held, lent),
        },
    decreases first.len(),
{
    if first.len() == 0 {
        assert(first + second =~= second);
    } else {
        assert((first + second).drop_first() =~= first.drop_first() + second);
        match first[0] {
            Op::Close(handle) => {
                if live.count(handle) > 0 {
                    lemma_settle_concat(first.drop_first(), second, r, live.remove(handle), lent);
                }
            },
            Op::Ask(request) => {
                if permitted(request, live, lent) {
                    let kept = live.sub(taken(request));
                    if r.len() == 0 {
                        lemma_settle_concat(first.drop_first(), second, r, kept, lent);
                    } else {
                        lemma_settle_concat(
                            first.drop_first(),
                            second,
                            tail(r),
                            kept.add(granted(r[0])),
                            lent,
                        );
                    }
                }
            },
        }
    }
}

/// Handles that are held can be closed.
proof fn lemma_settle_closes(
    handles: Seq<Handle>,
    r: Seq<ReplyView>,
    live: Multiset<Handle>,
    left: Multiset<Handle>,
    lent: Set<Handle>,
)
    requires
        live == bag(handles).add(left),
    ensures
        settle(closes(handles), r, live, lent) == Some((left, r)),
    decreases handles.len(),
{
    if handles.len() == 0 {
        assert(live =~= left);
        assert(closes(handles).len() == 0);
    } else {
        let rest = handles.drop_first();
        assert(closes(handles).drop_first() =~= closes(rest));
        assert(live.count(handles[0]) > 0);
        assert(live.remove(handles[0]) =~= bag(rest).add(left));
        lemma_settle_closes(rest, r, live.remove(handles[0]), left, lent);
    }
}

/// Books that balance still do with balanced books before them.
proof fn lemma_balanced_after<R>(
    t: Trace<R>,
    ops: Seq<Op>,
    r: Seq<ReplyView>,
    live: Multiset<Handle>,
    rest: Seq<ReplyView>,
    held: Multiset<Handle>,
    left: Multiset<Handle>,
    lent: Set<Handle>,
)
    requires
        settle(ops, r, live, lent) == Some((held, rest)),
        balanced(t, rest, held, left, lent),
    ensures
        balanced(t.after(ops), r, live, left, lent),
{
    lemma_settle_concat(ops, t.ops, r, live, lent);
}

/// Closing what is held before a trace.
proof fn lemma_balanced_closes<R>(
    t: Trace<R>,
    handles: Seq<Handle>,
    r: Seq<ReplyView>,
    live: Multiset<Handle>,
    held: Multiset<Handle>,
    left: Multiset<Handle>,
    lent: Set<Handle>,
)
    requires
        live == bag(handles).add(held),
        balanced(t, r, held, left, lent),
    ensures
        balanced(t.after(closes(handles)), r, live, left, lent),
{
    lemma_settle_closes(handles, r, live, held, lent);
    lemma_balanced_after(t, closes(handles), r, live, r, held, left, lent);
}

/// Making a request before a trace that goes on with the reply to it.
proof fn lemma_balanced_ask<R>(
    t: Trace<R>,
    request: RequestView,
    r: Seq<ReplyView>,
    live: Multiset<Handle>,
    left: Multiset<Handle>,
    lent: Set<Handle>,
)
    requires
        permitted(request, live, lent),
        r.len() == 0 ==> t == Trace::<R>::stuck(),
        r.len() > 0 ==> balanced(
            t,
            tail(r),
            live.sub(taken(request)).add(granted(r[0])),
            left,
            lent,
        ),
    ensures
        balanced(t.after(ask(request)), r, live, left, lent),
{
    reveal_with_fuel(settle, 2);
    let kept = live.sub(taken(request));
    assert(ask(request).drop_first() =~= Seq::empty());
    if r.len() == 0 {
        lemma_balanced_after(t, ask(request), r, live, r, kept, left, lent);
    } else {
        lemma_balanced_after(
            t,
            ask(request),
            r,
            live,
            tail(r),
            kept.add(granted(r[0])),
            left,
            lent,
        );
    }
}

/// The end of a computation.
proof fn lemma_balanced_done<R>(
    result: R,
    r: Seq<ReplyView>,
    live: Multiset<Handle>,
    lent: Set<Handle>,
)
    ensures
        balanced(Trace::done(result, r), r, live, live, lent),
{
}

/// A list with one more handle at its end.
proof fn lemma_bag_push(handles: Seq<Handle>, handle: Handle)
    ensures
        bag(handles.push(handle)) == bag(handles).add(Multiset::singleton(handle)),
    decreases handles.len(),
{
    reveal_with_fuel(bag, 2);
    if handles.len() == 0 {
        assert(handles.push(handle).drop_first() =~= Seq::empty());
        assert(bag(handles.push(handle)) =~= bag(handles).add(Multiset::singleton(handle)));
    } else {
        let rest = handles.drop_first();
        assert(handles.push(handle).drop_first() =~= rest.push(handle));
        lemma_bag_push(rest, handle);
        assert(bag(handles.push(handle)) =~= bag(handles).add(Multiset::singleton(handle)));
    }
}

/// A list the other way round.
proof fn lemma_bag_reverse(handles: Seq<Handle>)
    ensures
        bag(handles.reverse()) == bag(handles),
    decreases handles.len(),
{
    if handles.len() == 0 {
        assert(handles.reverse() =~= handles);
    } else {
        let rest = handles.drop_first();
        assert(handles.reverse() =~= rest.reverse().push(handles[0]));
        lemma_bag_push(rest.reverse(), handles[0]);
        lemma_bag_reverse(rest);
        assert(bag(handles.reverse()) =~= bag(handles));
    }
}

/// A list with one handle, and one with two.
proof fn lemma_bag_small(a: Handle, b: Handle)
    ensures
        bag(seq![a]) == Multiset::singleton(a),
        bag(seq![a, b]) == Multiset::singleton(a).add(Multiset::singleton(b)),
{
    reveal_with_fuel(bag, 3);
    assert(seq![a].drop_first() =~= Seq::empty());
    assert(seq![a, b].drop_first() =~= seq![b]);
    assert(seq![b].drop_first() =~= Seq::empty());
    assert(bag(seq![a]) =~= Multiset::singleton(a));
    assert(bag(seq![a, b]) =~= Multiset::singleton(a).add(Multiset::singleton(b)));
}

/// The handles of a context, one by one.
proof fn lemma_bag_context(c: ContextView)
    ensures
        bag(c.handles()) == Multiset::singleton(c.stdin).add(Multiset::singleton(c.stdout)).add(
            Multiset::singleton(c.stderr),
        ).add(Multiset::singleton(c.stdout_capture)).add(Multiset::singleton(c.stderr_capture)),
{
    let none = Seq::<Handle>::empty();
    let one = none.push(c.stdin);
    let two = one.push(c.stdout);
    let three = two.push(c.stderr);
    let four = three.push(c.stdout_capture);
    let five = four.push(c.stderr_capture);
    lemma_bag_push(none, c.stdin);
    lemma_bag_push(one, c.stdout);
    lemma_bag_push(two, c.stderr);
    lemma_bag_push(three, c.stdout_capture);
    lemma_bag_push(four, c.stderr_capture);
    assert(five =~= c.handles());
    assert(bag(none).add(Multiset::singleton(c.stdin)) =~= Multiset::singleton(c.stdin));
}

/// What is held after a context was to be duplicated.
spec fn held_after_clone(
    c: ContextView,
    end: Option<Result<ContextView, std::io::Error>>,
    extra: Multiset<Handle>,
) -> Multiset<Handle> {
    match end {
        Some(Ok(copy)) => bag(c.handles()).add(bag(copy.handles())).add(extra),
        _ => bag(c.handles()).add(extra),
    }
}

/// Duplicating a context yields five more handles, or none.
proof fn lemma_clone_balanced(
    c: ContextView,
    copies: Seq<Handle>,
    r: Seq<ReplyView>,
    extra: Multiset<Handle>,
    lent: Set<Handle>,
)
    requires
        copies.len() <= 5,
    ensures
        balanced(
            semantics::clone_context(c, copies, r),
            r,
            bag(c.handles()).add(bag(copies)).add(extra),
            held_after_clone(c, semantics::clone_context(c, copies, r).end, extra),
            lent,
        ),
    decreases 5 - copies.len(),
{
    let t = semantics::clone_context(c, copies, r);
    let live = bag(c.handles()).add(bag(copies)).add(extra);
    let left = held_after_clone(c, t.end, extra);
    if copies.len() == 5 {
        assert(c.with_handles(copies).handles() =~= copies);
    } else {
        let request = RequestView::Duplicate(c.handles()[copies.len() as int]);
        let next = semantics::handle_cloned(c, copies, r);
        lemma_bag_context(c);
        assert(permitted(request, live, lent));
        if r.len() > 0 {
            let held = live.sub(taken(request)).add(granted(r[0]));
            match r[0] {
                ReplyView::Opened(Ok(copy)) => {
                    lemma_bag_push(copies, copy);
                    lemma_bag_small(copy, copy);
                    assert(held =~= bag(c.handles()).add(bag(copies.push(copy))).add(extra));
                    lemma_clone_balanced(c, copies.push(copy), tail(r), extra, lent);
                },
                ReplyView::Opened(Err(e)) => {
                    lemma_bag_reverse(copies);
                    assert(held =~= bag(copies).add(left));
                    lemma_balanced_done::<Result<ContextView, std::io::Error>>(
                        Err(e),
                        tail(r),
                        left,
                        lent,
                    );
                    lemma_balanced_closes(
                        Trace::<Result<ContextView, std::io::Error>>::done(Err(e), tail(r)),
                        copies.reverse(),
                        tail(r),
                        held,
                        left,
                        left,
                        lent,
                    );
                },
                _ => {},
            }
        }
        lemma_balanced_ask(next, request, r, live, left, lent);
    }
}

/// An expression ends and its context is closed.
proof fn lemma_context_closed(
    exit: Exit,
    c: ContextView,
    r: Seq<ReplyView>,
    extra: Multiset<Handle>,
    lent: Set<Handle>,
)
    ensures
        balanced(
            Trace::done(exit, r).after(closes(c.handles())),
            r,
            bag(c.handles()).add(extra),
            extra,
            lent,
        ),
{
    lemma_balanced_done(exit, r, extra, lent);
    lemma_balanced_closes(
        Trace::done(exit, r),
        c.handles(),
        r,
        bag(c.handles()).add(extra),
        extra,
        extra,
        lent,
    );
}

/// A command uses its context and then closes it.
proof fn lemma_launch_balanced(
    argv: Seq<Seq<u8>>,
    c: ContextView,
    r: Seq<ReplyView>,
    extra: Multiset<Handle>,
    lent: Set<Handle>,
)
    ensures
        balanced(
            semantics::launch(argv, c, r),
            r,
            bag(c.handles()).add(extra),
            extra,
            lent,
        ),
{
    let request = RequestView::Launch(semantics::launch_of(argv, c));
    let live = bag(c.handles()).add(extra);
    lemma_bag_context(c);
    if r.len() > 0 {
        let held = live.sub(taken(request)).add(granted(r[0]));
        if let ReplyView::Exited(exit) = r[0] {
            assert(held =~= live);
            lemma_context_closed(exit, c, tail(r), extra, lent);
        }
    }
    lemma_balanced_ask(semantics::exited(c, r), request, r, live, extra, lent);
}

/// A new standard stream takes the place of the old one.
proof fn lemma_redirect_balanced(
    stream: Stream,
    request: RequestView,
    inner: Expr,
    c: ContextView,
    r: Seq<ReplyView>,
    extra: Multiset<Handle>,
    lent: Set<Handle>,
)
    requires
        permitted(request, bag(c.handles()).add(extra), lent),
        taken(request) == Multiset::<Handle>::empty(),
        files(inner).subset_of(lent),
    ensures
        balanced(
            semantics::redirected(stream, inner, c, r).after(ask(request)),
            r,
            bag(c.handles()).add(extra),
            extra,
            lent,
        ),
    decreases inner, 2nat,
{
    let live = bag(c.handles()).add(extra);
    lemma_bag_context(c);
    if r.len() > 0 {
        let held = live.sub(taken(request)).add(granted(r[0]));
        match r[0] {
            ReplyView::Opened(Ok(handle)) => {
                let next = c.with_stream(stream, handle);
                lemma_bag_context(next);
                lemma_bag_small(handle, handle);
                lemma_bag_small(c.stream(stream), handle);
                let inside = bag(next.handles()).add(extra);
                assert(held =~= bag(seq![c.stream(stream)]).add(inside));
                lemma_exec_balanced(inner, next, tail(r), extra, lent);
                lemma_balanced_closes(
                    semantics::exec(inner, next, tail(r)),
                    seq![c.stream(stream)],
                    tail(r),
                    held,
                    inside,
                    extra,
                    lent,
                );
            },
            ReplyView::Opened(Err(e)) => {
                assert(held =~= bag(c.handles()).add(extra));
                lemma_context_closed(Err(e), c, tail(r), extra, lent);
            },
            _ => {},
        }
    }
    lemma_balanced_ask(
        semantics::redirected(stream, inner, c, r),
        request,
        r,
        live,
        extra,
        lent,
    );
}

/// Two traces, one after the other.
proof fn lemma_balanced_sequence<R, Q>(
    first: Trace<R>,
    second: Trace<Q>,
    r: Seq<ReplyView>,
    live: Multiset<Handle>,
    held: Multiset<Handle>,
    left: Multiset<Handle>,
    lent: Set<Handle>,
)
    requires
        first.end is Some,
        balanced(first, r, live, held, lent),
        balanced(second, first.rest, held, left, lent),
    ensures
        balanced(second.after(first.ops), r, live, left, lent),
{
    lemma_balanced_after(second, first.ops, r, live, first.rest, held, left, lent);
}

/// A pipe: its ends and both contexts are handed over, or closed if there was an error.
proof fn lemma_pipe_balanced(
    left: Expr,
    right: Expr,
    c: ContextView,
    r: Seq<ReplyView>,
    extra: Multiset<Handle>,
    lent: Set<Handle>,
)
    ensures
        balanced(
            semantics::exec(Expr::Pipe(Box::new(left), Box::new(right)), c, r),
            r,
            bag(c.handles()).add(extra),
            extra,
            lent,
        ),
{
    let live = bag(c.handles()).add(extra);
    let opened = semantics::pipe_opened(left, right, c, r);
    if r.len() > 0 {
        let held = live.sub(taken(RequestView::OpenPipe)).add(granted(r[0]));
        if let ReplyView::Pipe(read, write) = r[0] {
            lemma_bag_small(read, write);
            lemma_bag_small(write, read);
            let ends = bag(seq![read, write]);
            let t = semantics::clone_context(c, Seq::empty(), tail(r));
            assert(held =~= bag(c.handles()).add(bag(Seq::empty())).add(ends.add(extra)));
            lemma_clone_balanced(c, Seq::empty(), tail(r), ends.add(extra), lent);
            let after = held_after_clone(c, t.end, ends.add(extra));
            match t.end {
                None => {},
                Some(Err(e)) => {
                    let both = bag(c.handles()).add(extra);
                    assert(after =~= bag(seq![write, read]).add(both));
                    let over = Trace::<Exit>::done(Err(e), t.rest).after(closes(c.handles()));
                    lemma_context_closed(Err(e), c, t.rest, extra, lent);
                    lemma_balanced_closes(
                        over,
                        seq![write, read],
                        t.rest,
                        after,
                        both,
                        extra,
                        lent,
                    );
                    lemma_balanced_sequence(
                        t,
                        over.after(closes(seq![write, read])),
                        tail(r),
                        held,
                        after,
                        extra,
                        lent,
                    );
                    assert(opened =~= over.after(closes(seq![write, read])).after(t.ops));
                },
                Some(Ok(copy)) => {
                    let left_context = ContextView { stdout: write, ..copy };
                    let right_context = ContextView { stdin: read, ..c };
                    let request = RequestView::Fork(left, left_context, right, right_context);
                    let dropped = seq![copy.stdout, c.stdin];
                    let handed = bag(left_context.handles()).add(bag(right_context.handles()));
                    lemma_bag_context(c);
                    lemma_bag_context(copy);
                    lemma_bag_context(left_context);
                    lemma_bag_context(right_context);
                    lemma_bag_small(copy.stdout, c.stdin);
                    let before = handed.add(extra);
                    assert(after =~= bag(dropped).add(before));
                    let forked = semantics::forked(t.rest);
                    if t.rest.len() > 0 {
                        if let ReplyView::Forked(_, _) = t.rest[0] {
                            assert(before.sub(taken(request)).add(granted(t.rest[0])) =~= extra);
                        }
                    }
                    lemma_balanced_ask(forked, request, t.rest, before, extra, lent);
                    lemma_balanced_closes(
                        forked.after(ask(request)),
                        dropped,
                        t.rest,
                        after,
                        before,
                        extra,
                        lent,
                    );
                    lemma_balanced_sequence(
                        t,
                        forked.after(ask(request)).after(closes(dropped)),
                        tail(r),
                        held,
                        after,
                        extra,
                        lent,
                    );
                    assert(opened =~= forked.after(ask(request)).after(closes(dropped)).after(
                        t.ops,
                    ));
                },
            }
        }
    }
    lemma_balanced_ask(opened, RequestView::OpenPipe, r, live, extra, lent);
}

/// A sequence: the first expression gets the copy of the context, and the context itself is kept
/// for the second or closed.
proof fn lemma_then_balanced(
    left: Expr,
    right: Expr,
    c: ContextView,
    r: Seq<ReplyView>,
    extra: Multiset<Handle>,
    lent: Set<Handle>,
)
    requires
        files(left).subset_of(lent),
        files(right).subset_of(lent),
    ensures
        balanced(
            semantics::exec(Expr::Then(Box::new(left), Box::new(right)), c, r),
            r,
            bag(c.handles()).add(extra),
            extra,
            lent,
        ),
    decreases Expr::Then(Box::new(left), Box::new(right)), 0nat,
{
    let e = Expr::Then(Box::new(left), Box::new(right));
    assert(decreases_to!(e => e->Then_0));
    assert(decreases_to!(e => e->Then_1));
    let live = bag(c.handles()).add(extra);
    let t = semantics::clone_context(c, Seq::empty(), r);
    let whole = semantics::then_cloned(left, right, c, t);
    assert(live =~= bag(c.handles()).add(bag(Seq::empty())).add(extra));
    lemma_clone_balanced(c, Seq::empty(), r, extra, lent);
    let after = held_after_clone(c, t.end, extra);
    match t.end {
        None => {},
        Some(Err(x)) => {
            let over = Trace::<Exit>::done(Err(x), t.rest).after(closes(c.handles()));
            lemma_context_closed(Err(x), c, t.rest, extra, lent);
            lemma_balanced_sequence(t, over, r, live, after, extra, lent);
            assert(whole =~= over.after(t.ops));
        },
        Some(Ok(copy)) => {
            let first = semantics::exec(left, copy, t.rest);
            let second = semantics::then_left(right, c, first);
            assert(after =~= bag(copy.handles()).add(live));
            lemma_exec_balanced(left, copy, t.rest, live, lent);
            match first.end {
                None => {},
                Some(Ok(0)) => {
                    lemma_exec_balanced(right, c, first.rest, extra, lent);
                    lemma_balanced_sequence(
                        first,
                        semantics::exec(right, c, first.rest),
                        t.rest,
                        after,
                        live,
                        extra,
                        lent,
                    );
                },
                Some(exit) => {
                    let over = Trace::done(exit, first.rest).after(closes(c.handles()));
                    lemma_context_closed(exit, c, first.rest, extra, lent);
                    lemma_balanced_sequence(first, over, t.rest, after, live, extra, lent);
                    assert(second =~= over.after(first.ops));
                },
            }
            lemma_balanced_sequence(t, second, r, live, after, extra, lent);
        },
    }
}

/// Input bytes: the write end of the pipe goes to the writer, the read end to the expression.
proof fn lemma_input_balanced(
    inner: Expr,
    c: ContextView,
    input: Seq<u8>,
    r: Seq<ReplyView>,
    extra: Multiset<Handle>,
    lent: Set<Handle>,
)
    requires
        files(inner).subset_of(lent),
    ensures
        balanced(
            semantics::input_piped(inner, c, input, r).after(ask(RequestView::OpenPipe)),
            r,
            bag(c.handles()).add(extra),
            extra,
            lent,
        ),
    decreases inner, 2nat,
{
    let live = bag(c.handles()).add(extra);
    if r.len() > 0 {
        let held = live.sub(taken(RequestView::OpenPipe)).add(granted(r[0]));
        if let ReplyView::Pipe(read, write) = r[0] {
            let r1 = tail(r);
            let request = RequestView::StartWriter(write, input);
            let started = semantics::writer_started(inner, c, read, r1);
            let next = ContextView { stdin: read, ..c };
            let inside = bag(next.handles()).add(extra);
            lemma_bag_small(read, write);
            lemma_bag_small(write, write);
            lemma_bag_small(c.stdin, c.stdin);
            lemma_bag_context(c);
            lemma_bag_context(next);
            if r1.len() > 0 {
                let running = held.sub(taken(request)).add(granted(r1[0]));
                if let ReplyView::Started(writer) = r1[0] {
                    let r2 = tail(r1);
                    assert(running =~= bag(seq![c.stdin]).add(inside));
                    let t = semantics::exec(inner, next, r2);
                    lemma_exec_balanced(inner, next, r2, extra, lent);
                    if let Some(exit) = t.end {
                        let join = RequestView::JoinWriter(writer);
                        let joined = semantics::writer_joined(exit, t.rest);
                        if t.rest.len() > 0 {
                            if let ReplyView::Written(_) = t.rest[0] {
                                assert(extra.sub(taken(join)).add(granted(t.rest[0])) =~= extra);
                            }
                        }
                        lemma_balanced_ask(joined, join, t.rest, extra, extra, lent);
                        lemma_balanced_sequence(
                            t,
                            joined.after(ask(join)),
                            r2,
                            inside,
                            extra,
                            extra,
                            lent,
                        );
                        assert(semantics::fed(writer, t) =~= joined.after(ask(join)).after(t.ops));
                    }
                    lemma_balanced_closes(
                        semantics::fed(writer, t),
                        seq![c.stdin],
                        r2,
                        running,
                        inside,
                        extra,
                        lent,
                    );
                }
            }
            assert(taken(request).subset_of(held));
            lemma_balanced_ask(started, request, r1, held, extra, lent);
        }
    }
    lemma_balanced_ask(
        semantics::input_piped(inner, c, input, r),
        RequestView::OpenPipe,
        r,
        live,
        extra,
        lent,
    );
}

/// An expression that runs while other handles are held as well leaves those alone.
proof fn lemma_exec_balanced(
    e: Expr,
    c: ContextView,
    r: Seq<ReplyView>,
    extra: Multiset<Handle>,
    lent: Set<Handle>,
)
    requires
        files(e).subset_of(lent),
    ensures
        balanced(
            semantics::exec(e, c, r),
            r,
            bag(c.handles()).add(extra),
            extra,
            lent,
        ),
    decreases e, 1nat,
{
    lemma_bag_context(c);
    match e {
        Expr::Argv(argv) => {
            lemma_launch_balanced(argv, c, r, extra, lent);
        },
        Expr::Sh(command) => {
            lemma_launch_balanced(semantics::shell_argv(command), c, r, extra, lent);
        },
        Expr::Pipe(left, right) => {
            lemma_pipe_balanced(*left, *right, c, r, extra, lent);
        },
        Expr::Then(left, right) => {
            lemma_then_balanced(*left, *right, c, r, extra, lent);
        },
        Expr::Io(setting, inner) => {
            match setting {
                Setting::Stdin(Source::Bytes(input)) => {
                    lemma_input_balanced(*inner, c, input, r, extra, lent);
                },
                Setting::Stdin(source) => {
                    let request = semantics::input_request(source);
                    lemma_redirect_balanced(Stream::Stdin, request, *inner, c, r, extra, lent);
                },
                Setting::Stdout(sink) => {
                    let request = semantics::output_request(
                        sink,
                        c.stdout,
                        c.stderr,
                        c.stdout_capture,
                    );
                    lemma_redirect_balanced(Stream::Stdout, request, *inner, c, r, extra, lent);
                },
                Setting::Stderr(sink) => {
                    let request = semantics::output_request(
                        sink,
                        c.stdout,
                        c.stderr,
                        c.stderr_capture,
                    );
                    lemma_redirect_balanced(Stream::Stderr, request, *inner, c, r, extra, lent);
                },
                Setting::Dir(dir) => {
                    let next = ContextView { dir, ..c };
                    assert(next.handles() =~= c.handles());
                    lemma_exec_balanced(*inner, next, r, extra, lent);
                },
                Setting::Env(name, value) => {
                    let next = ContextView { env: c.env.insert(name, value), ..c };
                    assert(next.handles() =~= c.handles());
                    lemma_exec_balanced(*inner, next, r, extra, lent);
                },
                Setting::FullEnv(env) => {
                    let next = ContextView { env, ..c };
                    assert(next.handles() =~= c.handles());
                    lemma_exec_balanced(*inner, next, r, extra, lent);
                },
                Setting::Unchecked => {
                    lemma_exec_balanced(*inner, c, r, extra, lent);
                },
            }
        },
    }
}

/// Running an expression in a context keeps the books in order: whatever the operating system
/// replies, every handle that is closed, handed over or used is held at that point, and when the
/// expression has ended every handle of the context, and every handle that was opened since, has
/// been closed or handed over exactly once.
pub proof fn exec_leaks_nothing(e: Expr, c: ContextView, r: Seq<ReplyView>)
    ensures
        balanced(
            semantics::exec(e, c, r),
            r,
            bag(c.handles()),
            Multiset::empty(),
            files(e),
        ),
{
    let none = Multiset::<Handle>::empty();
    assert(bag(c.handles()).add(none) =~= bag(c.handles()));
    lemma_exec_balanced(e, c, r, none, files(e));
}

/// The captured output is collected when nothing is held any more.
proof fn lemma_collect_balanced(
    status: Status,
    stdout: Worker,
    stderr: Worker,
    r: Seq<ReplyView>,
    lent: Set<Handle>,
)
    ensures
        balanced(
            semantics::stdout_collected(status, stderr, r).after(
                ask(RequestView::JoinReader(stdout)),
            ),
            r,
            Multiset::empty(),
            Multiset::empty(),
            lent,
        ),
{
    let none = Multiset::<Handle>::empty();
    let first = RequestView::JoinReader(stdout);
    let second = RequestView::JoinReader(stderr);
    if r.len() > 0 {
        if let ReplyView::Collected(collected) = r[0] {
            assert(none.sub(taken(first)).add(granted(r[0])) =~= none);
            if let Ok(bytes) = collected {
                let r1 = tail(r);
                if r1.len() > 0 {
                    if let ReplyView::Collected(_) = r1[0] {
                        assert(none.sub(taken(second)).add(granted(r1[0])) =~= none);
                    }
                }
                lemma_balanced_ask(
                    semantics::stderr_collected(status, bytes, r1),
                    second,
                    r1,
                    none,
                    none,
                    lent,
                );
            }
        }
    }
    lemma_balanced_ask(
        semantics::stdout_collected(status, stderr, r),
        first,
        r,
        none,
        none,
        lent,
    );
}

/// The expression runs in its first context, and then the captured output is collected.
proof fn lemma_executed_balanced(
    e: Expr,
    c: ContextView,
    stdout: Worker,
    stderr: Worker,
    r: Seq<ReplyView>,
)
    ensures
        balanced(
            semantics::executed(stdout, stderr, semantics::exec(e, c, r)),
            r,
            bag(c.handles()),
            Multiset::empty(),
            files(e),
        ),
{
    let none = Multiset::<Handle>::empty();
    let t = semantics::exec(e, c, r);
    let whole = semantics::executed(stdout, stderr, t);
    exec_leaks_nothing(e, c, r);
    match t.end {
        None => {},
        Some(Err(x)) => {
            let over = Trace::<semantics::RunResult>::done(Err(ErrorView::Io(x)), t.rest);
            lemma_balanced_done::<semantics::RunResult>(
                Err(ErrorView::Io(x)),
                t.rest,
                none,
                files(e),
            );
            lemma_balanced_sequence(t, over, r, bag(c.handles()), none, none, files(e));
        },
        Some(Ok(status)) => {
            let join = ask(RequestView::JoinReader(stdout));
            let over = semantics::stdout_collected(status, stderr, t.rest).after(join);
            lemma_collect_balanced(status, stdout, stderr, t.rest, files(e));
            lemma_balanced_sequence(t, over, r, bag(c.handles()), none, none, files(e));
            assert(whole =~= over.after(t.ops));
        },
    }
}

/// The standard streams are opened, and then the expression runs.
proof fn lemma_inherit_balanced(
    e: Expr,
    captures: Captures,
    env: Map<Seq<u8>, Seq<u8>>,
    streams: Seq<Handle>,
    r: Seq<ReplyView>,
)
    requires
        streams.len() <= 3,
    ensures
        balanced(
            semantics::inheriting(e, captures, env, streams, r),
            r,
            bag(seq![captures.stdout_write, captures.stderr_write]).add(bag(streams)),
            Multiset::empty(),
            files(e),
        ),
    decreases 3 - streams.len(),
{
    let none = Multiset::<Handle>::empty();
    let ends = bag(seq![captures.stdout_write, captures.stderr_write]);
    let live = ends.add(bag(streams));
    if streams.len() < 3 {
        let request = RequestView::Inherit(semantics::standard(streams.len() as int));
        if r.len() > 0 {
            let held = live.sub(taken(request)).add(granted(r[0]));
            if let ReplyView::Inherited(stream) = r[0] {
                lemma_bag_small(stream, stream);
                lemma_bag_push(streams, stream);
                assert(held =~= ends.add(bag(streams.push(stream))));
                lemma_inherit_balanced(e, captures, env, streams.push(stream), tail(r));
            }
        }
        lemma_balanced_ask(
            semantics::stream_inherited(e, captures, env, streams, r),
            request,
            r,
            live,
            none,
            files(e),
        );
    } else {
        let request = RequestView::CurrentDir;
        if r.len() > 0 {
            let held = live.sub(taken(request)).add(granted(r[0]));
            if let ReplyView::Directory(found) = r[0] {
                let dir = match found {
                    Ok(dir) => dir,
                    Err(_) => Seq::empty(),
                };
                let c = semantics::first_context(captures, env, streams, dir);
                lemma_bag_small(captures.stdout_write, captures.stderr_write);
                lemma_bag_push(streams, captures.stdout_write);
                lemma_bag_push(streams.push(captures.stdout_write), captures.stderr_write);
                assert(c.handles() =~= streams.push(captures.stdout_write).push(
                    captures.stderr_write,
                ));
                assert(held =~= bag(c.handles()));
                match found {
                    Ok(_) => {
                        lemma_executed_balanced(e, c, captures.stdout, captures.stderr, tail(r));
                    },
                    Err(x) => {
                        let over = Trace::<semantics::RunResult>::done(
                            Err(ErrorView::Io(x)),
                            tail(r),
                        );
                        assert(held =~= bag(c.handles()).add(none));
                        lemma_bag_reverse(c.handles());
                        lemma_balanced_closes(
                            over,
                            c.handles().reverse(),
                            tail(r),
                            held,
                            none,
                            none,
                            files(e),
                        );
                    },
                }
            }
        }
        lemma_balanced_ask(
            semantics::dir_found(e, captures, env, streams, r),
            request,
            r,
            live,
            none,
            files(e),
        );
    }
}

/// The second half of setting up the capture pipes.
proof fn lemma_capture_balanced(
    e: Expr,
    stdout: Worker,
    stdout_write: Handle,
    r: Seq<ReplyView>,
)
    ensures
        balanced(
            semantics::stderr_piped(e, stdout, stdout_write, r).after(ask(RequestView::OpenPipe)),
            r,
            bag(seq![stdout_write]),
            Multiset::empty(),
            files(e),
        ),
{
    let none = Multiset::<Handle>::empty();
    let live = bag(seq![stdout_write]);
    if r.len() > 0 {
        let held = live.sub(taken(RequestView::OpenPipe)).add(granted(r[0]));
        if let ReplyView::Pipe(read, write) = r[0] {
            let r1 = tail(r);
            let request = RequestView::StartReader(read);
            lemma_bag_small(read, write);
            lemma_bag_small(stdout_write, write);
            lemma_bag_small(read, read);
            let ends = bag(seq![stdout_write, write]);
            if r1.len() > 0 {
                if let ReplyView::Started(stderr) = r1[0] {
                    assert(held.sub(taken(request)).add(granted(r1[0])) =~= ends);
                    let r2 = tail(r1);
                    let captures = Captures {
                        stdout,
                        stdout_write,
                        stderr,
                        stderr_write: write,
                    };
                    if r2.len() > 0 {
                        if let ReplyView::Variables(pairs) = r2[0] {
                            let started = ends.sub(taken(RequestView::Environment)).add(
                                granted(r2[0]),
                            );
                            assert(started =~= ends.add(bag(Seq::empty())));
                            lemma_inherit_balanced(
                                e,
                                captures,
                                env::collect(pairs),
                                Seq::empty(),
                                tail(r2),
                            );
                        }
                    }
                    lemma_balanced_ask(
                        semantics::variables_listed(e, captures, r2),
                        RequestView::Environment,
                        r2,
                        ends,
                        none,
                        files(e),
                    );
                }
            }
            assert(taken(request).subset_of(held));
            lemma_balanced_ask(
                semantics::stderr_reading(e, stdout, stdout_write, write, r1),
                request,
                r1,
                held,
                none,
                files(e),
            );
        }
    }
    lemma_balanced_ask(
        semantics::stderr_piped(e, stdout, stdout_write, r),
        RequestView::OpenPipe,
        r,
        live,
        none,
        files(e),
    );
}

/// Running an expression from beginning to end keeps the books in order: a run starts with no
/// handles, never closes, hands over or uses one that it does not hold, holds none while it waits
/// for captured output, and has none left when it is over.
pub proof fn run_leaks_nothing(e: Expr, r: Seq<ReplyView>)
    ensures
        balanced(semantics::run(e, r), r, Multiset::empty(), Multiset::empty(), files(e)),
{
    let none = Multiset::<Handle>::empty();
    if r.len() > 0 {
        let held = none.sub(taken(RequestView::OpenPipe)).add(granted(r[0]));
        if let ReplyView::Pipe(read, write) = r[0] {
            let r1 = tail(r);
            let request = RequestView::StartReader(read);
            lemma_bag_small(read, write);
            lemma_bag_small(write, write);
            lemma_bag_small(read, read);
            if r1.len() > 0 {
                if let ReplyView::Started(stdout) = r1[0] {
                    assert(held.sub(taken(request)).add(granted(r1[0])) =~= bag(seq![write]));
                    lemma_capture_balanced(e, stdout, write, tail(r1));
                }
            }
            assert(taken(request).subset_of(held));
            lemma_balanced_ask(
                semantics::stdout_reading(e, write, r1),
                request,
                r1,
                held,
                none,
                files(e),
            );
        }
    }
    lemma_balanced_ask(
        semantics::stdout_piped(e, r),
        RequestView::OpenPipe,
        r,
        none,
        none,
        files(e),
    );
}

/// Reading an expression keeps the books in order as running it does.
pub proof fn read_leaks_nothing(e: Expr, r: Seq<ReplyView>)
    ensures
        balanced(semantics::read(e, r), r, Multiset::empty(), Multiset::empty(), files(e)),
{
    let captured = Expr::Io(Setting::Stdout(Sink::Capture), Box::new(e));
    run_leaks_nothing(captured, r);
    assert(files(captured) == files(e));
}

} // verus!
