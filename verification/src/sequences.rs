//! One thing after another: an expression minds only the replies that it needs, and so sequences
//! can be grouped in any way.

use vstd::prelude::*;

use crate::laws::{copied, lemma_clone_succeeds};
use crate::model::{
    ask, closes, head, tail, ContextView, Expr, Op, ReplyView, RequestView, Setting, Source, Trace,
};
use crate::os::{Exit, Handle, Status, Stream};
use crate::semantics;
use crate::semantics::exec;

verus! {

/// If one trace comes to an end, the other takes the same steps to the same end, and leaves over
/// some replies more.
pub open spec fn agrees<R>(t: Trace<R>, longer: Trace<R>, more: Seq<ReplyView>) -> bool {
    t.end is Some ==> longer == (Trace { ops: t.ops, rest: t.rest + more, end: t.end })
}

/// Replies at the end of a list do not change the next reply.
proof fn lemma_next_reply(r: Seq<ReplyView>, more: Seq<ReplyView>)
    requires
        r.len() > 0,
    ensures
        head(r + more) == head(r),
        tail(r + more) == tail(r) + more,
{
    assert(tail(r + more) =~= tail(r) + more);
}

proof fn lemma_clone_agrees(
    c: ContextView,
    copies: Seq<Handle>,
    r: Seq<ReplyView>,
    more: Seq<ReplyView>,
)
    requires
        copies.len() <= 5,
    ensures
        agrees(
            semantics::clone_context(c, copies, r),
            semantics::clone_context(c, copies, r + more),
            more,
        ),
    decreases 5 - copies.len(),
{
    if copies.len() < 5 && r.len() > 0 {
        lemma_next_reply(r, more);
        if let ReplyView::Opened(Ok(copy)) = r[0] {
            lemma_clone_agrees(c, copies.push(copy), tail(r), more);
        }
        assert(agrees(
            semantics::handle_cloned(c, copies, r),
            semantics::handle_cloned(c, copies, r + more),
            more,
        ));
    }
}

proof fn lemma_redirect_agrees(
    stream: Stream,
    inner: Expr,
    c: ContextView,
    r: Seq<ReplyView>,
    more: Seq<ReplyView>,
)
    ensures
        agrees(
            semantics::redirected(stream, inner, c, r),
            semantics::redirected(stream, inner, c, r + more),
            more,
        ),
    decreases inner, 2nat,
{
    if r.len() > 0 {
        lemma_next_reply(r, more);
        if let ReplyView::Opened(Ok(handle)) = r[0] {
            lemma_exec_agrees(inner, c.with_stream(stream, handle), tail(r), more);
        }
    }
}

proof fn lemma_input_agrees(
    inner: Expr,
    c: ContextView,
    input: Seq<u8>,
    r: Seq<ReplyView>,
    more: Seq<ReplyView>,
)
    ensures
        agrees(
            semantics::input_piped(inner, c, input, r),
            semantics::input_piped(inner, c, input, r + more),
            more,
        ),
    decreases inner, 2nat,
{
    if r.len() > 0 {
        lemma_next_reply(r, more);
        if let ReplyView::Pipe(read, write) = r[0] {
            let r1 = tail(r);
            if r1.len() > 0 {
                lemma_next_reply(r1, more);
                if let ReplyView::Started(writer) = r1[0] {
                    let next = ContextView { stdin: read, ..c };
                    let t = exec(inner, next, tail(r1));
                    let longer = exec(inner, next, tail(r1) + more);
                    lemma_exec_agrees(inner, next, tail(r1), more);
                    if t.end is Some && t.rest.len() > 0 {
                        lemma_next_reply(t.rest, more);
                    }
                    assert(agrees(
                        semantics::fed(writer, t),
                        semantics::fed(writer, longer),
                        more,
                    ));
                }
            }
            assert(agrees(
                semantics::writer_started(inner, c, read, r1),
                semantics::writer_started(inner, c, read, r1 + more),
                more,
            ));
        }
    }
}

proof fn lemma_pipe_agrees(
    left: Expr,
    right: Expr,
    c: ContextView,
    r: Seq<ReplyView>,
    more: Seq<ReplyView>,
)
    ensures
        agrees(
            semantics::pipe_opened(left, right, c, r),
            semantics::pipe_opened(left, right, c, r + more),
            more,
        ),
{
    if r.len() > 0 {
        lemma_next_reply(r, more);
        let t = semantics::clone_context(c, Seq::empty(), tail(r));
        lemma_clone_agrees(c, Seq::empty(), tail(r), more);
        if t.end is Some && t.rest.len() > 0 {
            lemma_next_reply(t.rest, more);
        }
    }
}

proof fn lemma_then_agrees(
    left: Expr,
    right: Expr,
    c: ContextView,
    r: Seq<ReplyView>,
    more: Seq<ReplyView>,
)
    ensures
        agrees(
            exec(Expr::Then(Box::new(left), Box::new(right)), c, r),
            exec(Expr::Then(Box::new(left), Box::new(right)), c, r + more),
            more,
        ),
    decreases Expr::Then(Box::new(left), Box::new(right)), 0nat,
{
    let e = Expr::Then(Box::new(left), Box::new(right));
    assert(decreases_to!(e => e->Then_0));
    assert(decreases_to!(e => e->Then_1));
    let t = semantics::clone_context(c, Seq::empty(), r);
    let longer = semantics::clone_context(c, Seq::empty(), r + more);
    lemma_clone_agrees(c, Seq::empty(), r, more);
    if let Some(Ok(copy)) = t.end {
        let first = exec(left, copy, t.rest);
        lemma_exec_agrees(left, copy, t.rest, more);
        if first.end == Some(Ok::<Status, std::io::Error>(0)) {
            lemma_exec_agrees(right, c, first.rest, more);
        }
        assert(agrees(
            semantics::then_left(right, c, first),
            semantics::then_left(right, c, exec(left, copy, t.rest + more)),
            more,
        ));
    }
    assert(agrees(
        semantics::then_cloned(left, right, c, t),
        semantics::then_cloned(left, right, c, longer),
        more,
    ));
}

proof fn lemma_exec_agrees(e: Expr, c: ContextView, r: Seq<ReplyView>, more: Seq<ReplyView>)
    ensures
        agrees(exec(e, c, r), exec(e, c, r + more), more),
    decreases e, 1nat,
{
    match e {
        Expr::Argv(_) | Expr::Sh(_) => {
            if r.len() > 0 {
                lemma_next_reply(r, more);
            }
        },
        Expr::Pipe(left, right) => {
            lemma_pipe_agrees(*left, *right, c, r, more);
        },
        Expr::Then(left, right) => {
            lemma_then_agrees(*left, *right, c, r, more);
        },
        Expr::Io(Setting::Stdin(Source::Bytes(input)), inner) => {
            lemma_input_agrees(*inner, c, input, r, more);
        },
        Expr::Io(Setting::Stdin(_), inner) => {
            lemma_redirect_agrees(Stream::Stdin, *inner, c, r, more);
        },
        Expr::Io(Setting::Stdout(_), inner) => {
            lemma_redirect_agrees(Stream::Stdout, *inner, c, r, more);
        },
        Expr::Io(Setting::Stderr(_), inner) => {
            lemma_redirect_agrees(Stream::Stderr, *inner, c, r, more);
        },
        Expr::Io(Setting::Dir(dir), inner) => {
            lemma_exec_agrees(*inner, ContextView { dir, ..c }, r, more);
        },
        Expr::Io(Setting::Env(name, value), inner) => {
            let env = c.env.insert(name, value);
            lemma_exec_agrees(*inner, ContextView { env, ..c }, r, more);
        },
        Expr::Io(Setting::FullEnv(env), inner) => {
            lemma_exec_agrees(*inner, ContextView { env, ..c }, r, more);
        },
        Expr::Io(Setting::Unchecked, inner) => {
            lemma_exec_agrees(*inner, c, r, more);
        },
    }
}

/// An expression that has come to an end does not mind what else the operating system would have
/// replied.
pub proof fn later_replies_do_not_matter(
    e: Expr,
    c: ContextView,
    r: Seq<ReplyView>,
    more: Seq<ReplyView>,
)
    ensures
        agrees(exec(e, c, r), exec(e, c, r + more), more),
{
    lemma_exec_agrees(e, c, r, more);
}

/// The requests that start commands, in order.
pub open spec fn work(ops: Seq<Op>) -> Seq<RequestView>
    decreases ops.len(),
{
    if ops.len() == 0 {
        Seq::empty()
    } else {
        match ops[0] {
            Op::Ask(request) => if request is Launch || request is Fork {
                seq![request] + work(ops.drop_first())
            } else {
                work(ops.drop_first())
            },
            Op::Close(_) => work(ops.drop_first()),
        }
    }
}

proof fn lemma_work_concat(first: Seq<Op>, second: Seq<Op>)
    ensures
        work(first + second) == work(first) + work(second),
    decreases first.len(),
{
    if first.len() == 0 {
        assert(first + second =~= second);
        assert(work(first + second) =~= work(first) + work(second));
    } else {
        assert((first + second).drop_first() =~= first.drop_first() + second);
        lemma_work_concat(first.drop_first(), second);
        assert(work(first + second) =~= work(first) + work(second));
    }
}

/// Closing handles and duplicating them starts no command.
proof fn lemma_no_work(ops: Seq<Op>)
    requires
        forall|i: int|
            0 <= i < ops.len() ==> (#[trigger] ops[i] is Close || ops[i]->Ask_0 is Duplicate),
    ensures
        work(ops) == Seq::<RequestView>::empty(),
    decreases ops.len(),
{
    if ops.len() > 0 {
        assert(ops[0] is Close || ops[0]->Ask_0 is Duplicate);
        let rest = ops.drop_first();
        assert forall|i: int| 0 <= i < rest.len() implies (#[trigger] rest[i] is Close
            || rest[i]->Ask_0 is Duplicate) by {
            assert(rest[i] == ops[i + 1]);
        }
        lemma_no_work(rest);
    }
}

/// The steps that duplicate a context.
pub open spec fn duplicates(c: ContextView) -> Seq<Op> {
    c.handles().map_values(|h: Handle| Op::Ask(RequestView::Duplicate(h)))
}

/// Whether a part of a sequence ran and succeeded.
pub open spec fn succeeded(t: Trace<Exit>) -> bool {
    t.end == Some(Ok::<Status, std::io::Error>(0))
}

/// Whether a part of a sequence came to its end with exactly the replies that it was given.
pub open spec fn complete(t: Trace<Exit>) -> bool {
    t.end is Some && t.rest == Seq::<ReplyView>::empty()
}

/// A sequence whose context could be duplicated.
proof fn lemma_then_copied(
    left: Expr,
    right: Expr,
    c: ContextView,
    copies: Seq<Handle>,
    r: Seq<ReplyView>,
)
    requires
        copies.len() == 5,
    ensures
        exec(Expr::Then(Box::new(left), Box::new(right)), c, copied(copies) + r)
            == semantics::then_left(right, c, exec(left, c.with_handles(copies), r)).after(
            duplicates(c),
        ),
{
    let none = Seq::<Handle>::empty();
    lemma_clone_succeeds(c, none, copies, r);
    assert(none + copies =~= copies);
    assert(c.handles().skip(0) =~= c.handles());
    let t = semantics::clone_context(c, none, copied(copies) + r);
    let whole = exec(Expr::Then(Box::new(left), Box::new(right)), c, copied(copies) + r);
    assert(whole == semantics::then_cloned(left, right, c, t));
    assert(whole == semantics::then_left(right, c, exec(left, c.with_handles(copies), r)).after(
        t.ops,
    ));
}

/// The steps of a part, and of what follows: `second` if the part succeeds, and otherwise `lost`.
spec fn in_turn(first: Trace<Exit>, lost: Seq<Op>, second: Seq<Op>) -> Seq<Op> {
    first.ops + if succeeded(first) {
        second
    } else {
        lost
    }
}

/// How three parts of a sequence end: as the first that does not succeed, or as the last.
pub open spec fn outcome(first: Trace<Exit>, second: Trace<Exit>, third: Trace<Exit>) -> Option<
    Exit,
> {
    if !succeeded(first) {
        first.end
    } else if !succeeded(second) {
        second.end
    } else {
        third.end
    }
}

/// The commands that three parts of a sequence start: nothing of what follows a part that does not
/// succeed.
pub open spec fn joint_work(
    first: Trace<Exit>,
    second: Trace<Exit>,
    third: Trace<Exit>,
) -> Seq<RequestView> {
    if !succeeded(first) {
        work(first.ops)
    } else if !succeeded(second) {
        work(first.ops) + work(second.ops)
    } else {
        work(first.ops) + work(second.ops) + work(third.ops)
    }
}

/// Three parts with nothing but closed and duplicated handles between them start the commands of
/// the parts.
proof fn lemma_joint_work(
    first: Trace<Exit>,
    second: Trace<Exit>,
    third: Trace<Exit>,
    before: Seq<Op>,
    between: Seq<Op>,
    lost: Seq<Op>,
    late: Seq<Op>,
)
    requires
        work(before).len() == 0,
        work(between).len() == 0,
        work(lost).len() == 0,
        work(late).len() == 0,
    ensures
        work(
            before + in_turn(first, lost, between + in_turn(second, late, third.ops)),
        ) == joint_work(first, second, third),
{
    let inner = in_turn(second, late, third.ops);
    let outer = in_turn(first, lost, between + inner);
    lemma_work_concat(before, outer);
    lemma_work_concat(first.ops, lost);
    lemma_work_concat(first.ops, between + inner);
    lemma_work_concat(between, inner);
    lemma_work_concat(second.ops, late);
    lemma_work_concat(second.ops, third.ops);
    assert(work(before + outer) =~= joint_work(first, second, third));
}

/// The parts of a sequence of three come to their ends, as far as they are run. They meet the
/// handles `x`, `y` and those of the context, and get the replies `r1`, `r2` and `r3`.
pub open spec fn circumstances(
    e1: Expr,
    e2: Expr,
    e3: Expr,
    c: ContextView,
    x: Seq<Handle>,
    y: Seq<Handle>,
    r1: Seq<ReplyView>,
    r2: Seq<ReplyView>,
    r3: Seq<ReplyView>,
) -> bool {
    let t1 = exec(e1, c.with_handles(x), r1);
    let t2 = exec(e2, c.with_handles(y), r2);
    &&& x.len() == 5
    &&& y.len() == 5
    &&& complete(t1)
    &&& succeeded(t1) ==> complete(t2)
    &&& succeeded(t1) && succeeded(t2) ==> complete(exec(e3, c, r3))
}

/// Both groupings of a sequence of three start the same commands in the same order and end alike.
/// The duplicates that they ask for are `x`, for the first part, and `y`, for the second.
pub open spec fn agreement(
    e1: Expr,
    e2: Expr,
    e3: Expr,
    c: ContextView,
    x: Seq<Handle>,
    y: Seq<Handle>,
    r1: Seq<ReplyView>,
    r2: Seq<ReplyView>,
    r3: Seq<ReplyView>,
) -> bool {
    let t1 = exec(e1, c.with_handles(x), r1);
    let t2 = exec(e2, c.with_handles(y), r2);
    let t3 = exec(e3, c, r3);
    let first = Expr::Then(Box::new(e1), Box::new(e2));
    let last = Expr::Then(Box::new(e2), Box::new(e3));
    let left = exec(
        Expr::Then(Box::new(first), Box::new(e3)),
        c,
        copied(y) + (copied(x) + (r1 + (r2 + r3))),
    );
    let right = exec(
        Expr::Then(Box::new(e1), Box::new(last)),
        c,
        copied(x) + (r1 + (copied(y) + (r2 + r3))),
    );
    &&& left.end == outcome(t1, t2, t3)
    &&& right.end == outcome(t1, t2, t3)
    &&& work(left.ops) == joint_work(t1, t2, t3)
    &&& work(right.ops) == joint_work(t1, t2, t3)
}

/// It does not matter how three expressions are grouped in a sequence.
pub open spec fn associate(e1: Expr, e2: Expr, e3: Expr) -> bool {
    forall|
        c: ContextView,
        x: Seq<Handle>,
        y: Seq<Handle>,
        r1: Seq<ReplyView>,
        r2: Seq<ReplyView>,
        r3: Seq<ReplyView>,
    |
        circumstances(e1, e2, e3, c, x, y, r1, r2, r3) ==> #[trigger] agreement(
            e1,
            e2,
            e3,
            c,
            x,
            y,
            r1,
            r2,
            r3,
        )
}

/// It does not matter how a sequence of three is grouped. Where the parts find the same
/// circumstances, and their contexts can be duplicated, both groupings start the same commands in
/// the same order and end alike: as the first part that does not succeed, of whose followers
/// nothing is run, or as the last.
pub proof fn sequences_associate(e1: Expr, e2: Expr, e3: Expr)
    ensures
        associate(e1, e2, e3),
{
    assert forall|
        c: ContextView,
        x: Seq<Handle>,
        y: Seq<Handle>,
        r1: Seq<ReplyView>,
        r2: Seq<ReplyView>,
        r3: Seq<ReplyView>,
    | circumstances(e1, e2, e3, c, x, y, r1, r2, r3) implies #[trigger] agreement(
        e1,
        e2,
        e3,
        c,
        x,
        y,
        r1,
        r2,
        r3,
    ) by {
        lemma_groupings_agree(e1, e2, e3, c, x, y, r1, r2, r3);
    }
}

proof fn lemma_groupings_agree(
    e1: Expr,
    e2: Expr,
    e3: Expr,
    c: ContextView,
    x: Seq<Handle>,
    y: Seq<Handle>,
    r1: Seq<ReplyView>,
    r2: Seq<ReplyView>,
    r3: Seq<ReplyView>,
)
    requires
        circumstances(e1, e2, e3, c, x, y, r1, r2, r3),
    ensures
        agreement(e1, e2, e3, c, x, y, r1, r2, r3),
{
    let cx = c.with_handles(x);
    let cy = c.with_handles(y);
    let t1 = exec(e1, cx, r1);
    let t2 = exec(e2, cy, r2);
    let t3 = exec(e3, c, r3);
    let first = Expr::Then(Box::new(e1), Box::new(e2));
    let last = Expr::Then(Box::new(e2), Box::new(e3));
    let kept = closes(c.handles());
    assert(cy.with_handles(x) == cx);
    lemma_no_work(duplicates(c));
    lemma_no_work(duplicates(cy));
    lemma_no_work(kept);
    lemma_no_work(closes(cy.handles()) + kept);
    lemma_no_work(duplicates(c) + duplicates(cy));
    lemma_no_work(Seq::empty());
    // Grouped to the left.
    let rest = r2 + r3;
    let left = exec(
        Expr::Then(Box::new(first), Box::new(e3)),
        c,
        copied(y) + (copied(x) + (r1 + rest)),
    );
    lemma_then_copied(first, e3, c, y, copied(x) + (r1 + rest));
    lemma_then_copied(e1, e2, cy, x, r1 + rest);
    lemma_exec_agrees(e1, cx, r1, rest);
    assert(t1.rest + rest =~= rest);
    let both = exec(first, cy, copied(x) + (r1 + rest));
    if succeeded(t1) {
        lemma_exec_agrees(e2, cy, r2, r3);
        assert(t2.rest + r3 =~= r3);
    }
    let lost = closes(cy.handles()) + kept;
    let before = duplicates(c) + duplicates(cy);
    assert(left == semantics::then_left(e3, c, both).after(duplicates(c)));
    assert(left.end == outcome(t1, t2, t3));
    assert(left.ops =~= before + in_turn(
        t1,
        lost,
        Seq::empty() + in_turn(t2, kept, t3.ops),
    ));
    lemma_joint_work(t1, t2, t3, before, Seq::empty(), lost, kept);
    // Grouped to the right.
    let right_rest = copied(y) + rest;
    let right = exec(
        Expr::Then(Box::new(e1), Box::new(last)),
        c,
        copied(x) + (r1 + right_rest),
    );
    lemma_then_copied(e1, last, c, x, r1 + right_rest);
    lemma_exec_agrees(e1, cx, r1, right_rest);
    assert(t1.rest + right_rest =~= right_rest);
    lemma_then_copied(e2, e3, c, y, rest);
    assert(right == semantics::then_left(last, c, exec(e1, cx, r1 + right_rest)).after(
        duplicates(c),
    ));
    assert(right.end == outcome(t1, t2, t3));
    assert(right.ops =~= duplicates(c) + in_turn(
        t1,
        kept,
        duplicates(c) + in_turn(t2, kept, t3.ops),
    ));
    lemma_joint_work(t1, t2, t3, duplicates(c), duplicates(c), kept, kept);
}

/// A sequence whose context cannot be duplicated runs nothing and ends with the error, whatever its
/// parts are and however they are grouped.
pub proof fn a_sequence_without_a_copy_runs_nothing(
    e: Expr,
    other: Expr,
    c: ContextView,
    r: Seq<ReplyView>,
    error: std::io::Error,
)
    requires
        e is Then,
        other is Then,
        semantics::clone_context(c, Seq::empty(), r).end == Some(
            Err::<ContextView, std::io::Error>(error),
        ),
    ensures
        exec(e, c, r) == exec(other, c, r),
        exec(e, c, r).end == Some(Err::<Status, std::io::Error>(error)),
        work(exec(e, c, r).ops) == Seq::<RequestView>::empty(),
{
    let t = semantics::clone_context(c, Seq::empty(), r);
    let kept = closes(c.handles());
    lemma_clone_works_not(c, Seq::empty(), r);
    lemma_no_work(kept);
    lemma_work_concat(t.ops, kept);
    let whole = semantics::then_cloned(*e->Then_0, *e->Then_1, c, t);
    let instead = semantics::then_cloned(*other->Then_0, *other->Then_1, c, t);
    assert(exec(e, c, r) == whole);
    assert(exec(other, c, r) == instead);
    assert(whole == instead);
    assert(whole.ops =~= t.ops + kept);
    assert(work(exec(e, c, r).ops) =~= Seq::empty());
}

/// Duplicating a context starts no command.
proof fn lemma_clone_works_not(c: ContextView, copies: Seq<Handle>, r: Seq<ReplyView>)
    requires
        copies.len() <= 5,
    ensures
        work(semantics::clone_context(c, copies, r).ops) == Seq::<RequestView>::empty(),
    decreases 5 - copies.len(),
{
    if copies.len() < 5 {
        let request = RequestView::Duplicate(c.handles()[copies.len() as int]);
        let t = semantics::handle_cloned(c, copies, r);
        match head(r) {
            Some(ReplyView::Opened(Ok(copy))) => {
                lemma_clone_works_not(c, copies.push(copy), tail(r));
            },
            Some(ReplyView::Opened(Err(_))) => {
                assert(t.ops =~= closes(copies.reverse()));
                lemma_no_work(t.ops);
            },
            _ => {},
        }
        lemma_no_work(ask(request));
        lemma_work_concat(ask(request), t.ops);
    }
}

} // verus!
