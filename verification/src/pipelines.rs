//! Pipelines of three can be grouped in any way.

use vstd::prelude::*;

use crate::laws::{copied, pipe_connects_both_sides, pipe_exits_associate};
use crate::model::{ContextView, Expr, Op, ReplyView, RequestView};
use crate::os::{Exit, Handle};
use crate::semantics;
use crate::semantics::exec;

verus! {

/// Whether a reply says truly how two jobs ended that were forked: each was run in its context,
/// with these replies, and came to the exit that is reported.
pub open spec fn carried_out(
    request: RequestView,
    reply: ReplyView,
    left_replies: Seq<ReplyView>,
    right_replies: Seq<ReplyView>,
) -> bool {
    match (request, reply) {
        (RequestView::Fork(left, c1, right, c2), ReplyView::Forked(left_exit, right_exit)) => {
            &&& exec(left, c1, left_replies).end == Some(left_exit)
            &&& exec(right, c2, right_replies).end == Some(right_exit)
        },
        _ => false,
    }
}

/// Whether a reply says truly how two jobs ended that were forked, whatever replies these got.
pub open spec fn truthful(request: RequestView, reply: ReplyView) -> bool {
    exists|left_replies: Seq<ReplyView>, right_replies: Seq<ReplyView>|
        carried_out(request, reply, left_replies, right_replies)
}

/// The replies to a pipe that could be set up.
pub open spec fn piped(
    read: Handle,
    write: Handle,
    copies: Seq<Handle>,
    left_exit: Exit,
    right_exit: Exit,
) -> Seq<ReplyView> {
    seq![ReplyView::Pipe(read, write)] + copied(copies) + seq![
        ReplyView::Forked(left_exit, right_exit),
    ]
}

/// A pipe that could be set up forks its sides and ends as they do.
proof fn lemma_piped(
    left: Expr,
    right: Expr,
    c: ContextView,
    read: Handle,
    write: Handle,
    copies: Seq<Handle>,
    left_exit: Exit,
    right_exit: Exit,
)
    requires
        copies.len() == 5,
    ensures
        ({
            let t = exec(
                Expr::Pipe(Box::new(left), Box::new(right)),
                c,
                piped(read, write, copies, left_exit, right_exit),
            );
            &&& t.end == Some(semantics::pipe_exit(left_exit, right_exit))
            &&& t.ops.len() > 0
            &&& t.ops.last() == Op::Ask(
                RequestView::Fork(
                    left,
                    ContextView { stdout: write, ..c.with_handles(copies) },
                    right,
                    ContextView { stdin: read, ..c },
                ),
            )
        }),
{
    let none = Seq::<ReplyView>::empty();
    let replies = piped(read, write, copies, left_exit, right_exit);
    assert(replies + none =~= replies);
    pipe_connects_both_sides(left, right, c, read, write, copies, left_exit, right_exit, none);
}

/// A pipe whose sides were truly run ends as a pipe of some exits that they can come to.
pub proof fn a_pipe_ends_as_its_sides_do(
    left: Expr,
    right: Expr,
    c: ContextView,
    read: Handle,
    write: Handle,
    copies: Seq<Handle>,
    left_exit: Exit,
    right_exit: Exit,
)
    requires
        copies.len() == 5,
        truthful(
            RequestView::Fork(
                left,
                ContextView { stdout: write, ..c.with_handles(copies) },
                right,
                ContextView { stdin: read, ..c },
            ),
            ReplyView::Forked(left_exit, right_exit),
        ),
    ensures
        ({
            let t = exec(
                Expr::Pipe(Box::new(left), Box::new(right)),
                c,
                piped(read, write, copies, left_exit, right_exit),
            );
            let c1 = ContextView { stdout: write, ..c.with_handles(copies) };
            let c2 = ContextView { stdin: read, ..c };
            exists|r1: Seq<ReplyView>, r2: Seq<ReplyView>|
                {
                    let t1 = #[trigger] exec(left, c1, r1);
                    let t2 = #[trigger] exec(right, c2, r2);
                    &&& t1.end is Some
                    &&& t2.end is Some
                    &&& t.end == Some(semantics::pipe_exit(t1.end->0, t2.end->0))
                }
        }),
{
    lemma_piped(left, right, c, read, write, copies, left_exit, right_exit);
}

/// The handles that a pipeline of three is put together with: two pipes, duplicates `x` and `y` of
/// the context for the first and the second part, and the read end of a pipe that is only held
/// until it has been duplicated.
pub struct Plumbing {
    pub first_read: Handle,
    pub first_write: Handle,
    pub second_read: Handle,
    pub second_write: Handle,
    pub x: Seq<Handle>,
    pub y: Seq<Handle>,
    pub spare: Handle,
}

impl Plumbing {
    /// The context of the first part, which writes into the first pipe.
    pub open spec fn first(self, c: ContextView) -> ContextView {
        ContextView { stdout: self.first_write, ..c.with_handles(self.x) }
    }

    /// The context of the second part, which reads from the first pipe and writes into the second.
    pub open spec fn second(self, c: ContextView) -> ContextView {
        ContextView {
            stdin: self.first_read,
            stdout: self.second_write,
            ..c.with_handles(self.y)
        }
    }

    /// The context of the third part, which reads from the second pipe.
    pub open spec fn third(self, c: ContextView) -> ContextView {
        ContextView { stdin: self.second_read, ..c }
    }

    /// The context of the first two parts, where these are grouped.
    pub open spec fn front(self, c: ContextView) -> ContextView {
        ContextView { stdout: self.second_write, ..c.with_handles(self.y) }
    }

    /// The context of the last two parts, where these are grouped.
    pub open spec fn back(self, c: ContextView) -> ContextView {
        ContextView { stdin: self.spare, ..c }
    }

    /// The replies to the pipe between the first two parts, where these are grouped.
    pub open spec fn front_replies(self, exit1: Exit, exit2: Exit) -> Seq<ReplyView> {
        piped(self.first_read, self.first_write, self.x, exit1, exit2)
    }

    /// The replies to the pipe between the last two parts, where these are grouped.
    pub open spec fn back_replies(self, exit2: Exit, exit3: Exit) -> Seq<ReplyView> {
        piped(
            self.second_read,
            self.second_write,
            self.y.update(0, self.first_read),
            exit2,
            exit3,
        )
    }

    /// The replies to the whole pipeline, where the first two parts are grouped.
    pub open spec fn left_replies(self, front: Exit, exit3: Exit) -> Seq<ReplyView> {
        piped(self.second_read, self.second_write, self.y, front, exit3)
    }

    /// The replies to the whole pipeline, where the last two parts are grouped.
    pub open spec fn right_replies(self, exit1: Exit, back: Exit) -> Seq<ReplyView> {
        piped(self.spare, self.first_write, self.x, exit1, back)
    }
}

/// It does not matter how a pipeline of three is grouped. Where the parts find the same
/// circumstances, both groupings fork the same parts in the same contexts, and end alike.
///
/// The parts come to `exit1`, `exit2` and `exit3` with the replies `r1`, `r2` and `r3`. What is
/// reported of the parts that are grouped, `front` or `back`, is what running them comes to.
pub proof fn pipelines_associate(
    e1: Expr,
    e2: Expr,
    e3: Expr,
    c: ContextView,
    p: Plumbing,
    r1: Seq<ReplyView>,
    r2: Seq<ReplyView>,
    r3: Seq<ReplyView>,
    exit1: Exit,
    exit2: Exit,
    exit3: Exit,
    front: Exit,
    back: Exit,
)
    requires
        p.x.len() == 5,
        p.y.len() == 5,
        exec(e1, p.first(c), r1).end == Some(exit1),
        exec(e2, p.second(c), r2).end == Some(exit2),
        exec(e3, p.third(c), r3).end == Some(exit3),
        carried_out(
            RequestView::Fork(
                Expr::Pipe(Box::new(e1), Box::new(e2)),
                p.front(c),
                e3,
                p.third(c),
            ),
            ReplyView::Forked(front, exit3),
            p.front_replies(exit1, exit2),
            r3,
        ),
        carried_out(
            RequestView::Fork(
                e1,
                p.first(c),
                Expr::Pipe(Box::new(e2), Box::new(e3)),
                p.back(c),
            ),
            ReplyView::Forked(exit1, back),
            r1,
            p.back_replies(exit2, exit3),
        ),
    ensures
        ({
            let first = Expr::Pipe(Box::new(e1), Box::new(e2));
            let last = Expr::Pipe(Box::new(e2), Box::new(e3));
            let exit = semantics::pipe_exit(exit1, semantics::pipe_exit(exit2, exit3));
            let left = exec(
                Expr::Pipe(Box::new(first), Box::new(e3)),
                c,
                p.left_replies(front, exit3),
            );
            let right = exec(
                Expr::Pipe(Box::new(e1), Box::new(last)),
                c,
                p.right_replies(exit1, back),
            );
            let inner_left = exec(first, p.front(c), p.front_replies(exit1, exit2));
            let inner_right = exec(last, p.back(c), p.back_replies(exit2, exit3));
            &&& left.end == Some(exit)
            &&& right.end == Some(exit)
            &&& left.ops.last() == Op::Ask(
                RequestView::Fork(first, p.front(c), e3, p.third(c)),
            )
            &&& inner_left.ops.last() == Op::Ask(
                RequestView::Fork(e1, p.first(c), e2, p.second(c)),
            )
            &&& right.ops.last() == Op::Ask(
                RequestView::Fork(e1, p.first(c), last, p.back(c)),
            )
            &&& inner_right.ops.last() == Op::Ask(
                RequestView::Fork(e2, p.second(c), e3, p.third(c)),
            )
        }),
{
    let first = Expr::Pipe(Box::new(e1), Box::new(e2));
    let last = Expr::Pipe(Box::new(e2), Box::new(e3));
    let y = p.y.update(0, p.first_read);
    lemma_piped(e1, e2, p.front(c), p.first_read, p.first_write, p.x, exit1, exit2);
    lemma_piped(e2, e3, p.back(c), p.second_read, p.second_write, y, exit2, exit3);
    lemma_piped(first, e3, c, p.second_read, p.second_write, p.y, front, exit3);
    lemma_piped(e1, last, c, p.spare, p.first_write, p.x, exit1, back);
    pipe_exits_associate(exit1, exit2, exit3);
}

} // verus!
