//! Mathematical counterparts of the library's types: what contracts speak of.

use vstd::prelude::*;

use crate::os::{Exit, Handle, Status, Stream, Worker};

verus! {

/// Where a command reads its input from.
pub enum Source {
    Null,
    Path(Seq<u8>),
    File(Handle),
    Bytes(Seq<u8>),
}

/// Where a command writes its output to.
pub enum Sink {
    Capture,
    Null,
    Stdout,
    Stderr,
    Path(Seq<u8>),
    File(Handle),
}

/// One change to the circumstances that an expression runs under.
pub enum Setting {
    Stdin(Source),
    Stdout(Sink),
    Stderr(Sink),
    Dir(Seq<u8>),
    Env(Seq<u8>, Seq<u8>),
    FullEnv(Map<Seq<u8>, Seq<u8>>),
    Unchecked,
}

/// An expression as a tree.
pub enum Expr {
    Argv(Seq<Seq<u8>>),
    Sh(Seq<u8>),
    Pipe(Box<Expr>, Box<Expr>),
    Then(Box<Expr>, Box<Expr>),
    Io(Setting, Box<Expr>),
}

/// The circumstances that an expression runs under.
pub struct ContextView {
    pub stdin: Handle,
    pub stdout: Handle,
    pub stderr: Handle,
    pub stdout_capture: Handle,
    pub stderr_capture: Handle,
    pub dir: Seq<u8>,
    pub env: Map<Seq<u8>, Seq<u8>>,
}

impl ContextView {
    /// The handles that a context owns.
    pub open spec fn handles(self) -> Seq<Handle> {
        seq![self.stdin, self.stdout, self.stderr, self.stdout_capture, self.stderr_capture]
    }

    /// The handle of a standard stream.
    pub open spec fn stream(self, stream: Stream) -> Handle {
        match stream {
            Stream::Stdin => self.stdin,
            Stream::Stdout => self.stdout,
            Stream::Stderr => self.stderr,
        }
    }

    /// The same context with another handle for a standard stream.
    pub open spec fn with_stream(self, stream: Stream, handle: Handle) -> ContextView {
        match stream {
            Stream::Stdin => ContextView { stdin: handle, ..self },
            Stream::Stdout => ContextView { stdout: handle, ..self },
            Stream::Stderr => ContextView { stderr: handle, ..self },
        }
    }

    /// The same directory and environment with other handles.
    pub open spec fn with_handles(self, handles: Seq<Handle>) -> ContextView {
        ContextView {
            stdin: handles[0],
            stdout: handles[1],
            stderr: handles[2],
            stdout_capture: handles[3],
            stderr_capture: handles[4],
            dir: self.dir,
            env: self.env,
        }
    }
}

/// A command ready to be started.
pub struct LaunchView {
    pub argv: Seq<Seq<u8>>,
    pub stdin: Handle,
    pub stdout: Handle,
    pub stderr: Handle,
    pub dir: Seq<u8>,
    pub env: Map<Seq<u8>, Seq<u8>>,
}

impl LaunchView {
    /// Whether there is a program to start: the command line has a first word.
    pub open spec fn has_program(self) -> bool {
        self.argv.len() > 0
    }
}

/// Something that only the operating system can do.
pub enum RequestView {
    OpenPipe,
    StartReader(Handle),
    StartWriter(Handle, Seq<u8>),
    Environment,
    Inherit(Stream),
    CurrentDir,
    OpenRead(Seq<u8>),
    OpenWrite(Seq<u8>),
    Duplicate(Handle),
    Launch(LaunchView),
    Fork(Expr, ContextView, Expr, ContextView),
    JoinWriter(Worker),
    JoinReader(Worker),
}

/// What came of a request.
pub enum ReplyView {
    Pipe(Handle, Handle),
    Started(Worker),
    Variables(Seq<(Seq<u8>, Seq<u8>)>),
    Inherited(Handle),
    Directory(Result<Seq<u8>, std::io::Error>),
    Opened(Result<Handle, std::io::Error>),
    Exited(Exit),
    Forked(Exit, Exit),
    Written(Result<(), std::io::Error>),
    Collected(Result<Seq<u8>, std::io::Error>),
}

/// Whether a reply is of the kind that a request is answered with.
pub open spec fn answers(request: RequestView, reply: ReplyView) -> bool {
    match request {
        RequestView::OpenPipe => reply is Pipe,
        RequestView::StartReader(_) => reply is Started,
        RequestView::StartWriter(_, _) => reply is Started,
        RequestView::Environment => reply is Variables,
        RequestView::Inherit(_) => reply is Inherited,
        RequestView::CurrentDir => reply is Directory,
        RequestView::OpenRead(_) => reply is Opened,
        RequestView::OpenWrite(_) => reply is Opened,
        RequestView::Duplicate(_) => reply is Opened,
        RequestView::Launch(_) => reply is Exited,
        RequestView::Fork(_, _, _, _) => reply is Forked,
        RequestView::JoinWriter(_) => reply is Written,
        RequestView::JoinReader(_) => reply is Collected,
    }
}

/// One observable step: a handle is closed, or a request is made.
pub enum Op {
    Close(Handle),
    Ask(RequestView),
}

/// What a computation does when its requests are answered by a given list of replies.
///
/// `ops` is everything it does, in order. `end` is its result; if there is none, the last request
/// was not answered. `rest` holds the replies that were not used.
#[verifier::ext_equal]
pub struct Trace<R> {
    pub ops: Seq<Op>,
    pub rest: Seq<ReplyView>,
    pub end: Option<R>,
}

impl<R> Trace<R> {
    /// Nothing more happens: a reply that was needed did not come.
    pub open spec fn stuck() -> Trace<R> {
        Trace { ops: Seq::empty(), rest: Seq::empty(), end: None }
    }

    /// The computation is over.
    pub open spec fn done(result: R, rest: Seq<ReplyView>) -> Trace<R> {
        Trace { ops: Seq::empty(), rest, end: Some(result) }
    }

    /// The same, with some steps before it.
    pub open spec fn after(self, ops: Seq<Op>) -> Trace<R> {
        Trace { ops: ops + self.ops, rest: self.rest, end: self.end }
    }
}

/// Closes handles in order.
pub open spec fn closes(handles: Seq<Handle>) -> Seq<Op> {
    handles.map_values(|h: Handle| Op::Close(h))
}

/// Makes one request.
pub open spec fn ask(request: RequestView) -> Seq<Op> {
    seq![Op::Ask(request)]
}

/// The next reply, if there is one.
pub open spec fn head(replies: Seq<ReplyView>) -> Option<ReplyView> {
    if replies.len() == 0 {
        None
    } else {
        Some(replies[0])
    }
}

/// The replies after the next.
pub open spec fn tail(replies: Seq<ReplyView>) -> Seq<ReplyView> {
    replies.drop_first()
}

/// The reply at the front of a list of replies is the next one.
pub proof fn lemma_answered(reply: ReplyView)
    ensures
        forall|r: Seq<ReplyView>| #![trigger seq![reply] + r]
            head(seq![reply] + r) == Some(reply) && tail(seq![reply] + r) == r,
{
    assert forall|r: Seq<ReplyView>| #![trigger seq![reply] + r]
        head(seq![reply] + r) == Some(reply) && tail(seq![reply] + r) == r by {
        assert(tail(seq![reply] + r) =~= r);
    }
}

/// What a finished expression leaves behind.
#[verifier::ext_equal]
pub struct OutputView {
    pub status: Status,
    pub stdout: Seq<u8>,
    pub stderr: Seq<u8>,
}

/// Why an expression failed.
#[verifier::ext_equal]
pub enum ErrorView {
    Io(std::io::Error),
    Utf8(std::str::Utf8Error),
    Status(OutputView),
}

} // verus!
