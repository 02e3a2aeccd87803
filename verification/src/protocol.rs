//! The conversation with the driver: requests, replies, and the steps in between.
//!
//! Nothing in this library touches the operating system. An expression that runs asks for what it
//! needs, one request at a time, and is handed the reply; between requests it names the handles
//! that are to be closed.

use vstd::prelude::*;

use crate::bytes;
use crate::context::IoContext;
use crate::env;
use crate::env::EnvMap;
use crate::expression::Expression;
use crate::model::{LaunchView, ReplyView, RequestView};
use crate::os::{Exit, Handle, Stream, Worker};

verus! {

/// A command ready to be started. Its environment holds the given variables and no others.
#[derive(Debug)]
pub struct Launch {
    pub argv: Vec<Vec<u8>>,
    pub stdin: Handle,
    pub stdout: Handle,
    pub stderr: Handle,
    pub dir: Vec<u8>,
    pub env: EnvMap,
}

impl Launch {
    pub open spec fn view(&self) -> LaunchView {
        LaunchView {
            argv: bytes::contents(self.argv@),
            stdin: self.stdin,
            stdout: self.stdout,
            stderr: self.stderr,
            dir: self.dir@,
            env: self.env@,
        }
    }

    /// Whether there is a program to start.
    pub fn has_program(&self) -> (has: bool)
        ensures
            has == self@.has_program(),
    {
        self.argv.len() > 0
    }

    /// The program to start: the first word of the command line.
    pub fn program(&self) -> (program: &Vec<u8>)
        requires
            self@.has_program(),
        ensures
            program@ == self@.argv[0],
    {
        &self.argv[0]
    }

    /// The arguments of the program: the words after the first.
    pub fn arguments(&self) -> (arguments: Vec<&Vec<u8>>)
        requires
            self@.has_program(),
        ensures
            arguments@.len() == self@.argv.len() - 1,
            forall|i: int|
                0 <= i < arguments@.len() ==> (#[trigger] arguments@[i])@ == self@.argv[i + 1],
    {
        let mut arguments: Vec<&Vec<u8>> = Vec::new();
        let mut i: usize = 1;
        while i < self.argv.len()
            invariant
                1 <= i <= self.argv.len(),
                arguments@.len() == i - 1,
                forall|j: int|
                    0 <= j < arguments@.len() ==> (#[trigger] arguments@[j])@ == self.argv@[j + 1]@,
            decreases self.argv.len() - i,
        {
            arguments.push(&self.argv[i]);
            i = i + 1;
        }
        arguments
    }
}

/// An expression together with the context that it is to run in.
#[derive(Debug)]
pub struct Job<'a> {
    pub expression: Expression<'a>,
    pub context: IoContext,
}

/// Something that only the operating system can do.
#[derive(Debug)]
pub enum Request<'a> {
    /// Open a pipe. Answered by [`Reply::Pipe`].
    OpenPipe,
    /// Start a thread that takes over this read end of a pipe and collects everything that comes
    /// out. Answered by [`Reply::Started`].
    StartReader(Handle),
    /// Start a thread that takes over this write end of a pipe, writes these bytes and closes it.
    /// Answered by [`Reply::Started`].
    StartWriter(Handle, Vec<u8>),
    /// List the environment variables of the current process. Answered by [`Reply::Variables`].
    Environment,
    /// Duplicate a standard stream of the current process. Answered by [`Reply::Inherited`].
    Inherit(Stream),
    /// Find the working directory of the current process. Answered by [`Reply::Directory`].
    CurrentDir,
    /// Open a file for reading. Answered by [`Reply::Opened`].
    OpenRead(Vec<u8>),
    /// Open a file for writing, creating or emptying it. Answered by [`Reply::Opened`].
    OpenWrite(Vec<u8>),
    /// Duplicate a handle. Answered by [`Reply::Opened`].
    Duplicate(Handle),
    /// Start a command and wait until it exits. The handles stay open meanwhile. Answered by
    /// [`Reply::Exited`].
    Launch(Launch),
    /// Run two jobs at the same time and wait until both are done. Each takes over its context.
    /// Answered by [`Reply::Forked`].
    Fork(Job<'a>, Job<'a>),
    /// Wait for a thread that writes. Answered by [`Reply::Written`].
    JoinWriter(Worker),
    /// Wait for a thread that reads. Answered by [`Reply::Collected`].
    JoinReader(Worker),
}

impl<'a> Request<'a> {
    pub open spec fn view(&self) -> RequestView {
        match *self {
            Request::OpenPipe => RequestView::OpenPipe,
            Request::StartReader(read) => RequestView::StartReader(read),
            Request::StartWriter(write, input) => RequestView::StartWriter(write, input@),
            Request::Environment => RequestView::Environment,
            Request::Inherit(stream) => RequestView::Inherit(stream),
            Request::CurrentDir => RequestView::CurrentDir,
            Request::OpenRead(path) => RequestView::OpenRead(path@),
            Request::OpenWrite(path) => RequestView::OpenWrite(path@),
            Request::Duplicate(handle) => RequestView::Duplicate(handle),
            Request::Launch(launch) => RequestView::Launch(launch@),
            Request::Fork(left, right) => RequestView::Fork(
                left.expression@,
                left.context@,
                right.expression@,
                right.context@,
            ),
            Request::JoinWriter(writer) => RequestView::JoinWriter(writer),
            Request::JoinReader(reader) => RequestView::JoinReader(reader),
        }
    }
}

/// What came of a request.
#[derive(Debug)]
pub enum Reply {
    /// The read end and the write end of a pipe.
    Pipe(Handle, Handle),
    /// A thread was started.
    Started(Worker),
    /// Names and values of environment variables.
    Variables(Vec<(Vec<u8>, Vec<u8>)>),
    /// A duplicate of a standard stream.
    Inherited(Handle),
    /// A directory.
    Directory(Result<Vec<u8>, std::io::Error>),
    /// A handle.
    Opened(Result<Handle, std::io::Error>),
    /// How a command ended.
    Exited(Exit),
    /// How the two jobs ended.
    Forked(Exit, Exit),
    /// Whether everything was written.
    Written(Result<(), std::io::Error>),
    /// Everything that was read.
    Collected(Result<Vec<u8>, std::io::Error>),
}

/// The contents of a byte string that may be missing.
pub open spec fn bytes_result(result: Result<Vec<u8>, std::io::Error>) -> Result<
    Seq<u8>,
    std::io::Error,
> {
    match result {
        Ok(bytes) => Ok(bytes@),
        Err(e) => Err(e),
    }
}

impl Reply {
    pub open spec fn view(&self) -> ReplyView {
        match *self {
            Reply::Pipe(read, write) => ReplyView::Pipe(read, write),
            Reply::Started(worker) => ReplyView::Started(worker),
            Reply::Variables(pairs) => ReplyView::Variables(env::entries(pairs@)),
            Reply::Inherited(handle) => ReplyView::Inherited(handle),
            Reply::Directory(dir) => ReplyView::Directory(bytes_result(dir)),
            Reply::Opened(handle) => ReplyView::Opened(handle),
            Reply::Exited(exit) => ReplyView::Exited(exit),
            Reply::Forked(left, right) => ReplyView::Forked(left, right),
            Reply::Written(written) => ReplyView::Written(written),
            Reply::Collected(bytes) => ReplyView::Collected(bytes_result(bytes)),
        }
    }
}

/// What a computation of kind `M` wants next, or what it came to.
#[derive(Debug)]
pub enum Next<'a, M, R> {
    /// Carry out the request and hand the reply to the computation.
    Ask(Request<'a>, M),
    /// The computation is over.
    Done(R),
}

/// One step of a computation: first the handles are closed, in order, and then comes what is next.
#[derive(Debug)]
pub struct Step<'a, M, R> {
    pub close: Vec<Handle>,
    pub next: Next<'a, M, R>,
}

impl<'a, M, R> Step<'a, M, R> {
    /// The request that the step makes, if it makes one.
    pub open spec fn request(self) -> Option<RequestView> {
        match self.next {
            Next::Ask(request, _) => Some(request@),
            Next::Done(_) => None,
        }
    }
}

} // verus!
