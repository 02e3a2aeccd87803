//! The circumstances that an expression runs under.

use vstd::prelude::*;
use vstd::slice::slice_to_vec;

use crate::env;
use crate::env::EnvMap;
use crate::model::ContextView;
use crate::os::{Handle, Stream};

verus! {

/// The handles that child processes talk to, the directory they start in and the environment they
/// see.
///
/// A context owns its handles. It is made when a run starts and passed down to the parts of the
/// expression: compound expressions duplicate it, and redirections change it.
#[derive(Debug)]
pub struct IoContext {
    pub stdin: Handle,
    pub stdout: Handle,
    pub stderr: Handle,
    pub stdout_capture: Handle,
    pub stderr_capture: Handle,
    pub dir: Vec<u8>,
    pub env: EnvMap,
}

/// Lists handles the other way round.
pub(crate) fn reversed(handles: Vec<Handle>) -> (reversed: Vec<Handle>)
    ensures
        reversed@ == handles@.reverse(),
{
    let mut reversed: Vec<Handle> = Vec::new();
    let mut i: usize = handles.len();
    while i > 0
        invariant
            i <= handles@.len(),
            reversed@ == handles@.reverse().take(handles@.len() - i),
        decreases i,
    {
        i = i - 1;
        reversed.push(handles[i]);
        proof {
            let n = handles@.len() - i;
            assert(handles@.reverse().take(n) =~= handles@.reverse().take(n - 1).push(
                handles@[i as int],
            ));
        }
    }
    proof {
        assert(handles@.reverse().take(handles@.len() as int) =~= handles@.reverse());
    }
    reversed
}

impl IoContext {
    pub open spec fn view(&self) -> ContextView {
        ContextView {
            stdin: self.stdin,
            stdout: self.stdout,
            stderr: self.stderr,
            stdout_capture: self.stdout_capture,
            stderr_capture: self.stderr_capture,
            dir: self.dir@,
            env: self.env@,
        }
    }

    /// Puts together the context that a run starts in.
    pub fn new(
        stdin: Handle,
        stdout: Handle,
        stderr: Handle,
        stdout_capture: Handle,
        stderr_capture: Handle,
        dir: Vec<u8>,
        variables: Vec<(Vec<u8>, Vec<u8>)>,
    ) -> (context: IoContext)
        ensures
            context@ == (ContextView {
                stdin,
                stdout,
                stderr,
                stdout_capture,
                stderr_capture,
                dir: dir@,
                env: env::collect(env::entries(variables@)),
            }),
    {
        IoContext {
            stdin,
            stdout,
            stderr,
            stdout_capture,
            stderr_capture,
            dir,
            env: EnvMap::from_pairs(variables),
        }
    }

    /// The handle of a standard stream.
    pub fn stream(&self, stream: Stream) -> (handle: Handle)
        ensures
            handle == self@.stream(stream),
            stream == Stream::Stdin ==> handle == self.stdin,
            stream == Stream::Stdout ==> handle == self.stdout,
            stream == Stream::Stderr ==> handle == self.stderr,
    {
        match stream {
            Stream::Stdin => self.stdin,
            Stream::Stdout => self.stdout,
            Stream::Stderr => self.stderr,
        }
    }

    /// The same context with another handle for a standard stream.
    pub fn with_stream(self, stream: Stream, handle: Handle) -> (context: IoContext)
        ensures
            context@ == self@.with_stream(stream, handle),
    {
        match stream {
            Stream::Stdin => IoContext { stdin: handle, ..self },
            Stream::Stdout => IoContext { stdout: handle, ..self },
            Stream::Stderr => IoContext { stderr: handle, ..self },
        }
    }

    /// One of the five handles.
    pub fn handle(&self, index: usize) -> (handle: Handle)
        requires
            index < 5,
        ensures
            handle == self@.handles()[index as int],
    {
        if index == 0 {
            self.stdin
        } else if index == 1 {
            self.stdout
        } else if index == 2 {
            self.stderr
        } else if index == 3 {
            self.stdout_capture
        } else {
            self.stderr_capture
        }
    }

    /// Lists the handles for closing, behind those that are listed already.
    pub fn release(self, close: Vec<Handle>) -> (all: Vec<Handle>)
        ensures
            all@ == close@ + self@.handles(),
            all@ == close@ + seq![
                self.stdin,
                self.stdout,
                self.stderr,
                self.stdout_capture,
                self.stderr_capture,
            ],
    {
        let mut all = close;
        all.push(self.stdin);
        all.push(self.stdout);
        all.push(self.stderr);
        all.push(self.stdout_capture);
        all.push(self.stderr_capture);
        proof {
            assert(all@ =~= close@ + self@.handles());
        }
        all
    }

    /// The same context with duplicates of the handles.
    pub fn with_handles(&self, copies: &Vec<Handle>) -> (context: IoContext)
        requires
            copies@.len() == 5,
        ensures
            context@ == self@.with_handles(copies@),
            context.stdin == copies@[0],
            context.stdout == copies@[1],
            context.stderr == copies@[2],
            context.stdout_capture == copies@[3],
            context.stderr_capture == copies@[4],
            context.dir@ == self.dir@,
            context.env@ == self.env@,
    {
        IoContext {
            stdin: copies[0],
            stdout: copies[1],
            stderr: copies[2],
            stdout_capture: copies[3],
            stderr_capture: copies[4],
            dir: slice_to_vec(self.dir.as_slice()),
            env: self.env.clone(),
        }
    }
}

} // verus!
