//! Expressions: commands, and the ways to combine them and to change what they run under.

use std::sync::Arc;

use vstd::prelude::*;

use crate::bytes;
use crate::bytes::AsOsBytes;
use crate::env;
use crate::env::EnvMap;
use crate::model::{Expr, Setting, Sink, Source};
use crate::redirect::{InputRedirect, IntoOutput, IntoStdin, IntoStdinBytes, OutputRedirect};
use crate::sequences::{associate, sequences_associate};

mod run;
mod task;

pub use run::{Read, ReadStep, Run, RunStep};
pub use task::{pipe_exit, writer_failed, written_exit, Task, TaskStep};

verus! {

/// A command, or several commands put together, with everything that is to be redirected.
///
/// Expressions are values: every method leaves the expression as it is and returns a new one.
#[derive(Debug)]
#[must_use]
pub struct Expression<'a> {
    inner: Arc<ExpressionInner<'a>>,
}

#[derive(Debug)]
enum ExpressionInner<'a> {
    Exec(ExecutableExpression<'a>),
    Io(IoArg<'a>, Expression<'a>),
}

#[derive(Debug)]
enum ExecutableExpression<'a> {
    ArgvCommand(Vec<Vec<u8>>),
    ShCommand(Vec<u8>),
    Pipe(Expression<'a>, Expression<'a>),
    Then(Expression<'a>, Expression<'a>),
}

#[derive(Debug)]
enum IoArg<'a> {
    Stdin(InputRedirect<'a>),
    Stdout(OutputRedirect<'a>),
    Stderr(OutputRedirect<'a>),
    Dir(Vec<u8>),
    Env(Vec<u8>, Vec<u8>),
    FullEnv(EnvMap),
    Unchecked,
}

impl<'a> IoArg<'a> {
    spec fn view(&self) -> Setting {
        match *self {
            IoArg::Stdin(redirect) => Setting::Stdin(redirect@),
            IoArg::Stdout(redirect) => Setting::Stdout(redirect@),
            IoArg::Stderr(redirect) => Setting::Stderr(redirect@),
            IoArg::Dir(dir) => Setting::Dir(dir@),
            IoArg::Env(name, value) => Setting::Env(name@, value@),
            IoArg::FullEnv(env) => Setting::FullEnv(env@),
            IoArg::Unchecked => Setting::Unchecked,
        }
    }
}

impl<'a> Expression<'a> {
    /// The expression as a tree.
    pub closed spec fn view(&self) -> Expr
        decreases self,
    {
        match *self.inner {
            ExpressionInner::Exec(ExecutableExpression::ArgvCommand(argv)) => Expr::Argv(
                bytes::contents(argv@),
            ),
            ExpressionInner::Exec(ExecutableExpression::ShCommand(command)) => Expr::Sh(command@),
            ExpressionInner::Exec(ExecutableExpression::Pipe(left, right)) => Expr::Pipe(
                Box::new(left.view()),
                Box::new(right.view()),
            ),
            ExpressionInner::Exec(ExecutableExpression::Then(left, right)) => Expr::Then(
                Box::new(left.view()),
                Box::new(right.view()),
            ),
            ExpressionInner::Io(arg, inner) => Expr::Io(arg.view(), Box::new(inner.view())),
        }
    }
}

/// Calls `std::sync::Arc::clone`, which returns another pointer to the same value.
#[verifier::external_body]
fn share<T>(value: &Arc<T>) -> (same: Arc<T>)
    ensures
        same == *value,
{
    value.clone()
}

impl<'a> Clone for Expression<'a> {
    fn clone(&self) -> (copy: Expression<'a>)
        ensures
            copy@ == self@,
    {
        Expression { inner: share(&self.inner) }
    }
}

/// An expression or a reference to one.
pub trait AsExpression<'a> {
    /// The expression as a tree.
    spec fn tree(&self) -> Expr;

    fn as_expression(&self) -> (expression: &Expression<'a>)
        ensures
            expression@ == self.tree(),
    ;
}

impl<'a> AsExpression<'a> for Expression<'a> {
    open spec fn tree(&self) -> Expr {
        self@
    }

    fn as_expression(&self) -> (expression: &Expression<'a>) {
        self
    }
}

impl<'a, 'b> AsExpression<'a> for &'b Expression<'a> {
    open spec fn tree(&self) -> Expr {
        self@
    }

    fn as_expression(&self) -> (expression: &Expression<'a>) {
        *self
    }
}

/// A command: a program and its arguments.
pub fn cmd<T: AsOsBytes>(argv: &[T]) -> (expression: Expression<'static>)
    ensures
        expression@ == Expr::Argv(argv@.map_values(|arg: T| arg.os_bytes())),
{
    let mut words: Vec<Vec<u8>> = Vec::new();
    let mut i: usize = 0;
    let ghost all = argv@.map_values(|arg: T| arg.os_bytes());
    while i < argv.len()
        invariant
            i <= argv@.len(),
            all == argv@.map_values(|arg: T| arg.os_bytes()),
            bytes::contents(words@) == all.take(i as int),
        decreases argv@.len() - i,
    {
        let ghost before = bytes::contents(words@);
        words.push(bytes::own(&argv[i]));
        proof {
            assert(bytes::contents(words@) =~= before.push(all[i as int]));
            assert(all.take(i + 1) =~= before.push(all[i as int]));
        }
        i = i + 1;
    }
    proof {
        assert(all.take(i as int) =~= all);
    }
    Expression::new(ExpressionInner::Exec(ExecutableExpression::ArgvCommand(words)))
}

/// A command that the shell is to interpret.
pub fn sh<T: AsOsBytes>(command: T) -> (expression: Expression<'static>)
    ensures
        expression@ == Expr::Sh(command.os_bytes()),
{
    Expression::new(ExpressionInner::Exec(ExecutableExpression::ShCommand(bytes::own(&command))))
}

impl<'a> Expression<'a> {
    /// Runs both expressions at once and connects the output of this one to the input of the
    /// other.
    pub fn pipe<'b, T: AsExpression<'b>>(&self, right: T) -> (expression: Expression<'a>) where
        'b: 'a,

        ensures
            expression@ == Expr::Pipe(Box::new(self@), Box::new(right.tree())),
    {
        let right: Expression<'a> = right.as_expression().clone();
        Expression::new(ExpressionInner::Exec(ExecutableExpression::Pipe(self.clone(), right)))
    }

    /// Runs the other expression after this one, if this one succeeds. It does not matter how
    /// longer sequences are grouped.
    pub fn then<'b, T: AsExpression<'b>>(&self, right: T) -> (expression: Expression<'a>) where
        'b: 'a,

        ensures
            expression@ == Expr::Then(Box::new(self@), Box::new(right.tree())),
            self@ matches Expr::Then(first, second) ==> associate(*first, *second, right.tree()),
            right.tree() matches Expr::Then(second, third) ==> associate(self@, *second, *third),
    {
        proof {
            if let Expr::Then(first, second) = self@ {
                sequences_associate(*first, *second, right.tree());
            }
            if let Expr::Then(second, third) = right.tree() {
                sequences_associate(self@, *second, *third);
            }
        }
        let right: Expression<'a> = right.as_expression().clone();
        Expression::new(ExpressionInner::Exec(ExecutableExpression::Then(self.clone(), right)))
    }

    /// Feeds these bytes to the expression.
    pub fn input<'b, T: IntoStdinBytes<'b>>(&self, input: T) -> (expression: Expression<'a>) where
        'b: 'a,

        ensures
            expression@ == Expr::Io(Setting::Stdin(input.bytes_source()), Box::new(self@)),
    {
        self.with(IoArg::Stdin(input.into_stdin_bytes()))
    }

    /// Reads the input from a file.
    pub fn stdin<'b, T: IntoStdin<'b>>(&self, stdin: T) -> (expression: Expression<'a>) where
        'b: 'a,

        ensures
            expression@ == Expr::Io(Setting::Stdin(stdin.source()), Box::new(self@)),
    {
        self.with(IoArg::Stdin(stdin.into_stdin()))
    }

    /// Leaves the input empty.
    pub fn null_stdin(&self) -> (expression: Expression<'a>)
        ensures
            expression@ == Expr::Io(Setting::Stdin(Source::Null), Box::new(self@)),
    {
        self.with(IoArg::Stdin(InputRedirect::Null))
    }

    /// Writes the output to a file.
    pub fn stdout<'b, T: IntoOutput<'b>>(&self, stdout: T) -> (expression: Expression<'a>) where
        'b: 'a,

        ensures
            expression@ == Expr::Io(Setting::Stdout(stdout.sink()), Box::new(self@)),
    {
        self.with(IoArg::Stdout(stdout.into_output()))
    }

    /// Throws the output away.
    pub fn null_stdout(&self) -> (expression: Expression<'a>)
        ensures
            expression@ == Expr::Io(Setting::Stdout(Sink::Null), Box::new(self@)),
    {
        self.with(IoArg::Stdout(OutputRedirect::Null))
    }

    /// Hands the output to the caller.
    pub fn capture_stdout(&self) -> (expression: Expression<'a>)
        ensures
            expression@ == Expr::Io(Setting::Stdout(Sink::Capture), Box::new(self@)),
    {
        self.with(IoArg::Stdout(OutputRedirect::Capture))
    }

    /// Sends the output where the error output goes.
    pub fn stdout_to_stderr(&self) -> (expression: Expression<'a>)
        ensures
            expression@ == Expr::Io(Setting::Stdout(Sink::Stderr), Box::new(self@)),
    {
        self.with(IoArg::Stdout(OutputRedirect::Stderr))
    }

    /// Writes the error output to a file.
    pub fn stderr<'b, T: IntoOutput<'b>>(&self, stderr: T) -> (expression: Expression<'a>) where
        'b: 'a,

        ensures
            expression@ == Expr::Io(Setting::Stderr(stderr.sink()), Box::new(self@)),
    {
        self.with(IoArg::Stderr(stderr.into_output()))
    }

    /// Throws the error output away.
    pub fn null_stderr(&self) -> (expression: Expression<'a>)
        ensures
            expression@ == Expr::Io(Setting::Stderr(Sink::Null), Box::new(self@)),
    {
        self.with(IoArg::Stderr(OutputRedirect::Null))
    }

    /// Hands the error output to the caller.
    pub fn capture_stderr(&self) -> (expression: Expression<'a>)
        ensures
            expression@ == Expr::Io(Setting::Stderr(Sink::Capture), Box::new(self@)),
    {
        self.with(IoArg::Stderr(OutputRedirect::Capture))
    }

    /// Sends the error output where the output goes.
    pub fn stderr_to_stdout(&self) -> (expression: Expression<'a>)
        ensures
            expression@ == Expr::Io(Setting::Stderr(Sink::Stdout), Box::new(self@)),
    {
        self.with(IoArg::Stderr(OutputRedirect::Stdout))
    }

    /// Starts the commands in this directory.
    pub fn dir<T: AsOsBytes>(&self, path: T) -> (expression: Expression<'a>)
        ensures
            expression@ == Expr::Io(Setting::Dir(path.os_bytes()), Box::new(self@)),
    {
        self.with(IoArg::Dir(bytes::own(&path)))
    }

    /// Sets an environment variable.
    pub fn env<T: AsOsBytes, U: AsOsBytes>(&self, name: T, val: U) -> (expression: Expression<'a>)
        ensures
            expression@ == Expr::Io(
                Setting::Env(name.os_bytes(), val.os_bytes()),
                Box::new(self@),
            ),
    {
        self.with(IoArg::Env(bytes::own(&name), bytes::own(&val)))
    }

    /// Replaces the whole environment. Where a name is given twice, the later value holds.
    pub fn full_env<U: AsOsBytes, V: AsOsBytes>(&self, name_vals: Vec<(U, V)>) -> (expression:
        Expression<'a>)
        ensures
            expression@ == Expr::Io(
                Setting::FullEnv(
                    env::collect(
                        name_vals@.map_values(|p: (U, V)| (p.0.os_bytes(), p.1.os_bytes())),
                    ),
                ),
                Box::new(self@),
            ),
    {
        let mut env = EnvMap::new();
        let mut i: usize = 0;
        let ghost all = name_vals@.map_values(|p: (U, V)| (p.0.os_bytes(), p.1.os_bytes()));
        while i < name_vals.len()
            invariant
                i <= name_vals@.len(),
                all == name_vals@.map_values(|p: (U, V)| (p.0.os_bytes(), p.1.os_bytes())),
                env@ == env::collect(all.take(i as int)),
            decreases name_vals@.len() - i,
        {
            env = env.insert(bytes::own(&name_vals[i].0), bytes::own(&name_vals[i].1));
            proof {
                assert(all.take(i + 1).drop_last() =~= all.take(i as int));
            }
            i = i + 1;
        }
        proof {
            assert(all.take(i as int) =~= all);
        }
        self.with(IoArg::FullEnv(env))
    }

    /// Treats any exit status as success.
    pub fn unchecked(&self) -> (expression: Expression<'a>)
        ensures
            expression@ == Expr::Io(Setting::Unchecked, Box::new(self@)),
    {
        self.with(IoArg::Unchecked)
    }

    /// This expression with one thing changed about what it runs under.
    fn with(&self, arg: IoArg<'a>) -> (expression: Expression<'a>)
        ensures
            expression@ == Expr::Io(arg.view(), Box::new(self@)),
    {
        Expression::new(ExpressionInner::Io(arg, self.clone()))
    }

    fn new(inner: ExpressionInner<'a>) -> (expression: Expression<'a>)
        ensures
            *expression.inner == inner,
    {
        Expression { inner: Arc::new(inner) }
    }
}

} // verus!
