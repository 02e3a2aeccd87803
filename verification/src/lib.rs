//! Child processes as values: commands, pipelines and redirections that are put together first and
//! run later.
//!
//! An [`Expression`] says what is to be run. [`cmd`] and [`sh`] make simple ones, and the methods
//! of [`Expression`] combine them and change what they run under. [`Expression::run`] and
//! [`Expression::read`] then run one.
//!
//! Running is a conversation. The library decides what happens and in which order, but touches no
//! file, process or thread itself: it hands out one [`Request`] after another, together with the
//! handles that are to be closed first, and takes a [`Reply`] to each. Whoever drives the
//! conversation does the work.
//!
//! What a run does is stated in [`semantics`] as a function of the expression and the replies.
//! [`anatomy`] and [`journeys`] write it out step by step, and [`likeness`] ties values to their
//! views. [`laws`], [`ownership`], [`progress`], [`threads`], [`sequences`], [`pipelines`] and
//! [`words`] say what follows.

pub mod anatomy;
pub mod bytes;
pub mod context;
pub mod env;
pub mod error;
pub mod expression;
pub mod journeys;
pub mod laws;
pub mod likeness;
pub mod model;
pub mod os;
pub mod ownership;
pub mod pipelines;
pub mod progress;
pub mod protocol;
pub mod redirect;
pub mod semantics;
pub mod sequences;
pub mod threads;
pub mod words;

pub use context::IoContext;
pub use error::{Error, Output};
pub use expression::{cmd, sh, AsExpression, Expression};
pub use os::{Exit, Handle, Status, Stream, Worker};
pub use protocol::{Job, Launch, Next, Reply, Request, Step};
pub use redirect::{InputRedirect, IntoOutput, IntoStdin, IntoStdinBytes, OutputRedirect};
