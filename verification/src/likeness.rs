//! Values and their mathematical counterparts hold the same.
//!
//! Contracts speak of views. Each law here takes the values of one type and says, field by field,
//! what their view is.

use vstd::prelude::*;

use crate::bytes;
use crate::bytes::AsOsBytes;
use crate::context::IoContext;
use crate::env;
use crate::error;
use crate::error::{Error, Output};
use crate::expression::{AsExpression, Expression, ReadStep, RunStep, TaskStep};
use crate::model::{
    answers, ask, closes, head, tail, ContextView, ErrorView, LaunchView, Op, OutputView, ReplyView,
    RequestView, Sink, Source, Trace,
};
use crate::os::{fault_of, Exit, Fault, Handle, Status, Stream};
use crate::protocol::{Launch, Next, Reply, Request};
use crate::redirect::{InputRedirect, IntoOutput, IntoStdin, IntoStdinBytes, OutputRedirect};
use crate::semantics;

verus! {

/// A text stands for its UTF-8 encoding, and can be told from it.
pub proof fn text_is_encoded(chars: Seq<char>)
    ensures
        bytes::text(chars) == vstd::utf8::encode_utf8(chars),
        vstd::utf8::valid_utf8(bytes::text(chars)),
        vstd::utf8::decode_utf8(bytes::text(chars)) == chars,
{
    vstd::utf8::encode_utf8_valid_utf8(chars);
    vstd::utf8::encode_utf8_decode_utf8(chars);
}

/// Raw bytes stand for themselves, wherever an operating system string is wanted.
pub proof fn raw_bytes_stand_for_themselves<'a>(a: &'a [u8], b: &'a Vec<u8>, v: Vec<u8>)
    ensures
        <&'a [u8] as AsOsBytes>::os_bytes(&a) == a@,
        <&'a Vec<u8> as AsOsBytes>::os_bytes(&b) == b@,
        <Vec<u8> as AsOsBytes>::os_bytes(&v) == v@,
{
}

/// Text stands for its encoding, wherever an operating system string is wanted.
pub proof fn text_stands_for_its_encoding<'a>(a: &'a str, b: &'a String, s: String)
    ensures
        <&'a str as AsOsBytes>::os_bytes(&a) == vstd::utf8::encode_utf8(a@),
        <&'a String as AsOsBytes>::os_bytes(&b) == vstd::utf8::encode_utf8(b@),
        <String as AsOsBytes>::os_bytes(&s) == vstd::utf8::encode_utf8(s@),
{
}

/// A list of byte strings has the contents of each, in order.
pub proof fn lists_keep_every_string(strings: Seq<Vec<u8>>)
    ensures
        bytes::contents(strings).len() == strings.len(),
        forall|i: int|
            0 <= i < strings.len() ==> #[trigger] bytes::contents(strings)[i] == strings[i]@,
{
}

/// A list of pairs has the contents of each, in order.
pub proof fn lists_keep_every_pair(pairs: Seq<(Vec<u8>, Vec<u8>)>)
    ensures
        env::entries(pairs).len() == pairs.len(),
        forall|i: int|
            0 <= i < pairs.len() ==> (#[trigger] env::entries(pairs)[i]).0 == pairs[i].0@,
        forall|i: int|
            0 <= i < pairs.len() ==> (#[trigger] env::entries(pairs)[i]).1 == pairs[i].1@,
{
}

/// A list of pairs sets exactly the names that occur in it, each to the value that is given last.
pub proof fn the_last_value_of_a_name_holds(pairs: Seq<(Seq<u8>, Seq<u8>)>)
    ensures
        forall|i: int|
            0 <= i < pairs.len() ==> env::collect(pairs).contains_key((#[trigger] pairs[i]).0),
        forall|name: Seq<u8>| #[trigger]
            env::collect(pairs).contains_key(name) ==> exists|i: int|
                0 <= i < pairs.len() && (#[trigger] pairs[i]).0 == name,
        forall|i: int|
            0 <= i < pairs.len() && (forall|j: int|
                i < j < pairs.len() ==> (#[trigger] pairs[j]).0 != pairs[i].0)
                ==> env::collect(pairs)[(#[trigger] pairs[i]).0] == pairs[i].1,
    decreases pairs.len(),
{
    if pairs.len() > 0 {
        let front = pairs.drop_last();
        let last = pairs.len() - 1;
        the_last_value_of_a_name_holds(front);
        assert forall|i: int| 0 <= i < pairs.len() implies env::collect(pairs).contains_key(
            (#[trigger] pairs[i]).0,
        ) by {
            if i < last {
                assert(front[i] == pairs[i]);
            }
        }
        assert forall|name: Seq<u8>| #[trigger]
            env::collect(pairs).contains_key(name) implies exists|i: int|
            0 <= i < pairs.len() && (#[trigger] pairs[i]).0 == name by {
            if name == pairs.last().0 {
                assert(pairs[last].0 == name);
            } else {
                assert(env::collect(front).contains_key(name));
                let i = choose|i: int| 0 <= i < front.len() && (#[trigger] front[i]).0 == name;
                assert(pairs[i] == front[i]);
            }
        }
        assert forall|i: int|
            0 <= i < pairs.len() && (forall|j: int|
                i < j < pairs.len() ==> (#[trigger] pairs[j]).0 != pairs[i].0) implies env::collect(
            pairs,
        )[(#[trigger] pairs[i]).0] == pairs[i].1 by {
            if i < last {
                assert(front[i] == pairs[i]);
                assert(pairs[last].0 != pairs[i].0);
                assert forall|j: int| i < j < front.len() implies (#[trigger] front[j]).0
                    != front[i].0 by {
                    assert(front[j] == pairs[j]);
                }
            }
        }
    }
}

/// Output holds its status and its bytes.
pub proof fn output_is_what_it_holds(output: Output)
    ensures
        output@.status == output.status,
        output@.stdout == output.stdout@,
        output@.stderr == output.stderr@,
{
}

/// An error holds what it carries.
pub proof fn an_error_is_what_it_carries(error: Error)
    ensures
        match error {
            Error::Io(e) => error@ == ErrorView::Io(e),
            Error::Utf8(e) => error@ == ErrorView::Utf8(e),
            Error::Status(output) => {
                &&& error@ is Status
                &&& error@->Status_0.status == output.status
                &&& error@->Status_0.stdout == output.stdout@
                &&& error@->Status_0.stderr == output.stderr@
            },
        },
{
}

/// A result of running holds the output or the error.
pub proof fn a_run_result_is_what_it_holds(result: Result<Output, Error>)
    ensures
        match result {
            Ok(output) => {
                let view = error::run_result(result);
                &&& view is Ok
                &&& view->Ok_0.status == output.status
                &&& view->Ok_0.stdout == output.stdout@
                &&& view->Ok_0.stderr == output.stderr@
            },
            Err(error) => error::run_result(result) == Err::<OutputView, ErrorView>(error@),
        },
{
}

/// A result of reading holds the text or the error.
pub proof fn a_read_result_is_what_it_holds(result: Result<String, Error>)
    ensures
        match result {
            Ok(text) => error::read_result(result) == Ok::<Seq<char>, ErrorView>(text@),
            Err(error) => error::read_result(result) == Err::<Seq<char>, ErrorView>(error@),
        },
{
}

/// Output is a success exactly if its status is zero. Either way it comes back whole.
pub proof fn judging_keeps_the_output(output: OutputView)
    ensures
        output.status == 0 ==> error::judge(output) == Ok::<OutputView, ErrorView>(output),
        output.status != 0 ==> error::judge(output) == Err::<OutputView, ErrorView>(
            ErrorView::Status(output),
        ),
{
}

/// A launch holds its words, one by one, its streams, its directory and its environment.
pub proof fn a_launch_is_what_it_holds(launch: Launch)
    ensures
        launch@.argv.len() == launch.argv@.len(),
        forall|i: int|
            0 <= i < launch.argv@.len() ==> #[trigger] launch@.argv[i] == launch.argv@[i]@,
        launch@.stdin == launch.stdin,
        launch@.stdout == launch.stdout,
        launch@.stderr == launch.stderr,
        launch@.dir == launch.dir@,
        launch@.env == launch.env@,
{
}

/// There is a program to launch exactly if there is a word.
pub proof fn a_program_is_a_first_word(launch: LaunchView)
    ensures
        launch.has_program() <==> launch.argv.len() > 0,
{
}

/// A context holds its five handles, its directory and its environment.
pub proof fn a_context_is_what_it_holds(context: IoContext)
    ensures
        context@.stdin == context.stdin,
        context@.stdout == context.stdout,
        context@.stderr == context.stderr,
        context@.stdout_capture == context.stdout_capture,
        context@.stderr_capture == context.stderr_capture,
        context@.dir == context.dir@,
        context@.env == context.env@,
{
}

/// The handles of a context are its five handles in order, and its streams are the first three.
pub proof fn a_context_has_five_handles(c: ContextView)
    ensures
        c.handles() == seq![c.stdin, c.stdout, c.stderr, c.stdout_capture, c.stderr_capture],
        c.stream(Stream::Stdin) == c.stdin,
        c.stream(Stream::Stdout) == c.stdout,
        c.stream(Stream::Stderr) == c.stderr,
{
}

/// Other handles change nothing about the directory and the environment.
pub proof fn other_handles_change_nothing_else(c: ContextView, handles: Seq<Handle>)
    requires
        handles.len() == 5,
    ensures
        c.with_handles(handles).handles() == handles,
        c.with_handles(handles).dir == c.dir,
        c.with_handles(handles).env == c.env,
{
    assert(c.with_handles(handles).handles() =~= handles);
}

/// Another handle for a stream changes that stream and nothing else.
pub proof fn another_stream_changes_nothing_else(c: ContextView, stream: Stream, handle: Handle)
    ensures
        ({
            let other = c.with_stream(stream, handle);
            &&& other.stdin == if stream == Stream::Stdin {
                handle
            } else {
                c.stdin
            }
            &&& other.stdout == if stream == Stream::Stdout {
                handle
            } else {
                c.stdout
            }
            &&& other.stderr == if stream == Stream::Stderr {
                handle
            } else {
                c.stderr
            }
            &&& other.stdout_capture == c.stdout_capture
            &&& other.stderr_capture == c.stderr_capture
            &&& other.dir == c.dir
            &&& other.env == c.env
        }),
{
}

/// A request asks for what it names.
pub proof fn a_request_is_what_it_names(request: Request<'_>)
    ensures
        match request {
            Request::OpenPipe => request@ == RequestView::OpenPipe,
            Request::StartReader(read) => request@ == RequestView::StartReader(read),
            Request::StartWriter(write, input) => request@ == RequestView::StartWriter(
                write,
                input@,
            ),
            Request::Environment => request@ == RequestView::Environment,
            Request::Inherit(stream) => request@ == RequestView::Inherit(stream),
            Request::CurrentDir => request@ == RequestView::CurrentDir,
            Request::OpenRead(path) => request@ == RequestView::OpenRead(path@),
            Request::OpenWrite(path) => request@ == RequestView::OpenWrite(path@),
            Request::Duplicate(handle) => request@ == RequestView::Duplicate(handle),
            Request::Launch(launch) => request@ == RequestView::Launch(launch@),
            Request::Fork(left, right) => request@ == RequestView::Fork(
                left.expression@,
                left.context@,
                right.expression@,
                right.context@,
            ),
            Request::JoinWriter(writer) => request@ == RequestView::JoinWriter(writer),
            Request::JoinReader(reader) => request@ == RequestView::JoinReader(reader),
        },
{
}

/// A reply brings what it holds.
pub proof fn a_reply_is_what_it_holds(reply: Reply)
    ensures
        match reply {
            Reply::Pipe(read, write) => reply@ == ReplyView::Pipe(read, write),
            Reply::Started(worker) => reply@ == ReplyView::Started(worker),
            Reply::Variables(pairs) => {
                &&& reply@ is Variables
                &&& reply@->Variables_0.len() == pairs@.len()
                &&& forall|i: int|
                    0 <= i < pairs@.len() ==> #[trigger] reply@->Variables_0[i] == (
                        pairs@[i].0@,
                        pairs@[i].1@,
                    )
            },
            Reply::Inherited(handle) => reply@ == ReplyView::Inherited(handle),
            Reply::Directory(Ok(dir)) => reply@ == ReplyView::Directory(Ok(dir@)),
            Reply::Directory(Err(e)) => reply@ == ReplyView::Directory(Err(e)),
            Reply::Opened(opened) => reply@ == ReplyView::Opened(opened),
            Reply::Exited(exit) => reply@ == ReplyView::Exited(exit),
            Reply::Forked(left, right) => reply@ == ReplyView::Forked(left, right),
            Reply::Written(written) => reply@ == ReplyView::Written(written),
            Reply::Collected(Ok(collected)) => reply@ == ReplyView::Collected(Ok(collected@)),
            Reply::Collected(Err(e)) => reply@ == ReplyView::Collected(Err(e)),
        },
{
}

/// Every request is answered by one kind of reply.
pub proof fn requests_are_answered_in_kind(request: RequestView, reply: ReplyView)
    ensures
        answers(request, reply) <==> ({
            ||| request is OpenPipe && reply is Pipe
            ||| request is StartReader && reply is Started
            ||| request is StartWriter && reply is Started
            ||| request is Environment && reply is Variables
            ||| request is Inherit && reply is Inherited
            ||| request is CurrentDir && reply is Directory
            ||| request is OpenRead && reply is Opened
            ||| request is OpenWrite && reply is Opened
            ||| request is Duplicate && reply is Opened
            ||| request is Launch && reply is Exited
            ||| request is Fork && reply is Forked
            ||| request is JoinWriter && reply is Written
            ||| request is JoinReader && reply is Collected
        }),
{
}

/// An input names a path, a file or bytes, exactly as given.
pub proof fn an_input_is_what_it_names(input: InputRedirect<'_>)
    ensures
        match input {
            InputRedirect::Null => input@ == Source::Null,
            InputRedirect::Path(path) => input@ == Source::Path(path@),
            InputRedirect::PathBuf(path) => input@ == Source::Path(path@),
            InputRedirect::FileRef(file) => input@ == Source::File(*file),
            InputRedirect::File(file) => input@ == Source::File(file),
            InputRedirect::BytesSlice(given) => input@ == Source::Bytes(given@),
            InputRedirect::BytesVec(given) => input@ == Source::Bytes(given@),
        },
{
}

/// An output names a stream, a path or a file, exactly as given.
pub proof fn an_output_is_what_it_names(output: OutputRedirect<'_>)
    ensures
        match output {
            OutputRedirect::Capture => output@ == Sink::Capture,
            OutputRedirect::Null => output@ == Sink::Null,
            OutputRedirect::Stdout => output@ == Sink::Stdout,
            OutputRedirect::Stderr => output@ == Sink::Stderr,
            OutputRedirect::Path(path) => output@ == Sink::Path(path@),
            OutputRedirect::PathBuf(path) => output@ == Sink::Path(path@),
            OutputRedirect::FileRef(file) => output@ == Sink::File(*file),
            OutputRedirect::File(file) => output@ == Sink::File(file),
        },
{
}

/// Input bytes are the bytes, or the encoding of the text, that is given.
pub proof fn input_bytes_are_what_is_given<'a>(
    a: &'a [u8],
    b: &'a Vec<u8>,
    v: Vec<u8>,
    s: &'a str,
    t: &'a String,
    u: String,
)
    ensures
        <&'a [u8] as IntoStdinBytes<'a>>::bytes_source(a) == Source::Bytes(a@),
        <&'a Vec<u8> as IntoStdinBytes<'a>>::bytes_source(b) == Source::Bytes(b@),
        <Vec<u8> as IntoStdinBytes<'static>>::bytes_source(v) == Source::Bytes(v@),
        <&'a str as IntoStdinBytes<'a>>::bytes_source(s) == Source::Bytes(
            vstd::utf8::encode_utf8(s@),
        ),
        <&'a String as IntoStdinBytes<'a>>::bytes_source(t) == Source::Bytes(
            vstd::utf8::encode_utf8(t@),
        ),
        <String as IntoStdinBytes<'static>>::bytes_source(u) == Source::Bytes(
            vstd::utf8::encode_utf8(u@),
        ),
{
}

/// An input file is the path, as bytes or as text, or the open file that is named.
pub proof fn input_files_are_what_is_named<'a>(
    a: &'a [u8],
    b: &'a Vec<u8>,
    v: Vec<u8>,
    s: &'a str,
    t: &'a String,
    u: String,
    f: &'a Handle,
    g: Handle,
)
    ensures
        <&'a [u8] as IntoStdin<'a>>::source(a) == Source::Path(a@),
        <&'a Vec<u8> as IntoStdin<'a>>::source(b) == Source::Path(b@),
        <Vec<u8> as IntoStdin<'static>>::source(v) == Source::Path(v@),
        <&'a str as IntoStdin<'a>>::source(s) == Source::Path(vstd::utf8::encode_utf8(s@)),
        <&'a String as IntoStdin<'a>>::source(t) == Source::Path(vstd::utf8::encode_utf8(t@)),
        <String as IntoStdin<'static>>::source(u) == Source::Path(vstd::utf8::encode_utf8(u@)),
        <&'a Handle as IntoStdin<'a>>::source(f) == Source::File(*f),
        <Handle as IntoStdin<'static>>::source(g) == Source::File(g),
{
}

/// An output file is the path, as bytes or as text, or the open file that is named.
pub proof fn output_files_are_what_is_named<'a>(
    a: &'a [u8],
    b: &'a Vec<u8>,
    v: Vec<u8>,
    s: &'a str,
    t: &'a String,
    u: String,
    f: &'a Handle,
    g: Handle,
)
    ensures
        <&'a [u8] as IntoOutput<'a>>::sink(a) == Sink::Path(a@),
        <&'a Vec<u8> as IntoOutput<'a>>::sink(b) == Sink::Path(b@),
        <Vec<u8> as IntoOutput<'static>>::sink(v) == Sink::Path(v@),
        <&'a str as IntoOutput<'a>>::sink(s) == Sink::Path(vstd::utf8::encode_utf8(s@)),
        <&'a String as IntoOutput<'a>>::sink(t) == Sink::Path(vstd::utf8::encode_utf8(t@)),
        <String as IntoOutput<'static>>::sink(u) == Sink::Path(vstd::utf8::encode_utf8(u@)),
        <&'a Handle as IntoOutput<'a>>::sink(f) == Sink::File(*f),
        <Handle as IntoOutput<'static>>::sink(g) == Sink::File(g),
{
}

/// A redirection stands for itself.
pub proof fn redirections_stand_for_themselves<'a>(i: InputRedirect<'a>, o: OutputRedirect<'a>)
    ensures
        <InputRedirect<'a> as IntoStdin<'a>>::source(i) == i@,
        <OutputRedirect<'a> as IntoOutput<'a>>::sink(o) == o@,
{
}

/// An expression stands for itself, and so does a reference to one.
pub proof fn expressions_stand_for_themselves<'a, 'b>(e: Expression<'a>, f: &'b Expression<'a>)
    ensures
        <Expression<'a> as AsExpression<'a>>::tree(&e) == e@,
        <&'b Expression<'a> as AsExpression<'a>>::tree(&f) == f@,
{
}

/// An error of a writer counts unless the pipe was broken, or the expression has an error itself.
pub proof fn a_writer_may_be_cut_short(exit: Exit, error: std::io::Error)
    ensures
        semantics::written_exit(exit, Ok(())) == exit,
        exit is Err ==> semantics::written_exit(exit, Err(error)) == exit,
        fault_of(error) == Fault::BrokenPipe ==> semantics::written_exit(exit, Err(error)) == exit,
        fault_of(error) == Fault::Other && exit is Ok ==> semantics::written_exit(exit, Err(error))
            == Err::<Status, std::io::Error>(error),
        exit is Ok ==> semantics::writer_failed(exit->Ok_0, error, Fault::BrokenPipe) == exit,
        exit is Ok ==> semantics::writer_failed(exit->Ok_0, error, Fault::Other) == Err::<
            Status,
            std::io::Error,
        >(error),
{
}

/// Lists of steps, replies and traces are put together in the obvious way.
pub proof fn traces_are_put_together<R>(
    handles: Seq<Handle>,
    request: RequestView,
    r: Seq<ReplyView>,
    t: Trace<R>,
    ops: Seq<Op>,
    result: R,
)
    ensures
        closes(handles).len() == handles.len(),
        forall|i: int|
            0 <= i < handles.len() ==> #[trigger] closes(handles)[i] == Op::Close(handles[i]),
        ask(request) == seq![Op::Ask(request)],
        r.len() == 0 ==> head(r) is None,
        r.len() > 0 ==> head(r) == Some(r[0]) && tail(r) == r.drop_first(),
        t.after(ops).ops == ops + t.ops,
        t.after(ops).rest == t.rest,
        t.after(ops).end == t.end,
        Trace::<R>::stuck().ops.len() == 0,
        Trace::<R>::stuck().end is None,
        Trace::done(result, r).ops.len() == 0,
        Trace::done(result, r).rest == r,
        Trace::done(result, r).end == Some(result),
{
}

/// From a step of a task on, the handles that it lists are closed, in order, then its request is
/// made, and then comes what follows the reply; or else it is over, with the result that the step
/// holds.
pub proof fn a_task_goes_on_from_its_step(step: TaskStep<'_>, r: Seq<ReplyView>)
    ensures
        ({
            let t = step.trace(r);
            let closing = Seq::new(step.close@.len(), |i: int| Op::Close(step.close@[i]));
            match step.next {
                Next::Ask(request, waiting) => {
                    &&& t.ops == closing + seq![Op::Ask(request@)] + waiting.trace(r).ops
                    &&& t.rest == waiting.trace(r).rest
                    &&& t.end == waiting.trace(r).end
                },
                Next::Done(exit) => {
                    &&& t.ops == closing
                    &&& t.rest == r
                    &&& t.end == Some(exit)
                },
            }
        }),
{
    let closing = Seq::new(step.close@.len(), |i: int| Op::Close(step.close@[i]));
    assert(closes(step.close@) =~= closing);
    if step.next is Done {
        assert(step.trace(r).ops =~= closing);
    }
}

/// From a step of a run on, the handles that it lists are closed, in order, then its request is
/// made, and then comes what follows the reply; or else it is over, with the result that the step
/// holds.
pub proof fn a_run_goes_on_from_its_step(step: RunStep<'_>, r: Seq<ReplyView>)
    ensures
        ({
            let t = step.trace(r);
            let closing = Seq::new(step.close@.len(), |i: int| Op::Close(step.close@[i]));
            match step.next {
                Next::Ask(request, waiting) => {
                    &&& t.ops == closing + seq![Op::Ask(request@)] + waiting.trace(r).ops
                    &&& t.rest == waiting.trace(r).rest
                    &&& t.end == waiting.trace(r).end
                },
                Next::Done(result) => {
                    &&& t.ops == closing
                    &&& t.rest == r
                    &&& t.end == Some(error::run_result(result))
                },
            }
        }),
{
    let closing = Seq::new(step.close@.len(), |i: int| Op::Close(step.close@[i]));
    assert(closes(step.close@) =~= closing);
    if step.next is Done {
        assert(step.trace(r).ops =~= closing);
    }
}

/// From a step of reading on, the handles that it lists are closed, in order, then its request is
/// made, and then comes what follows the reply; or else it is over, with the result that the step
/// holds.
pub proof fn reading_goes_on_from_its_step(step: ReadStep<'_>, r: Seq<ReplyView>)
    ensures
        ({
            let t = step.trace(r);
            let closing = Seq::new(step.close@.len(), |i: int| Op::Close(step.close@[i]));
            match step.next {
                Next::Ask(request, waiting) => {
                    &&& t.ops == closing + seq![Op::Ask(request@)] + waiting.trace(r).ops
                    &&& t.rest == waiting.trace(r).rest
                    &&& t.end == waiting.trace(r).end
                },
                Next::Done(result) => {
                    &&& t.ops == closing
                    &&& t.rest == r
                    &&& t.end == Some(error::read_result(result))
                },
            }
        }),
{
    let closing = Seq::new(step.close@.len(), |i: int| Op::Close(step.close@[i]));
    assert(closes(step.close@) =~= closing);
    if step.next is Done {
        assert(step.trace(r).ops =~= closing);
    }
}

} // verus!
