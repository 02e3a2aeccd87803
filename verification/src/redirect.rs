//! Where commands read from and write to, and the values that can be used to say so.

use vstd::prelude::*;
use vstd::slice::slice_to_vec;

use crate::bytes;
use crate::model::{RequestView, Sink, Source};
use crate::os::Handle;
use crate::protocol::Request;
use crate::semantics;

verus! {

/// Where a command reads its input from.
#[derive(Debug)]
pub enum InputRedirect<'a> {
    /// Nowhere: the input is empty.
    Null,
    /// The file at this path.
    Path(&'a [u8]),
    /// The file at this path.
    PathBuf(Vec<u8>),
    /// A file that is open already.
    FileRef(&'a Handle),
    /// A file that is open already.
    File(Handle),
    /// These bytes.
    BytesSlice(&'a [u8]),
    /// These bytes.
    BytesVec(Vec<u8>),
}

impl<'a> InputRedirect<'a> {
    pub open spec fn view(&self) -> Source {
        match *self {
            InputRedirect::Null => Source::Null,
            InputRedirect::Path(path) => Source::Path(path@),
            InputRedirect::PathBuf(path) => Source::Path(path@),
            InputRedirect::FileRef(file) => Source::File(*file),
            InputRedirect::File(file) => Source::File(file),
            InputRedirect::BytesSlice(input) => Source::Bytes(input@),
            InputRedirect::BytesVec(input) => Source::Bytes(input@),
        }
    }
}

/// How an input comes to be open.
#[derive(Debug)]
pub enum InputOpening<'a> {
    /// A request yields the handle.
    Handle(Request<'a>),
    /// The handle is a pipe, and a thread writes these bytes into it.
    Thread(Vec<u8>),
}

impl<'a> InputRedirect<'a> {
    /// How to open the input.
    pub fn open_handle_maybe_thread<'b>(&self) -> (opening: InputOpening<'b>)
        ensures
            match opening {
                InputOpening::Handle(request) => !(self@ is Bytes) && request@
                    == semantics::input_request(self@),
                InputOpening::Thread(input) => self@ == Source::Bytes(input@),
            },
            match (*self, opening) {
                (InputRedirect::Null, InputOpening::Handle(request)) => request@
                    == RequestView::OpenRead(vstd::utf8::encode_utf8("/dev/null"@)),
                (InputRedirect::Path(path), InputOpening::Handle(request)) => request@
                    == RequestView::OpenRead(path@),
                (InputRedirect::PathBuf(path), InputOpening::Handle(request)) => request@
                    == RequestView::OpenRead(path@),
                (InputRedirect::FileRef(file), InputOpening::Handle(request)) => request@
                    == RequestView::Duplicate(*file),
                (InputRedirect::File(file), InputOpening::Handle(request)) => request@
                    == RequestView::Duplicate(file),
                (InputRedirect::BytesSlice(given), InputOpening::Thread(input)) => input@
                    == given@,
                (InputRedirect::BytesVec(given), InputOpening::Thread(input)) => input@ == given@,
                _ => false,
            },
    {
        match self {
            InputRedirect::Null => InputOpening::Handle(Request::OpenRead(dev_null())),
            InputRedirect::Path(path) => InputOpening::Handle(
                Request::OpenRead(slice_to_vec(*path)),
            ),
            InputRedirect::PathBuf(path) => InputOpening::Handle(
                Request::OpenRead(slice_to_vec(path.as_slice())),
            ),
            InputRedirect::FileRef(file) => InputOpening::Handle(Request::Duplicate(**file)),
            InputRedirect::File(file) => InputOpening::Handle(Request::Duplicate(*file)),
            InputRedirect::BytesSlice(input) => InputOpening::Thread(slice_to_vec(*input)),
            InputRedirect::BytesVec(input) => InputOpening::Thread(slice_to_vec(input.as_slice())),
        }
    }
}

/// The path of the null device.
fn dev_null() -> (path: Vec<u8>)
    ensures
        path@ == semantics::dev_null(),
{
    bytes::own(&"/dev/null")
}

/// Values that hold the bytes that a command is to read.
pub trait IntoStdinBytes<'a>: Sized {
    /// The input that the value stands for.
    spec fn bytes_source(self) -> Source;

    fn into_stdin_bytes(self) -> (redirect: InputRedirect<'a>)
        ensures
            redirect@ == self.bytes_source(),
    ;
}

impl<'a> IntoStdinBytes<'a> for &'a [u8] {
    open spec fn bytes_source(self) -> Source {
        Source::Bytes(self@)
    }

    fn into_stdin_bytes(self) -> (redirect: InputRedirect<'a>)
        ensures
            redirect matches InputRedirect::BytesSlice(input) && input@ == self@,
    {
        InputRedirect::BytesSlice(self)
    }
}

impl<'a> IntoStdinBytes<'a> for &'a Vec<u8> {
    open spec fn bytes_source(self) -> Source {
        Source::Bytes(self@)
    }

    fn into_stdin_bytes(self) -> (redirect: InputRedirect<'a>)
        ensures
            redirect matches InputRedirect::BytesSlice(input) && input@ == self@,
    {
        InputRedirect::BytesSlice(self.as_slice())
    }
}

impl IntoStdinBytes<'static> for Vec<u8> {
    open spec fn bytes_source(self) -> Source {
        Source::Bytes(self@)
    }

    fn into_stdin_bytes(self) -> (redirect: InputRedirect<'static>)
        ensures
            redirect matches InputRedirect::BytesVec(input) && input@ == self@,
    {
        InputRedirect::BytesVec(self)
    }
}

impl<'a> IntoStdinBytes<'a> for &'a str {
    open spec fn bytes_source(self) -> Source {
        Source::Bytes(bytes::text(self@))
    }

    fn into_stdin_bytes(self) -> (redirect: InputRedirect<'a>)
        ensures
            redirect matches InputRedirect::BytesSlice(input) && input@ == bytes::text(self@),
    {
        InputRedirect::BytesSlice(self.as_bytes())
    }
}

impl<'a> IntoStdinBytes<'a> for &'a String {
    open spec fn bytes_source(self) -> Source {
        Source::Bytes(bytes::text(self@))
    }

    fn into_stdin_bytes(self) -> (redirect: InputRedirect<'a>)
        ensures
            redirect matches InputRedirect::BytesSlice(input) && input@ == bytes::text(self@),
    {
        InputRedirect::BytesSlice(self.as_str().as_bytes())
    }
}

impl IntoStdinBytes<'static> for String {
    open spec fn bytes_source(self) -> Source {
        Source::Bytes(bytes::text(self@))
    }

    fn into_stdin_bytes(self) -> (redirect: InputRedirect<'static>)
        ensures
            redirect matches InputRedirect::BytesVec(input) && input@ == bytes::text(self@),
    {
        InputRedirect::BytesVec(bytes::own(&self))
    }
}

/// Values that name a file that a command is to read: a path, as text or as raw bytes, or a file
/// that is open already.
pub trait IntoStdin<'a>: Sized {
    /// The input that the value stands for.
    spec fn source(self) -> Source;

    fn into_stdin(self) -> (redirect: InputRedirect<'a>)
        ensures
            redirect@ == self.source(),
    ;
}

impl<'a> IntoStdin<'a> for &'a [u8] {
    open spec fn source(self) -> Source {
        Source::Path(self@)
    }

    fn into_stdin(self) -> (redirect: InputRedirect<'a>)
        ensures
            redirect matches InputRedirect::Path(path) && path@ == self@,
    {
        InputRedirect::Path(self)
    }
}

impl<'a> IntoStdin<'a> for &'a Vec<u8> {
    open spec fn source(self) -> Source {
        Source::Path(self@)
    }

    fn into_stdin(self) -> (redirect: InputRedirect<'a>)
        ensures
            redirect matches InputRedirect::Path(path) && path@ == self@,
    {
        InputRedirect::Path(self.as_slice())
    }
}

impl IntoStdin<'static> for Vec<u8> {
    open spec fn source(self) -> Source {
        Source::Path(self@)
    }

    fn into_stdin(self) -> (redirect: InputRedirect<'static>)
        ensures
            redirect matches InputRedirect::PathBuf(path) && path@ == self@,
    {
        InputRedirect::PathBuf(self)
    }
}

impl<'a> IntoStdin<'a> for &'a str {
    open spec fn source(self) -> Source {
        Source::Path(bytes::text(self@))
    }

    fn into_stdin(self) -> (redirect: InputRedirect<'a>)
        ensures
            redirect matches InputRedirect::Path(path) && path@ == bytes::text(self@),
    {
        InputRedirect::Path(self.as_bytes())
    }
}

impl<'a> IntoStdin<'a> for &'a String {
    open spec fn source(self) -> Source {
        Source::Path(bytes::text(self@))
    }

    fn into_stdin(self) -> (redirect: InputRedirect<'a>)
        ensures
            redirect matches InputRedirect::Path(path) && path@ == bytes::text(self@),
    {
        InputRedirect::Path(self.as_str().as_bytes())
    }
}

impl IntoStdin<'static> for String {
    open spec fn source(self) -> Source {
        Source::Path(bytes::text(self@))
    }

    fn into_stdin(self) -> (redirect: InputRedirect<'static>)
        ensures
            redirect matches InputRedirect::PathBuf(path) && path@ == bytes::text(self@),
    {
        InputRedirect::PathBuf(bytes::own(&self))
    }
}

impl<'a> IntoStdin<'a> for &'a Handle {
    open spec fn source(self) -> Source {
        Source::File(*self)
    }

    fn into_stdin(self) -> (redirect: InputRedirect<'a>)
        ensures
            redirect matches InputRedirect::FileRef(file) && *file == *self,
    {
        InputRedirect::FileRef(self)
    }
}

impl IntoStdin<'static> for Handle {
    open spec fn source(self) -> Source {
        Source::File(self)
    }

    fn into_stdin(self) -> (redirect: InputRedirect<'static>)
        ensures
            redirect == InputRedirect::File(self),
    {
        InputRedirect::File(self)
    }
}

impl<'a> IntoStdin<'a> for InputRedirect<'a> {
    open spec fn source(self) -> Source {
        self@
    }

    fn into_stdin(self) -> (redirect: InputRedirect<'a>)
        ensures
            redirect == self,
    {
        self
    }
}

/// Where a command writes its output to.
#[derive(Debug)]
pub enum OutputRedirect<'a> {
    /// The pipe whose contents the caller gets.
    Capture,
    /// Nowhere.
    Null,
    /// Wherever standard output goes.
    Stdout,
    /// Wherever standard error goes.
    Stderr,
    /// The file at this path, which is created or emptied.
    Path(&'a [u8]),
    /// The file at this path, which is created or emptied.
    PathBuf(Vec<u8>),
    /// A file that is open already.
    FileRef(&'a Handle),
    /// A file that is open already.
    File(Handle),
}

impl<'a> OutputRedirect<'a> {
    pub open spec fn view(&self) -> Sink {
        match *self {
            OutputRedirect::Capture => Sink::Capture,
            OutputRedirect::Null => Sink::Null,
            OutputRedirect::Stdout => Sink::Stdout,
            OutputRedirect::Stderr => Sink::Stderr,
            OutputRedirect::Path(path) => Sink::Path(path@),
            OutputRedirect::PathBuf(path) => Sink::Path(path@),
            OutputRedirect::FileRef(file) => Sink::File(*file),
            OutputRedirect::File(file) => Sink::File(file),
        }
    }

    /// The request that opens the output.
    pub fn open_handle<'b>(
        &self,
        inherited_stdout: Handle,
        inherited_stderr: Handle,
        capture_handle: Handle,
    ) -> (request: Request<'b>)
        ensures
            request@ == semantics::output_request(
                self@,
                inherited_stdout,
                inherited_stderr,
                capture_handle,
            ),
            request@ == match *self {
                OutputRedirect::Capture => RequestView::Duplicate(capture_handle),
                OutputRedirect::Null => RequestView::OpenWrite(
                    vstd::utf8::encode_utf8("/dev/null"@),
                ),
                OutputRedirect::Stdout => RequestView::Duplicate(inherited_stdout),
                OutputRedirect::Stderr => RequestView::Duplicate(inherited_stderr),
                OutputRedirect::Path(path) => RequestView::OpenWrite(path@),
                OutputRedirect::PathBuf(path) => RequestView::OpenWrite(path@),
                OutputRedirect::FileRef(file) => RequestView::Duplicate(*file),
                OutputRedirect::File(file) => RequestView::Duplicate(file),
            },
    {
        match self {
            OutputRedirect::Capture => Request::Duplicate(capture_handle),
            OutputRedirect::Null => Request::OpenWrite(dev_null()),
            OutputRedirect::Stdout => Request::Duplicate(inherited_stdout),
            OutputRedirect::Stderr => Request::Duplicate(inherited_stderr),
            OutputRedirect::Path(path) => Request::OpenWrite(slice_to_vec(*path)),
            OutputRedirect::PathBuf(path) => Request::OpenWrite(slice_to_vec(path.as_slice())),
            OutputRedirect::FileRef(file) => Request::Duplicate(**file),
            OutputRedirect::File(file) => Request::Duplicate(*file),
        }
    }
}

/// Values that name a file that a command is to write: a path, as text or as raw bytes, or a file
/// that is open already.
pub trait IntoOutput<'a>: Sized {
    /// The output that the value stands for.
    spec fn sink(self) -> Sink;

    fn into_output(self) -> (redirect: OutputRedirect<'a>)
        ensures
            redirect@ == self.sink(),
    ;
}

impl<'a> IntoOutput<'a> for &'a [u8] {
    open spec fn sink(self) -> Sink {
        Sink::Path(self@)
    }

    fn into_output(self) -> (redirect: OutputRedirect<'a>)
        ensures
            redirect matches OutputRedirect::Path(path) && path@ == self@,
    {
        OutputRedirect::Path(self)
    }
}

impl<'a> IntoOutput<'a> for &'a Vec<u8> {
    open spec fn sink(self) -> Sink {
        Sink::Path(self@)
    }

    fn into_output(self) -> (redirect: OutputRedirect<'a>)
        ensures
            redirect matches OutputRedirect::Path(path) && path@ == self@,
    {
        OutputRedirect::Path(self.as_slice())
    }
}

impl IntoOutput<'static> for Vec<u8> {
    open spec fn sink(self) -> Sink {
        Sink::Path(self@)
    }

    fn into_output(self) -> (redirect: OutputRedirect<'static>)
        ensures
            redirect matches OutputRedirect::PathBuf(path) && path@ == self@,
    {
        OutputRedirect::PathBuf(self)
    }
}

impl<'a> IntoOutput<'a> for &'a str {
    open spec fn sink(self) -> Sink {
        Sink::Path(bytes::text(self@))
    }

    fn into_output(self) -> (redirect: OutputRedirect<'a>)
        ensures
            redirect matches OutputRedirect::Path(path) && path@ == bytes::text(self@),
    {
        OutputRedirect::Path(self.as_bytes())
    }
}

impl<'a> IntoOutput<'a> for &'a String {
    open spec fn sink(self) -> Sink {
        Sink::Path(bytes::text(self@))
    }

    fn into_output(self) -> (redirect: OutputRedirect<'a>)
        ensures
            redirect matches OutputRedirect::Path(path) && path@ == bytes::text(self@),
    {
        OutputRedirect::Path(self.as_str().as_bytes())
    }
}

impl IntoOutput<'static> for String {
    open spec fn sink(self) -> Sink {
        Sink::Path(bytes::text(self@))
    }

    fn into_output(self) -> (redirect: OutputRedirect<'static>)
        ensures
            redirect matches OutputRedirect::PathBuf(path) && path@ == bytes::text(self@),
    {
        OutputRedirect::PathBuf(bytes::own(&self))
    }
}

impl<'a> IntoOutput<'a> for &'a Handle {
    open spec fn sink(self) -> Sink {
        Sink::File(*self)
    }

    fn into_output(self) -> (redirect: OutputRedirect<'a>)
        ensures
            redirect matches OutputRedirect::FileRef(file) && *file == *self,
    {
        OutputRedirect::FileRef(self)
    }
}

impl IntoOutput<'static> for Handle {
    open spec fn sink(self) -> Sink {
        Sink::File(self)
    }

    fn into_output(self) -> (redirect: OutputRedirect<'static>)
        ensures
            redirect == OutputRedirect::File(self),
    {
        OutputRedirect::File(self)
    }
}

impl<'a> IntoOutput<'a> for OutputRedirect<'a> {
    open spec fn sink(self) -> Sink {
        self@
    }

    fn into_output(self) -> (redirect: OutputRedirect<'a>)
        ensures
            redirect == self,
    {
        self
    }
}

} // verus!
