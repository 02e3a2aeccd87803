//! What running an expression yields: captured output, or an error.

use vstd::prelude::*;
use vstd::slice::slice_to_vec;
use vstd::std_specs::convert::FromSpecImpl;
use vstd::string::StrSliceExecFns;

use crate::laws::trimming_takes_off_newlines;
use crate::model::{ErrorView, OutputView};
use crate::os::Status;

verus! {

/// `std::str::Utf8Error`, carried around as an opaque value.
#[verifier::external_type_specification]
#[verifier::external_body]
pub struct ExUtf8Error(std::str::Utf8Error);

/// The error that `std::str::from_utf8` reports for bytes that are not UTF-8.
pub uninterp spec fn utf8_error(bytes: Seq<u8>) -> std::str::Utf8Error;

/// `std::str::from_utf8` accepts exactly the valid UTF-8 encodings and yields the text that they
/// encode. The error is fixed by the bytes, and is named by [`utf8_error`].
pub assume_specification<'a>[ std::str::from_utf8 ](v: &'a [u8]) -> (decoded: Result<
    &'a str,
    std::str::Utf8Error,
>)
    ensures
        match decoded {
            Ok(s) => vstd::utf8::valid_utf8(v@) && s@ == vstd::utf8::decode_utf8(v@),
            Err(e) => !vstd::utf8::valid_utf8(v@) && e == utf8_error(v@),
        },
;

/// What a finished expression leaves behind: its status, and whatever was captured.
#[derive(Debug)]
pub struct Output {
    pub status: Status,
    pub stdout: Vec<u8>,
    pub stderr: Vec<u8>,
}

impl Output {
    pub open spec fn view(&self) -> OutputView {
        OutputView { status: self.status, stdout: self.stdout@, stderr: self.stderr@ }
    }
}

impl Clone for Output {
    fn clone(&self) -> (copy: Output)
        ensures
            copy@ == self@,
    {
        Output {
            status: self.status,
            stdout: slice_to_vec(self.stdout.as_slice()),
            stderr: slice_to_vec(self.stderr.as_slice()),
        }
    }
}

/// Why an expression failed.
#[derive(Debug)]
pub enum Error {
    /// The operating system refused something.
    Io(std::io::Error),
    /// The output was to be read as text and is not UTF-8.
    Utf8(std::str::Utf8Error),
    /// The expression ran and its status is not zero.
    Status(Output),
}

impl Error {
    pub open spec fn view(&self) -> ErrorView {
        match *self {
            Error::Io(e) => ErrorView::Io(e),
            Error::Utf8(e) => ErrorView::Utf8(e),
            Error::Status(output) => ErrorView::Status(output@),
        }
    }
}

impl From<std::io::Error> for Error {
    fn from(err: std::io::Error) -> (error: Error) {
        Error::Io(err)
    }
}

impl FromSpecImpl<std::io::Error> for Error {
    open spec fn obeys_from_spec() -> bool {
        true
    }

    open spec fn from_spec(err: std::io::Error) -> Error {
        Error::Io(err)
    }
}

impl From<std::str::Utf8Error> for Error {
    fn from(err: std::str::Utf8Error) -> (error: Error) {
        Error::Utf8(err)
    }
}

impl FromSpecImpl<std::str::Utf8Error> for Error {
    open spec fn obeys_from_spec() -> bool {
        true
    }

    open spec fn from_spec(err: std::str::Utf8Error) -> Error {
        Error::Utf8(err)
    }
}

/// The contents of a result of running an expression.
pub open spec fn run_result(result: Result<Output, Error>) -> Result<OutputView, ErrorView> {
    match result {
        Ok(output) => Ok(output@),
        Err(error) => Err(error@),
    }
}

/// The contents of a result of reading an expression.
pub open spec fn read_result(result: Result<String, Error>) -> Result<Seq<char>, ErrorView> {
    match result {
        Ok(text) => Ok(text@),
        Err(error) => Err(error@),
    }
}

/// Output counts as a success exactly if the status is zero.
pub open spec fn judge(output: OutputView) -> Result<OutputView, ErrorView> {
    if output.status != 0 {
        Err(ErrorView::Status(output))
    } else {
        Ok(output)
    }
}

/// The text without the newlines at its end.
pub open spec fn trim_newlines(text: Seq<char>) -> Seq<char>
    decreases text.len(),
{
    if text.len() > 0 && text.last() == '\n' {
        trim_newlines(text.drop_last())
    } else {
        text
    }
}

/// The result of running an expression, read as text.
pub open spec fn decode(result: Result<OutputView, ErrorView>) -> Result<Seq<char>, ErrorView> {
    match result {
        Err(error) => Err(error),
        Ok(output) => if vstd::utf8::valid_utf8(output.stdout) {
            Ok(trim_newlines(vstd::utf8::decode_utf8(output.stdout)))
        } else {
            Err(ErrorView::Utf8(utf8_error(output.stdout)))
        },
    }
}

impl Output {
    /// Turns output with a non-zero status into an error.
    pub fn judge(self) -> (result: Result<Output, Error>)
        ensures
            run_result(result) == judge(self@),
            self.status == 0 ==> result == Ok::<Output, Error>(self),
            self.status != 0 ==> result == Err::<Output, Error>(Error::Status(self)),
    {
        if self.status != 0 {
            Err(Error::Status(self))
        } else {
            Ok(self)
        }
    }
}

/// Copies a text without the newlines at its end.
fn trimmed(text: &str) -> (kept: String)
    ensures
        kept@ == trim_newlines(text@),
{
    let mut end: usize = text.unicode_len();
    proof {
        assert(text@.subrange(0, end as int) =~= text@);
    }
    while end > 0 && text.get_char(end - 1) == '\n'
        invariant
            end <= text@.len(),
            trim_newlines(text@.subrange(0, end as int)) == trim_newlines(text@),
        ensures
            trim_newlines(text@) == text@.subrange(0, end as int),
            end <= text@.len(),
        decreases end,
    {
        proof {
            assert(text@.subrange(0, end as int).drop_last() =~= text@.subrange(0, end - 1));
        }
        end = end - 1;
    }
    text.substring_char(0, end).to_owned()
}

/// Takes a decoded text without the newlines at its end.
pub fn read_text(decoded: Result<&str, std::str::Utf8Error>) -> (text: Result<String, Error>)
    ensures
        read_result(text) == (match decoded {
            Ok(chars) => Ok(trim_newlines(chars@)),
            Err(err) => Err(ErrorView::Utf8(err)),
        }),
        match decoded {
            Ok(chars) => text is Ok && {
                let kept = text->Ok_0@;
                &&& kept.len() <= chars@.len()
                &&& forall|i: int| 0 <= i < kept.len() ==> #[trigger] kept[i] == chars@[i]
                &&& forall|i: int| kept.len() <= i < chars@.len() ==> #[trigger] chars@[i] == '\n'
                &&& kept.len() > 0 ==> kept.last() != '\n'
            },
            Err(err) => text == Err::<String, Error>(Error::Utf8(err)),
        },
{
    match decoded {
        Ok(chars) => {
            proof {
                trimming_takes_off_newlines(chars@);
            }
            Ok(trimmed(chars))
        },
        Err(err) => Err(Error::from(err)),
    }
}

/// Reads the captured standard output as text, without the newlines at its end.
pub fn decode_output(result: Result<Output, Error>) -> (text: Result<String, Error>)
    ensures
        read_result(text) == decode(run_result(result)),
{
    match result {
        Err(error) => Err(error),
        Ok(output) => read_text(std::str::from_utf8(output.stdout.as_slice())),
    }
}

} // verus!
