//! The requests that expressions make, reply by reply.

use duct::bytes::AsOsBytes;
use duct::env::EnvMap;
use duct::error::{decode_output, read_text};
use duct::expression::{pipe_exit, writer_failed, written_exit};
use duct::os::Fault;
use duct::redirect::InputOpening;
use duct::{
    cmd, sh, Error, Exit, Expression, Handle, InputRedirect, IntoOutput, IntoStdin, IntoStdinBytes,
    IoContext, Job, Next, Output, OutputRedirect, Reply, Request, Stream, Worker,
};

fn handle(id: u64) -> Handle {
    Handle { id }
}

fn failure(kind: std::io::ErrorKind) -> std::io::Error {
    std::io::Error::from(kind)
}

fn show(bytes: &[u8]) -> String {
    String::from_utf8_lossy(bytes).into_owned()
}

/// The context that most of these tests start in: the handles 1 to 5, a directory and a variable.
fn context() -> IoContext {
    IoContext::new(
        handle(1),
        handle(2),
        handle(3),
        handle(4),
        handle(5),
        b"/here".to_vec(),
        vec![(b"a".to_vec(), b"1".to_vec())],
    )
}

fn show_context(context: &IoContext) -> String {
    format!(
        "{} {} {} {} {}",
        context.stdin.id,
        context.stdout.id,
        context.stderr.id,
        context.stdout_capture.id,
        context.stderr_capture.id
    )
}

fn show_env(env: &EnvMap) -> String {
    let pairs: Vec<String> =
        env.pairs().iter().map(|(name, value)| format!("{}={}", show(name), show(value))).collect();
    pairs.join(" ")
}

fn describe(request: &Request<'_>) -> String {
    match request {
        Request::OpenPipe => "pipe".to_owned(),
        Request::StartReader(read) => format!("reader {}", read.id),
        Request::StartWriter(write, input) => format!("writer {} {}", write.id, show(input)),
        Request::Environment => "environment".to_owned(),
        Request::Inherit(Stream::Stdin) => "inherit stdin".to_owned(),
        Request::Inherit(Stream::Stdout) => "inherit stdout".to_owned(),
        Request::Inherit(Stream::Stderr) => "inherit stderr".to_owned(),
        Request::CurrentDir => "dir".to_owned(),
        Request::OpenRead(path) => format!("read {}", show(path)),
        Request::OpenWrite(path) => format!("write {}", show(path)),
        Request::Duplicate(handle) => format!("dup {}", handle.id),
        Request::Launch(launch) => {
            let argv: Vec<String> = launch.argv.iter().map(|word| show(word)).collect();
            format!(
                "launch {} < {} > {} 2> {} in {} with {}",
                argv.join(" "),
                launch.stdin.id,
                launch.stdout.id,
                launch.stderr.id,
                show(&launch.dir),
                show_env(&launch.env)
            )
        }
        Request::Fork(left, right) => {
            format!("fork {} and {}", show_context(&left.context), show_context(&right.context))
        }
        Request::JoinWriter(writer) => format!("join writer {}", writer.id),
        Request::JoinReader(reader) => format!("join reader {}", reader.id),
    }
}

fn note(steps: &mut Vec<String>, close: &[Handle]) {
    for handle in close {
        steps.push(format!("close {}", handle.id));
    }
}

/// Runs an expression in the usual context with these replies, and lists its steps.
fn converse(expression: &Expression<'_>, replies: Vec<Reply>) -> (Vec<String>, Option<Exit>) {
    let mut steps: Vec<String> = Vec::new();
    let mut replies = replies.into_iter();
    let mut step = Job { expression: expression.clone(), context: context() }.start();
    loop {
        note(&mut steps, &step.close);
        match step.next {
            Next::Ask(request, task) => {
                steps.push(describe(&request));
                match replies.next() {
                    Some(reply) => step = task.advance(reply),
                    None => return (steps, None),
                }
            }
            Next::Done(exit) => {
                assert!(replies.next().is_none());
                return (steps, Some(exit));
            }
        }
    }
}

/// Runs an expression from the beginning with these replies, and lists its steps.
fn converse_run(
    expression: &Expression<'_>,
    replies: Vec<Reply>,
) -> (Vec<String>, Option<Result<Output, Error>>) {
    let mut steps: Vec<String> = Vec::new();
    let mut replies = replies.into_iter();
    let mut step = expression.run();
    loop {
        note(&mut steps, &step.close);
        match step.next {
            Next::Ask(request, run) => {
                steps.push(describe(&request));
                match replies.next() {
                    Some(reply) => step = run.advance(reply),
                    None => return (steps, None),
                }
            }
            Next::Done(result) => {
                assert!(replies.next().is_none());
                return (steps, Some(result));
            }
        }
    }
}

fn opened(id: u64) -> Reply {
    Reply::Opened(Ok(handle(id)))
}

fn exited(status: i32) -> Reply {
    Reply::Exited(Ok(status))
}

/// The replies up to the point where the expression itself starts.
fn beginning() -> Vec<Reply> {
    vec![
        Reply::Pipe(handle(10), handle(11)),
        Reply::Started(Worker { id: 1 }),
        Reply::Pipe(handle(12), handle(13)),
        Reply::Started(Worker { id: 2 }),
        Reply::Variables(vec![
            (b"v".to_vec(), b"old".to_vec()),
            (b"v".to_vec(), b"new".to_vec()),
        ]),
        Reply::Inherited(handle(14)),
        Reply::Inherited(handle(15)),
        Reply::Inherited(handle(16)),
        Reply::Directory(Ok(b"/work".to_vec())),
    ]
}

const BEGINNING: [&str; 9] = [
    "pipe",
    "reader 10",
    "pipe",
    "reader 12",
    "environment",
    "inherit stdin",
    "inherit stdout",
    "inherit stderr",
    "dir",
];

fn kind_of(exit: Option<Exit>) -> std::io::ErrorKind {
    match exit {
        Some(Err(error)) => error.kind(),
        _ => panic!("Expected an error."),
    }
}

fn status(exit: Option<Exit>) -> i32 {
    match exit {
        Some(Ok(status)) => status,
        _ => panic!("Expected a status."),
    }
}

const CLOSED: [&str; 5] = ["close 1", "close 2", "close 3", "close 4", "close 5"];

#[test]
fn a_command_is_launched_in_its_context() {
    let (steps, exit) = converse(&cmd(&["echo", "hi"]), vec![exited(6)]);
    assert_eq!("launch echo hi < 1 > 2 2> 3 in /here with a=1", steps[0]);
    assert_eq!(CLOSED.to_vec(), steps[1..].to_vec());
    assert_eq!(6, status(exit));
}

#[test]
fn a_shell_command_is_a_command_of_the_shell() {
    let (one, _) = converse(&sh("echo hi"), vec![exited(0)]);
    let (other, _) = converse(&cmd(&["/bin/sh", "-c", "echo hi"]), vec![exited(0)]);
    assert_eq!("launch /bin/sh -c echo hi < 1 > 2 2> 3 in /here with a=1", one[0]);
    assert_eq!(one, other);
}

#[test]
fn a_command_that_cannot_be_launched_is_an_error() {
    let reply = Reply::Exited(Err(failure(std::io::ErrorKind::NotFound)));
    let (steps, exit) = converse(&cmd(&["x"]), vec![reply]);
    assert_eq!(CLOSED.to_vec(), steps[1..].to_vec());
    assert_eq!(std::io::ErrorKind::NotFound, kind_of(exit));
}

#[test]
fn a_new_input_replaces_the_old() {
    let (steps, _) = converse(&cmd(&["x"]).stdin("/f"), vec![opened(20), exited(0)]);
    let expected = vec![
        "read /f",
        "close 1",
        "launch x < 20 > 2 2> 3 in /here with a=1",
        "close 20",
        "close 2",
        "close 3",
        "close 4",
        "close 5",
    ];
    assert_eq!(expected, steps);
}

#[test]
fn a_new_output_replaces_the_old() {
    let (steps, _) = converse(&cmd(&["x"]).stdout("/f"), vec![opened(20), exited(0)]);
    assert_eq!(vec!["write /f", "close 2"], steps[..2].to_vec());
    assert_eq!("launch x < 1 > 20 2> 3 in /here with a=1", steps[2]);

    let (steps, _) = converse(&cmd(&["x"]).stderr("/f"), vec![opened(20), exited(0)]);
    assert_eq!(vec!["write /f", "close 3"], steps[..2].to_vec());
    assert_eq!("launch x < 1 > 2 2> 20 in /here with a=1", steps[2]);
}

#[test]
fn every_redirection_opens_the_right_thing() {
    let x = cmd(&["x"]);
    let cases: Vec<(Expression<'_>, &str)> = vec![
        (x.null_stdin(), "read /dev/null"),
        (x.stdin(handle(9)), "dup 9"),
        (x.input("hi"), "pipe"),
        (x.null_stdout(), "write /dev/null"),
        (x.capture_stdout(), "dup 4"),
        (x.stdout_to_stderr(), "dup 3"),
        (x.stdout(handle(9)), "dup 9"),
        (x.null_stderr(), "write /dev/null"),
        (x.capture_stderr(), "dup 5"),
        (x.stderr_to_stdout(), "dup 2"),
        (x.stderr(handle(9)), "dup 9"),
        (x.dir("/there"), "launch x < 1 > 2 2> 3 in /there with a=1"),
        (x.env("b", "2"), "launch x < 1 > 2 2> 3 in /here with a=1 b=2"),
        (x.env("a", "2"), "launch x < 1 > 2 2> 3 in /here with a=2"),
        (x.full_env(vec![("c", "3")]), "launch x < 1 > 2 2> 3 in /here with c=3"),
        (x.unchecked(), "launch x < 1 > 2 2> 3 in /here with a=1"),
    ];
    for (expression, request) in cases {
        let (steps, exit) = converse(&expression, Vec::new());
        assert_eq!(vec![request], steps);
        assert!(exit.is_none());
    }
}

#[test]
fn a_redirection_that_fails_closes_the_context() {
    let x = cmd(&["x"]);
    for expression in [x.stdin("/f"), x.stdout("/f"), x.stderr("/f"), x.capture_stdout()] {
        let reply = Reply::Opened(Err(failure(std::io::ErrorKind::PermissionDenied)));
        let (steps, exit) = converse(&expression, vec![reply]);
        assert_eq!(CLOSED.to_vec(), steps[1..].to_vec());
        assert_eq!(std::io::ErrorKind::PermissionDenied, kind_of(exit));
    }
}

/// The steps of a command that is fed some bytes.
const FED: [&str; 10] = [
    "pipe",
    "writer 21 hi",
    "close 1",
    "launch x < 20 > 2 2> 3 in /here with a=1",
    "close 20",
    "close 2",
    "close 3",
    "close 4",
    "close 5",
    "join writer 7",
];

fn feed(exit: Exit, written: Result<(), std::io::Error>) -> Exit {
    let replies = vec![
        Reply::Pipe(handle(20), handle(21)),
        Reply::Started(Worker { id: 7 }),
        Reply::Exited(exit),
        Reply::Written(written),
    ];
    let (steps, exit) = converse(&cmd(&["x"]).input("hi"), replies);
    assert_eq!(FED.to_vec(), steps);
    exit.unwrap()
}

#[test]
fn input_is_written_by_a_thread_that_is_waited_for() {
    assert_eq!(5, feed(Ok(5), Ok(())).unwrap());
}

#[test]
fn a_broken_pipe_is_no_error_of_the_writer() {
    assert_eq!(5, feed(Ok(5), Err(failure(std::io::ErrorKind::BrokenPipe))).unwrap());
}

#[test]
fn any_other_error_of_the_writer_counts() {
    let exit = feed(Ok(0), Err(failure(std::io::ErrorKind::WriteZero)));
    assert_eq!(std::io::ErrorKind::WriteZero, exit.unwrap_err().kind());
}

#[test]
fn the_writer_is_waited_for_when_the_command_fails() {
    let exit = feed(Err(failure(std::io::ErrorKind::NotFound)), Ok(()));
    assert_eq!(std::io::ErrorKind::NotFound, exit.unwrap_err().kind());
    let written = Err(failure(std::io::ErrorKind::WriteZero));
    let exit = feed(Err(failure(std::io::ErrorKind::NotFound)), written);
    assert_eq!(std::io::ErrorKind::NotFound, exit.unwrap_err().kind());
}

#[test]
fn a_pipe_connects_its_sides() {
    let replies = vec![
        Reply::Pipe(handle(20), handle(21)),
        opened(31),
        opened(32),
        opened(33),
        opened(34),
        opened(35),
        Reply::Forked(Ok(3), Ok(0)),
    ];
    let (steps, exit) = converse(&cmd(&["l"]).pipe(cmd(&["r"])), replies);
    let expected = vec![
        "pipe",
        "dup 1",
        "dup 2",
        "dup 3",
        "dup 4",
        "dup 5",
        "close 32",
        "close 1",
        "fork 31 21 33 34 35 and 20 2 3 4 5",
    ];
    assert_eq!(expected, steps);
    assert_eq!(3, status(exit));
}

#[test]
fn a_pipe_that_cannot_be_set_up_closes_everything() {
    let replies = vec![
        Reply::Pipe(handle(20), handle(21)),
        opened(31),
        opened(32),
        Reply::Opened(Err(failure(std::io::ErrorKind::OutOfMemory))),
    ];
    let (steps, exit) = converse(&cmd(&["l"]).pipe(cmd(&["r"])), replies);
    let expected = vec![
        "pipe", "dup 1", "dup 2", "dup 3", "close 32", "close 31", "close 21", "close 20",
        "close 1", "close 2", "close 3", "close 4", "close 5",
    ];
    assert_eq!(expected, steps);
    assert_eq!(std::io::ErrorKind::OutOfMemory, kind_of(exit));
}

#[test]
fn a_sequence_runs_in_copies_of_its_context() {
    let copies = || vec![opened(31), opened(32), opened(33), opened(34), opened(35)];
    let expression = cmd(&["l"]).then(cmd(&["r"]));
    let first = "launch l < 31 > 32 2> 33 in /here with a=1";
    let closed = vec!["close 31", "close 32", "close 33", "close 34", "close 35"];

    let mut replies = copies();
    replies.push(exited(0));
    replies.push(exited(4));
    let (steps, exit) = converse(&expression, replies);
    assert_eq!(vec!["dup 1", "dup 2", "dup 3", "dup 4", "dup 5", first], steps[..6].to_vec());
    assert_eq!(closed, steps[6..11].to_vec());
    assert_eq!("launch r < 1 > 2 2> 3 in /here with a=1", steps[11]);
    assert_eq!(CLOSED.to_vec(), steps[12..].to_vec());
    assert_eq!(4, status(exit));

    let mut replies = copies();
    replies.push(exited(8));
    let (steps, exit) = converse(&expression, replies);
    assert_eq!(closed, steps[6..11].to_vec());
    assert_eq!(CLOSED.to_vec(), steps[11..].to_vec());
    assert_eq!(8, status(exit));
}

#[test]
fn a_sequence_whose_context_cannot_be_copied_closes_it() {
    let refused = Reply::Opened(Err(failure(std::io::ErrorKind::OutOfMemory)));
    let replies = vec![opened(31), opened(32), refused];
    let (steps, exit) = converse(&cmd(&["l"]).then(cmd(&["r"])), replies);
    assert_eq!(vec!["dup 1", "dup 2", "dup 3", "close 32", "close 31"], steps[..5].to_vec());
    assert_eq!(CLOSED.to_vec(), steps[5..].to_vec());
    assert_eq!(std::io::ErrorKind::OutOfMemory, kind_of(exit));
}

#[test]
fn parts_of_a_sequence_keep_their_own_settings() {
    let failing = cmd(&["l"]).dir("/l").unchecked();
    let mut replies = vec![opened(31), opened(32), opened(33), opened(34), opened(35)];
    replies.push(exited(1));
    replies.push(exited(2));
    let (steps, exit) = converse(&failing.then(cmd(&["r"]).dir("/r")), replies);
    assert_eq!("launch l < 31 > 32 2> 33 in /l with a=1", steps[5]);
    assert_eq!("launch r < 1 > 2 2> 3 in /r with a=1", steps[11]);
    assert_eq!(2, status(exit));
}

#[test]
fn a_run_starts_with_pipes_and_readers() {
    let (steps, result) = converse_run(&cmd(&["x"]), beginning());
    assert_eq!(BEGINNING.to_vec(), steps[..9].to_vec());
    assert_eq!(vec!["launch x < 14 > 15 2> 16 in /work with v=new"], steps[9..].to_vec());
    assert!(result.is_none());
}

#[test]
fn a_run_collects_what_was_captured() {
    let mut replies = beginning();
    replies.push(exited(0));
    replies.push(Reply::Collected(Ok(b"out".to_vec())));
    replies.push(Reply::Collected(Ok(b"err".to_vec())));
    let (steps, result) = converse_run(&cmd(&["x"]), replies);
    let expected = vec![
        "close 14", "close 15", "close 16", "close 11", "close 13", "join reader 1",
        "join reader 2",
    ];
    assert_eq!(expected, steps[10..].to_vec());
    let output = result.unwrap().unwrap();
    assert_eq!(0, output.status);
    assert_eq!(b"out".to_vec(), output.stdout);
    assert_eq!(b"err".to_vec(), output.stderr);
}

#[test]
fn a_run_with_another_status_fails_with_its_output() {
    let mut replies = beginning();
    replies.push(exited(-3));
    replies.push(Reply::Collected(Ok(b"out".to_vec())));
    replies.push(Reply::Collected(Ok(b"err".to_vec())));
    match converse_run(&cmd(&["x"]), replies).1 {
        Some(Err(Error::Status(output))) => {
            assert_eq!(-3, output.status);
            assert_eq!(b"out".to_vec(), output.stdout);
            assert_eq!(b"err".to_vec(), output.stderr);
        }
        _ => panic!("Expected a status error."),
    }
}

#[test]
fn a_run_that_fails_collects_nothing() {
    let mut replies = beginning();
    replies.push(Reply::Exited(Err(failure(std::io::ErrorKind::NotFound))));
    let (steps, result) = converse_run(&cmd(&["x"]), replies);
    assert_eq!("close 13", steps.last().unwrap());
    match result {
        Some(Err(Error::Io(error))) => assert_eq!(std::io::ErrorKind::NotFound, error.kind()),
        _ => panic!("Expected an error of the operating system."),
    }
}

#[test]
fn a_run_without_a_directory_fails() {
    let mut replies = beginning();
    replies.pop();
    replies.push(Reply::Directory(Err(failure(std::io::ErrorKind::NotFound))));
    let (steps, result) = converse_run(&cmd(&["x"]), replies);
    let expected = vec!["close 13", "close 11", "close 16", "close 15", "close 14"];
    assert_eq!(expected, steps[9..].to_vec());
    match result {
        Some(Err(Error::Io(error))) => assert_eq!(std::io::ErrorKind::NotFound, error.kind()),
        _ => panic!("Expected an error of the operating system."),
    }
}

#[test]
fn a_run_whose_output_cannot_be_read_fails() {
    let lost = || Reply::Collected(Err(failure(std::io::ErrorKind::UnexpectedEof)));
    let mut first = beginning();
    first.push(exited(1));
    first.push(lost());
    let mut second = beginning();
    second.push(exited(1));
    second.push(Reply::Collected(Ok(Vec::new())));
    second.push(lost());
    for replies in [first, second] {
        match converse_run(&cmd(&["x"]), replies).1 {
            Some(Err(Error::Io(error))) => {
                assert_eq!(std::io::ErrorKind::UnexpectedEof, error.kind())
            }
            _ => panic!("Expected an error of the operating system."),
        }
    }
}

#[test]
fn pipe_exits() {
    let broken = || Err(failure(std::io::ErrorKind::NotFound));
    let other = || Err(failure(std::io::ErrorKind::InvalidData));
    assert_eq!(0, pipe_exit(Ok(0), Ok(0)).unwrap());
    assert_eq!(1, pipe_exit(Ok(1), Ok(0)).unwrap());
    assert_eq!(2, pipe_exit(Ok(0), Ok(2)).unwrap());
    assert_eq!(2, pipe_exit(Ok(1), Ok(2)).unwrap());
    assert_eq!(std::io::ErrorKind::NotFound, pipe_exit(broken(), Ok(2)).unwrap_err().kind());
    assert_eq!(std::io::ErrorKind::NotFound, pipe_exit(Ok(1), broken()).unwrap_err().kind());
    assert_eq!(std::io::ErrorKind::InvalidData, pipe_exit(broken(), other()).unwrap_err().kind());
}

#[test]
fn pipe_exits_can_be_grouped_in_any_way() {
    let exits: Vec<fn() -> Exit> = vec![
        || Ok(0),
        || Ok(1),
        || Ok(2),
        || Err(failure(std::io::ErrorKind::NotFound)),
        || Err(failure(std::io::ErrorKind::InvalidData)),
    ];
    for a in &exits {
        for b in &exits {
            for c in &exits {
                let left = pipe_exit(pipe_exit(a(), b()), c());
                let right = pipe_exit(a(), pipe_exit(b(), c()));
                assert_eq!(left.map_err(|e| e.kind()), right.map_err(|e| e.kind()));
            }
        }
    }
}

#[test]
fn written_exits() {
    let broken = || Err(failure(std::io::ErrorKind::BrokenPipe));
    assert_eq!(3, written_exit(Ok(3), Ok(())).unwrap());
    assert_eq!(3, written_exit(Ok(3), broken()).unwrap());
    let exit = written_exit(Err(failure(std::io::ErrorKind::NotFound)), broken());
    assert_eq!(std::io::ErrorKind::NotFound, exit.unwrap_err().kind());
    let exit = written_exit(Ok(3), Err(failure(std::io::ErrorKind::TimedOut)));
    assert_eq!(std::io::ErrorKind::TimedOut, exit.unwrap_err().kind());
}

#[test]
fn writers_that_fail() {
    let error = || failure(std::io::ErrorKind::TimedOut);
    assert_eq!(3, writer_failed(3, error(), Fault::BrokenPipe).unwrap());
    let exit = writer_failed(3, error(), Fault::Other);
    assert_eq!(std::io::ErrorKind::TimedOut, exit.unwrap_err().kind());
}

#[test]
fn decoded_text_is_trimmed() {
    assert_eq!(" a\nb ", read_text(Ok(" a\nb \n\n")).unwrap());
    assert_eq!("", read_text(Ok("")).unwrap());
    let invalid: [u8; 2] = [b'x', 0xff];
    match read_text(std::str::from_utf8(&invalid)) {
        Err(Error::Utf8(error)) => assert_eq!(1, error.valid_up_to()),
        _ => panic!("Expected a UTF-8 error."),
    }
}

fn output(status: i32, stdout: &[u8]) -> Output {
    Output { status, stdout: stdout.to_vec(), stderr: Vec::new() }
}

#[test]
fn output_is_judged_by_its_status() {
    assert!(output(0, b"x").judge().is_ok());
    match output(1, b"x").judge() {
        Err(Error::Status(output)) => assert_eq!(b"x".to_vec(), output.stdout),
        _ => panic!("Expected a status error."),
    }
}

#[test]
fn output_is_decoded() {
    assert_eq!("a\nb", decode_output(Ok(output(0, b"a\nb\n\n"))).unwrap());
    assert_eq!("\u{1f980}", decode_output(Ok(output(0, "\u{1f980}\n".as_bytes()))).unwrap());
    match decode_output(Ok(output(0, &[b'a', b'b', 0xc3]))) {
        Err(Error::Utf8(error)) => {
            assert_eq!(2, error.valid_up_to());
            assert_eq!(None, error.error_len());
        }
        _ => panic!("Expected a UTF-8 error."),
    }
    match decode_output(Err(Error::Status(output(2, &[0xff])))) {
        Err(Error::Status(output)) => assert_eq!(2, output.status),
        _ => panic!("Expected a status error."),
    }
}

#[test]
fn errors_are_converted() {
    let error = Error::from(failure(std::io::ErrorKind::NotFound));
    assert!(matches!(error, Error::Io(_)));
    let invalid: [u8; 1] = [0xff];
    let error = Error::from(std::str::from_utf8(&invalid).unwrap_err());
    assert!(matches!(error, Error::Utf8(_)));
}

#[test]
fn output_can_be_copied() {
    let one = Output { status: 4, stdout: vec![1, 2], stderr: vec![3] };
    let other = one.clone();
    assert_eq!(4, other.status);
    assert_eq!(vec![1, 2], other.stdout);
    assert_eq!(vec![3], other.stderr);
}

#[test]
fn an_environment_has_one_value_for_each_name() {
    let env = EnvMap::new();
    assert_eq!("", show_env(&env));
    let env = env.insert(b"a".to_vec(), b"1".to_vec()).insert(b"b".to_vec(), b"2".to_vec());
    assert_eq!("a=1 b=2", show_env(&env));
    let copy = env.clone();
    let env = env.insert(b"a".to_vec(), b"3".to_vec());
    assert_eq!("a=3 b=2", show_env(&env));
    assert_eq!("a=1 b=2", show_env(&copy));
    let pairs = vec![
        (b"x".to_vec(), b"1".to_vec()),
        (b"y".to_vec(), b"".to_vec()),
        (b"x".to_vec(), b"2".to_vec()),
    ];
    assert_eq!("x=2 y=", show_env(&EnvMap::from_pairs(pairs)));
}

#[test]
fn contexts_hand_out_their_handles() {
    let ids: Vec<u64> = (0..5).map(|i| context().handle(i).id).collect();
    assert_eq!(vec![1, 2, 3, 4, 5], ids);
    let all: Vec<u64> = context().release(vec![handle(9)]).iter().map(|h| h.id).collect();
    assert_eq!(vec![9, 1, 2, 3, 4, 5], all);
    let copies = vec![handle(6), handle(7), handle(8), handle(9), handle(10)];
    let copy = context().with_handles(&copies);
    assert_eq!("6 7 8 9 10", show_context(&copy));
    assert_eq!("/here", show(&copy.dir));
    assert_eq!("a=1", show_env(&copy.env));
}

#[test]
fn a_launch_has_a_program_and_arguments() {
    let step = Job { expression: cmd(&["a", "b", "c"]), context: context() }.start();
    match step.next {
        Next::Ask(Request::Launch(launch), _) => {
            assert_eq!("a", show(launch.program()));
            let arguments: Vec<String> = launch.arguments().iter().map(|a| show(a)).collect();
            assert_eq!(vec!["b", "c"], arguments);
        }
        _ => panic!("Expected a command."),
    }
}

#[test]
fn a_command_without_words_has_no_program() {
    let nothing: [&str; 0] = [];
    for (expression, has_program) in [(cmd(&nothing), false), (cmd(&["x"]), true), (sh(""), true)] {
        let step = Job { expression, context: context() }.start();
        match step.next {
            Next::Ask(Request::Launch(launch), _) => {
                assert_eq!(has_program, launch.has_program());
            }
            _ => panic!("Expected a command."),
        }
    }
}

#[test]
fn a_command_without_words_does_no_harm_where_it_is_not_run() {
    let nothing: [&str; 0] = [];
    let mut replies = vec![opened(31), opened(32), opened(33), opened(34), opened(35)];
    replies.push(exited(1));
    let (steps, exit) = converse(&cmd(&["x"]).then(cmd(&nothing)), replies);
    assert_eq!("launch x < 31 > 32 2> 33 in /here with a=1", steps[5]);
    assert_eq!(1, status(exit));
}

#[test]
fn contexts_have_standard_streams() {
    let streams = [Stream::Stdin, Stream::Stdout, Stream::Stderr];
    let ids: Vec<u64> = streams.iter().map(|s| context().stream(*s).id).collect();
    assert_eq!(vec![1, 2, 3], ids);
    assert_eq!("9 2 3 4 5", show_context(&context().with_stream(Stream::Stdin, handle(9))));
    assert_eq!("1 9 3 4 5", show_context(&context().with_stream(Stream::Stdout, handle(9))));
    assert_eq!("1 2 9 4 5", show_context(&context().with_stream(Stream::Stderr, handle(9))));
}

#[test]
fn owned_values_stay_owned() {
    let text = "I own this: foo".to_owned();
    match text.clone().into_stdin_bytes() {
        InputRedirect::BytesVec(input) => assert_eq!(b"I own this: foo".to_vec(), input),
        _ => panic!("Expected owned bytes."),
    }
    assert!(matches!(text.as_str().into_stdin_bytes(), InputRedirect::BytesSlice(_)));
    assert!(matches!((&text).into_stdin(), InputRedirect::Path(_)));
    assert!(matches!(text.clone().into_stdin(), InputRedirect::PathBuf(_)));
    assert!(matches!((&text).into_output(), OutputRedirect::Path(_)));
    assert!(matches!(text.into_output(), OutputRedirect::PathBuf(_)));
    let file = handle(9);
    assert!(matches!((&file).into_stdin(), InputRedirect::FileRef(_)));
    assert!(matches!(file.into_stdin(), InputRedirect::File(_)));
    assert!(matches!((&file).into_output(), OutputRedirect::FileRef(_)));
    assert!(matches!(file.into_output(), OutputRedirect::File(_)));
}

fn path_of(redirect: InputRedirect<'_>) -> String {
    match redirect.open_handle_maybe_thread() {
        InputOpening::Handle(request) => describe(&request),
        InputOpening::Thread(input) => format!("bytes {}", show(&input)),
    }
}

#[test]
fn values_name_inputs() {
    let text = "t".to_owned();
    let raw: Vec<u8> = vec![b'r'];
    let file = handle(9);
    assert_eq!("read t", path_of("t".into_stdin()));
    assert_eq!("read t", path_of((&text).into_stdin()));
    assert_eq!("read t", path_of(text.clone().into_stdin()));
    assert_eq!("read r", path_of(raw.as_slice().into_stdin()));
    assert_eq!("read r", path_of((&raw).into_stdin()));
    assert_eq!("read r", path_of(raw.clone().into_stdin()));
    assert_eq!("dup 9", path_of((&file).into_stdin()));
    assert_eq!("dup 9", path_of(file.into_stdin()));
    assert_eq!("bytes t", path_of("t".into_stdin_bytes()));
    assert_eq!("bytes t", path_of((&text).into_stdin_bytes()));
    assert_eq!("bytes t", path_of(text.into_stdin_bytes()));
    assert_eq!("bytes r", path_of(raw.as_slice().into_stdin_bytes()));
    assert_eq!("bytes r", path_of((&raw).into_stdin_bytes()));
    assert_eq!("bytes r", path_of(raw.into_stdin_bytes()));
    assert_eq!("read /dev/null", path_of(InputRedirect::Null));
}

fn sink_of(redirect: OutputRedirect<'_>) -> String {
    describe(&redirect.open_handle(handle(2), handle(3), handle(4)))
}

#[test]
fn values_name_outputs() {
    let text = "t".to_owned();
    let raw: Vec<u8> = vec![b'r'];
    let file = handle(9);
    assert_eq!("write t", sink_of("t".into_output()));
    assert_eq!("write t", sink_of((&text).into_output()));
    assert_eq!("write t", sink_of(text.into_output()));
    assert_eq!("write r", sink_of(raw.as_slice().into_output()));
    assert_eq!("write r", sink_of((&raw).into_output()));
    assert_eq!("write r", sink_of(raw.into_output()));
    assert_eq!("dup 9", sink_of((&file).into_output()));
    assert_eq!("dup 9", sink_of(file.into_output()));
    assert_eq!("dup 4", sink_of(OutputRedirect::Capture));
    assert_eq!("dup 2", sink_of(OutputRedirect::Stdout));
    assert_eq!("dup 3", sink_of(OutputRedirect::Stderr));
    assert_eq!("write /dev/null", sink_of(OutputRedirect::Null));
}

#[test]
fn text_and_raw_bytes_are_operating_system_strings() {
    let text = "\u{e9}".to_owned();
    let raw: Vec<u8> = vec![0xff, 0];
    assert_eq!(&[0xc3, 0xa9], "\u{e9}".as_os_bytes());
    assert_eq!(&[0xc3, 0xa9], (&text).as_os_bytes());
    assert_eq!(&[0xc3, 0xa9], text.as_os_bytes());
    assert_eq!(&[0xff, 0], raw.as_slice().as_os_bytes());
    assert_eq!(&[0xff, 0], (&raw).as_os_bytes());
    assert_eq!(&[0xff, 0], raw.as_os_bytes());
}
