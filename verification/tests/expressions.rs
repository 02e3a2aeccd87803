//! Expressions, run by a small operating system that lives in memory.

use std::cell::{Cell, RefCell};
use std::collections::HashMap;
use std::rc::Rc;

use duct::{
    cmd, sh, Error, Exit, Expression, Handle, Job, Launch, Next, Output, Reply, Request, Stream,
    Worker,
};

/// How much a pipe holds before a writer has to wait for a reader.
const PIPE_CAPACITY: usize = 65536;

/// What a pipe holds.
struct Pipe {
    data: RefCell<Vec<u8>>,
}

/// What stands behind a handle.
#[derive(Clone)]
enum Open {
    ReadEnd(Rc<Pipe>),
    WriteEnd(Rc<Pipe>),
    File(Rc<RefCell<Vec<u8>>>, Rc<Cell<usize>>),
}

/// A thread.
enum Thread {
    Reader(Rc<Pipe>),
    Writer(Rc<Pipe>),
}

/// An operating system with files, pipes and a handful of commands.
struct World {
    next: u64,
    open: HashMap<u64, Open>,
    threads: HashMap<u64, Thread>,
    files: HashMap<Vec<u8>, Rc<RefCell<Vec<u8>>>>,
    variables: Vec<(Vec<u8>, Vec<u8>)>,
    dir: Vec<u8>,
    dir_is_gone: bool,
    duplicates_left: usize,
    lent: usize,
    stdin: Rc<RefCell<Vec<u8>>>,
    stdout: Rc<RefCell<Vec<u8>>>,
    stderr: Rc<RefCell<Vec<u8>>>,
}

fn failure(kind: std::io::ErrorKind) -> std::io::Error {
    std::io::Error::from(kind)
}

impl World {
    fn new() -> World {
        let mut files: HashMap<Vec<u8>, Rc<RefCell<Vec<u8>>>> = HashMap::new();
        files.insert(b"/dev/null".to_vec(), Rc::new(RefCell::new(Vec::new())));
        World {
            next: 1,
            open: HashMap::new(),
            threads: HashMap::new(),
            files,
            variables: Vec::new(),
            dir: b"/home/user".to_vec(),
            dir_is_gone: false,
            duplicates_left: usize::MAX,
            lent: 0,
            stdin: Rc::new(RefCell::new(Vec::new())),
            stdout: Rc::new(RefCell::new(Vec::new())),
            stderr: Rc::new(RefCell::new(Vec::new())),
        }
    }

    fn number(&mut self) -> u64 {
        let number: u64 = self.next;
        self.next += 1;
        number
    }

    fn insert(&mut self, open: Open) -> Handle {
        let id: u64 = self.number();
        self.open.insert(id, open);
        Handle { id }
    }

    fn get(&self, handle: Handle) -> Open {
        self.open.get(&handle.id).expect("a handle that is not open was used").clone()
    }

    fn close(&mut self, handles: Vec<Handle>) {
        for handle in handles {
            assert!(self.open.remove(&handle.id).is_some(), "a handle was closed twice");
        }
    }

    /// Puts a file into the file system.
    fn write_file(&mut self, path: &str, contents: &[u8]) {
        self.files.insert(path.as_bytes().to_vec(), Rc::new(RefCell::new(contents.to_vec())));
    }

    fn read_file(&self, path: &str) -> Vec<u8> {
        self.files[path.as_bytes()].borrow().clone()
    }

    /// Opens a file that expressions can be given.
    fn lend(&mut self, path: &str) -> Handle {
        let data = self.files[path.as_bytes()].clone();
        self.lent += 1;
        self.insert(Open::File(data, Rc::new(Cell::new(0))))
    }

    fn has_writer(&self, pipe: &Rc<Pipe>) -> bool {
        self.open.values().any(|open| match open {
            Open::WriteEnd(other) => Rc::ptr_eq(pipe, other),
            _ => false,
        })
    }

    fn has_reader(&self, pipe: &Rc<Pipe>) -> bool {
        self.open.values().any(|open| match open {
            Open::ReadEnd(other) => Rc::ptr_eq(pipe, other),
            _ => false,
        })
    }

    /// Reads a handle to its end.
    fn read_to_end(&self, handle: Handle) -> Vec<u8> {
        match self.get(handle) {
            Open::ReadEnd(pipe) => {
                assert!(!self.has_writer(&pipe), "reading would never come to an end");
                std::mem::take(&mut *pipe.data.borrow_mut())
            }
            Open::WriteEnd(_) => panic!("the write end of a pipe was read"),
            Open::File(data, position) => {
                let data = data.borrow();
                let start: usize = position.get();
                position.set(data.len());
                data[start..].to_vec()
            }
        }
    }

    fn write_all(&self, handle: Handle, bytes: &[u8]) {
        match self.get(handle) {
            Open::ReadEnd(_) => panic!("the read end of a pipe was written"),
            Open::WriteEnd(pipe) => pipe.data.borrow_mut().extend_from_slice(bytes),
            Open::File(data, position) => {
                let mut data = data.borrow_mut();
                let start: usize = position.get();
                data.truncate(start);
                data.extend_from_slice(bytes);
                position.set(data.len());
            }
        }
    }

    /// Carries out a request.
    fn perform(&mut self, request: Request<'_>) -> Reply {
        match request {
            Request::OpenPipe => {
                let pipe = Rc::new(Pipe { data: RefCell::new(Vec::new()) });
                let read = self.insert(Open::ReadEnd(pipe.clone()));
                let write = self.insert(Open::WriteEnd(pipe));
                Reply::Pipe(read, write)
            }
            Request::StartReader(read) => {
                let pipe = match self.open.remove(&read.id) {
                    Some(Open::ReadEnd(pipe)) => pipe,
                    _ => panic!("a reader needs the read end of a pipe"),
                };
                let id: u64 = self.number();
                self.threads.insert(id, Thread::Reader(pipe));
                Reply::Started(Worker { id })
            }
            Request::StartWriter(write, input) => {
                self.write_all(write, &input);
                let pipe = match self.open.remove(&write.id) {
                    Some(Open::WriteEnd(pipe)) => pipe,
                    _ => panic!("a writer needs the write end of a pipe"),
                };
                let id: u64 = self.number();
                self.threads.insert(id, Thread::Writer(pipe));
                Reply::Started(Worker { id })
            }
            Request::Environment => Reply::Variables(self.variables.clone()),
            Request::Inherit(stream) => {
                let data = match stream {
                    Stream::Stdin => self.stdin.clone(),
                    Stream::Stdout => self.stdout.clone(),
                    Stream::Stderr => self.stderr.clone(),
                };
                let position: usize = match stream {
                    Stream::Stdin => 0,
                    _ => data.borrow().len(),
                };
                Reply::Inherited(self.insert(Open::File(data, Rc::new(Cell::new(position)))))
            }
            Request::CurrentDir => {
                if self.dir_is_gone {
                    Reply::Directory(Err(failure(std::io::ErrorKind::NotFound)))
                } else {
                    Reply::Directory(Ok(self.dir.clone()))
                }
            }
            Request::OpenRead(path) => match self.files.get(&path).cloned() {
                Some(data) => {
                    Reply::Opened(Ok(self.insert(Open::File(data, Rc::new(Cell::new(0))))))
                }
                None => Reply::Opened(Err(failure(std::io::ErrorKind::NotFound))),
            },
            Request::OpenWrite(path) => {
                if path.starts_with(b"/read-only/") {
                    return Reply::Opened(Err(failure(std::io::ErrorKind::PermissionDenied)));
                }
                let data = if path == b"/dev/null" {
                    Rc::new(RefCell::new(Vec::new()))
                } else {
                    self.files.entry(path).or_default().clone()
                };
                data.borrow_mut().clear();
                Reply::Opened(Ok(self.insert(Open::File(data, Rc::new(Cell::new(0))))))
            }
            Request::Duplicate(handle) => {
                let open = self.get(handle);
                if self.duplicates_left == 0 {
                    return Reply::Opened(Err(failure(std::io::ErrorKind::OutOfMemory)));
                }
                self.duplicates_left -= 1;
                Reply::Opened(Ok(self.insert(open)))
            }
            Request::Launch(launch) => Reply::Exited(self.launch(launch)),
            Request::Fork(left, right) => {
                let left: Exit = self.finish(left);
                let right: Exit = self.finish(right);
                Reply::Forked(left, right)
            }
            Request::JoinWriter(writer) => match self.threads.remove(&writer.id) {
                Some(Thread::Writer(pipe)) => {
                    let unread: usize = pipe.data.borrow().len();
                    if !self.has_reader(&pipe) && unread > PIPE_CAPACITY {
                        Reply::Written(Err(failure(std::io::ErrorKind::BrokenPipe)))
                    } else {
                        Reply::Written(Ok(()))
                    }
                }
                _ => panic!("there is no such writer"),
            },
            Request::JoinReader(reader) => match self.threads.remove(&reader.id) {
                Some(Thread::Reader(pipe)) => {
                    assert!(!self.has_writer(&pipe), "the reader would never come to an end");
                    Reply::Collected(Ok(std::mem::take(&mut *pipe.data.borrow_mut())))
                }
                _ => panic!("there is no such reader"),
            },
        }
    }

    fn launch(&mut self, launch: Launch) -> Exit {
        let program: String = text(launch.program());
        let arguments: Vec<String> = launch.arguments().into_iter().map(text).collect();
        let words: Vec<&str> = arguments.iter().map(|word| word.as_str()).collect();
        self.command(&program, &words, &launch)
    }

    /// The commands that there are.
    fn command(&mut self, program: &str, words: &[&str], launch: &Launch) -> Exit {
        match program {
            "true" => Ok(0),
            "false" => Ok(1),
            "exit" => Ok(words[0].parse::<i32>().unwrap()),
            "echo" => {
                let line = match words.first() {
                    Some(&"-n") => words[1..].join(" "),
                    _ => format!("{}\n", words.join(" ")),
                };
                self.write_all(launch.stdout, line.as_bytes());
                Ok(0)
            }
            "cat" => {
                let input = self.read_to_end(launch.stdin);
                self.write_all(launch.stdout, &input);
                Ok(0)
            }
            "pwd" => {
                let line = format!("{}\n", text(&launch.dir));
                self.write_all(launch.stdout, line.as_bytes());
                Ok(0)
            }
            "sed" => {
                let parts: Vec<&str> = words[0].split('/').collect();
                let count: usize = if parts[3] == "g" { usize::MAX } else { 1 };
                let input: String = text(&self.read_to_end(launch.stdin));
                let output: String = input.replacen(parts[1], parts[2], count);
                self.write_all(launch.stdout, output.as_bytes());
                Ok(0)
            }
            "garbage" => {
                self.write_all(launch.stdout, &[0x66, 0xff, 0x66]);
                Ok(0)
            }
            "/bin/sh" => {
                assert_eq!("-c", words[0]);
                let mut status: i32 = 0;
                for line in words[1].split(';') {
                    status = self.shell(line, launch)?;
                }
                Ok(status)
            }
            _ => Err(failure(std::io::ErrorKind::NotFound)),
        }
    }

    /// One command of a shell script.
    fn shell(&mut self, line: &str, launch: &Launch) -> Exit {
        let mut words: Vec<String> = Vec::new();
        let mut stdout: Handle = launch.stdout;
        for word in line.split_whitespace() {
            if word == ">&2" {
                stdout = launch.stderr;
            } else if let Some(name) = word.strip_prefix('$') {
                for (variable, value) in launch.env.pairs() {
                    if variable == name.as_bytes() {
                        words.push(text(value));
                    }
                }
            } else {
                words.push(word.to_owned());
            }
        }
        let inner = Launch {
            argv: Vec::new(),
            stdin: launch.stdin,
            stdout,
            stderr: launch.stderr,
            dir: launch.dir.clone(),
            env: launch.env.clone(),
        };
        let rest: Vec<&str> = words[1..].iter().map(|word| word.as_str()).collect();
        self.command(&words[0], &rest, &inner)
    }

    /// Runs one side of a pipe.
    fn finish(&mut self, job: Job<'_>) -> Exit {
        let mut step = job.start();
        loop {
            self.close(step.close);
            match step.next {
                Next::Ask(request, task) => step = task.advance(self.perform(request)),
                Next::Done(exit) => return exit,
            }
        }
    }

    /// Nothing is open any more but what was lent.
    fn check_tidy(&self) {
        assert_eq!(self.lent, self.open.len(), "handles were left open");
        for thread in self.threads.values() {
            assert!(matches!(thread, Thread::Reader(_)), "a writer was left behind");
        }
    }

    fn run(&mut self, expression: &Expression<'_>) -> Result<Output, Error> {
        let mut step = expression.run();
        loop {
            self.close(step.close);
            match step.next {
                Next::Ask(request, run) => step = run.advance(self.perform(request)),
                Next::Done(result) => {
                    self.check_tidy();
                    return result;
                }
            }
        }
    }

    fn read(&mut self, expression: &Expression<'_>) -> Result<String, Error> {
        let mut step = expression.read();
        loop {
            self.close(step.close);
            match step.next {
                Next::Ask(request, read) => step = read.advance(self.perform(request)),
                Next::Done(result) => {
                    self.check_tidy();
                    return result;
                }
            }
        }
    }
}

fn text(bytes: &Vec<u8>) -> String {
    String::from_utf8(bytes.clone()).unwrap()
}

fn read(expression: &Expression<'_>) -> Result<String, Error> {
    World::new().read(expression)
}

fn run(expression: &Expression<'_>) -> Result<Output, Error> {
    World::new().run(expression)
}

fn io_kind<T>(result: Result<T, Error>) -> std::io::ErrorKind {
    match result {
        Err(Error::Io(error)) => error.kind(),
        _ => panic!("Expected an error of the operating system."),
    }
}

fn status_of(result: Result<Output, Error>) -> i32 {
    match result {
        Err(Error::Status(output)) => output.status,
        _ => panic!("Expected a status error."),
    }
}

#[test]
fn test_cmd() {
    let output = read(&cmd(&["echo", "hi"])).unwrap();
    assert_eq!("hi", output);
}

#[test]
fn test_sh() {
    let output = read(&sh("echo hi")).unwrap();
    assert_eq!("hi", output);
}

#[test]
fn test_error() {
    let result = run(&cmd(&["false"]));
    if let Err(Error::Status(output)) = result {
        // Check that the status is non-zero.
        assert!(output.status != 0);
    } else {
        panic!("Expected a status error.");
    }
}

#[test]
fn test_ignore() {
    let ignored_false = cmd(&["false"]).unchecked();
    let expression = ignored_false.then(cmd(&["echo", "waa"])).then(ignored_false);
    let output = read(&expression).unwrap();
    assert_eq!("waa", output);
}

#[test]
fn test_pipe() {
    let output = read(&sh("echo hi").pipe(sh("sed s/i/o/"))).unwrap();
    assert_eq!("ho", output);
}

#[test]
fn test_then() {
    let output = read(&sh("echo -n hi").then(sh("echo lo"))).unwrap();
    assert_eq!("hilo", output);
}

#[test]
fn test_input() {
    let expr = sh("sed s/f/g/").input("foo");
    let output = read(&expr).unwrap();
    assert_eq!("goo", output);
}

#[test]
fn test_null() {
    let expr = cmd(&["cat"]).null_stdin().null_stdout().null_stderr();
    let output = read(&expr).unwrap();
    assert_eq!("", output);
}

#[test]
fn test_path() {
    let mut world = World::new();
    let input_file: Vec<u8> = b"/tmp/input".to_vec();
    let output_file: Vec<u8> = b"/tmp/output".to_vec();
    world.write_file("/tmp/input", b"foo");
    world.write_file("/tmp/output", b"");
    let expr = sh("sed s/o/a/g").stdin(&*input_file).stdout(&*output_file);
    let output = world.read(&expr).unwrap();
    assert_eq!("", output);
    let file_output = String::from_utf8(world.read_file("/tmp/output")).unwrap();
    assert_eq!("faa", file_output);
}

fn with_input<'a>(expr: &Expression<'a>) -> Expression<'a> {
    let mystr = format!("I own this: {}", "foo");
    // This would be a lifetime error if we tried to use &mystr.
    expr.input(mystr)
}

#[test]
fn test_owned_input() {
    let c = cmd(&["cat"]);
    let c_with_input = with_input(&c);
    let output = read(&c_with_input).unwrap();
    assert_eq!("I own this: foo", output);
}

#[test]
fn test_stderr_to_stdout() {
    let command = sh("echo hi >&2").stderr_to_stdout();
    let output = read(&command).unwrap();
    assert_eq!("hi", output);
}

#[test]
fn test_file() {
    let mut world = World::new();
    world.write_file("/tmp/temp", b"example");
    let temp = world.lend("/tmp/temp");
    let expr = cmd(&["cat"]).stdin(&temp);
    let output = world.read(&expr).unwrap();
    assert_eq!(output, "example");
}

#[test]
fn test_ergonomics() {
    // There is no automatic Deref when trait implementations are matched, so in addition to String
    // and &str, &String is implemented too.
    let mystr = "owned string".to_owned();
    let mypathbuf: Vec<u8> = b"a/b/c".to_vec();
    let myvec: Vec<u8> = vec![1, 2, 3];
    // These are nonsense expressions. We just want to make sure they compile.
    let _ = sh("true").stdin(&*mystr).input(&*myvec).stdout(&*mypathbuf);
    let _ = sh("true").stdin(&mystr).input(&myvec).stdout(&mypathbuf);
    let _ = sh("true").stdin(mystr).input(myvec).stdout(mypathbuf);
}

#[test]
fn test_capture_both() {
    let output = run(&sh("echo -n hi; echo -n lo >&2").capture_stdout().capture_stderr()).unwrap();
    assert_eq!(b"hi", &*output.stdout);
    assert_eq!(b"lo", &*output.stderr);
}

#[test]
fn test_cwd() {
    // First assert that ordinary commands happen in the parent's dir.
    let mut world = World::new();
    let pwd_output = world.read(&cmd(&["pwd"])).unwrap();
    assert_eq!(pwd_output, text(&world.dir));

    // Now make sure we can set dir to something else.
    let dir = "/tmp/duct_test".to_owned();
    let pwd_output = world.read(&cmd(&["pwd"]).dir(&dir)).unwrap();
    assert_eq!(pwd_output, dir);
}

#[test]
fn test_env() {
    let output = read(&sh("echo $foo").env("foo", "bar")).unwrap();
    assert_eq!("bar", output);
}

#[test]
fn test_full_env() {
    // Set a var twice, both in the parent process and with an env() call. Make sure a single
    // full_env() call clears both.
    let mut world = World::new();
    let var_name = "test_env_remove_var";
    world.variables.push((var_name.as_bytes().to_vec(), b"junk1".to_vec()));
    let command = format!("echo ${}", var_name);
    let nothing: Vec<(String, String)> = Vec::new();
    let expr = sh(command).full_env(nothing).env(var_name, "junk2");
    let output = world.read(&expr).unwrap();
    assert_eq!("", output);
}

#[test]
fn test_broken_pipe() {
    // If the input writing thread fills up its pipe buffer, writing will block. If the process
    // on the other end of the pipe exits while writer is waiting, the write will return an
    // error. We need to swallow that error, rather than returning it.
    let myvec: Vec<u8> = vec![0; 1_000_000];
    run(&cmd(&["true"]).input(myvec)).unwrap();
}

#[test]
fn variables_of_the_parent_are_inherited() {
    let mut world = World::new();
    world.variables.push((b"color".to_vec(), b"red".to_vec()));
    assert_eq!("red", world.read(&sh("echo $color")).unwrap());
    assert_eq!("blue", world.read(&sh("echo $color").env("color", "blue")).unwrap());
}

#[test]
fn the_setting_made_first_holds() {
    let twice = cmd(&["pwd"]).dir("/first").dir("/second");
    assert_eq!("/first", read(&twice).unwrap());

    let twice = sh("echo $v").env("v", "first").env("v", "second");
    assert_eq!("first", read(&twice).unwrap());

    let mut world = World::new();
    world.write_file("/first", b"one");
    world.write_file("/second", b"two");
    assert_eq!("one", world.read(&cmd(&["cat"]).stdin("/first").stdin("/second")).unwrap());
    assert_eq!("here", world.read(&cmd(&["cat"]).input("here").stdin("/second")).unwrap());
    assert_eq!("two", world.read(&cmd(&["cat"]).stdin("/second").input("here")).unwrap());
}

#[test]
fn the_redirection_made_first_holds() {
    let mut world = World::new();
    world.run(&cmd(&["echo", "x"]).stdout("/first").stdout("/second")).unwrap();
    assert_eq!(b"x\n".to_vec(), world.read_file("/first"));
    assert_eq!(Vec::<u8>::new(), world.read_file("/second"));

    world.run(&sh("echo y >&2").stderr("/first").stderr("/second")).unwrap();
    assert_eq!(b"y\n".to_vec(), world.read_file("/first"));
    assert_eq!(Vec::<u8>::new(), world.read_file("/second"));
}

#[test]
fn variables_can_be_set_in_any_order() {
    let one = sh("echo $a $b").env("a", "1").env("b", "2");
    let other = sh("echo $a $b").env("b", "2").env("a", "1");
    assert_eq!("1 2", read(&one).unwrap());
    assert_eq!("1 2", read(&other).unwrap());
}

#[test]
fn a_full_environment_keeps_the_later_of_two_values() {
    let variables = vec![("v", "old"), ("w", "other"), ("v", "new")];
    assert_eq!("new other", read(&sh("echo $v $w").full_env(variables)).unwrap());
}

#[test]
fn variables_set_before_a_full_environment_hold() {
    let variables = vec![("v", "full")];
    assert_eq!("near", read(&sh("echo $v").env("v", "near").full_env(variables)).unwrap());
}

#[test]
fn output_that_is_not_captured_goes_to_the_parent() {
    let mut world = World::new();
    let output = world.run(&sh("echo out; echo err >&2")).unwrap();
    assert_eq!(0, output.status);
    assert_eq!(Vec::<u8>::new(), output.stdout);
    assert_eq!(Vec::<u8>::new(), output.stderr);
    assert_eq!(b"out\n".to_vec(), *world.stdout.borrow());
    assert_eq!(b"err\n".to_vec(), *world.stderr.borrow());
}

#[test]
fn input_that_is_not_redirected_comes_from_the_parent() {
    let mut world = World::new();
    world.stdin.borrow_mut().extend_from_slice(b"from the parent");
    assert_eq!("from the parent", world.read(&cmd(&["cat"])).unwrap());
}

#[test]
fn output_can_be_sent_where_errors_go() {
    let expression = cmd(&["echo", "-n", "x"]).stdout_to_stderr().capture_stderr();
    let output = run(&expression).unwrap();
    assert_eq!(Vec::<u8>::new(), output.stdout);
    assert_eq!(b"x".to_vec(), output.stderr);
}

#[test]
fn files_that_are_open_can_be_written_to() {
    let mut world = World::new();
    world.write_file("/log", b"");
    let log = world.lend("/log");
    let expression = sh("echo out; echo err >&2").stdout(&log).stderr(log);
    world.run(&expression).unwrap();
    assert_eq!(b"out\nerr\n".to_vec(), world.read_file("/log"));
}

#[test]
fn a_pipe_fails_with_the_status_of_its_right_side() {
    assert_eq!(3, status_of(run(&sh("exit 2").pipe(sh("exit 3")))));
}

#[test]
fn a_pipe_fails_with_the_status_of_its_left_side_if_the_right_succeeds() {
    assert_eq!(2, status_of(run(&sh("exit 2").pipe(cmd(&["true"])))));
}

#[test]
fn a_pipe_succeeds_if_both_sides_do() {
    assert_eq!(0, run(&cmd(&["true"]).pipe(cmd(&["true"]))).unwrap().status);
}

#[test]
fn an_error_on_the_right_of_a_pipe_comes_before_one_on_the_left() {
    let left = cmd(&["cat"]).stdin("/missing");
    let right = cmd(&["cat"]).stdout("/read-only/file");
    let kind = io_kind(run(&left.pipe(&right)));
    assert_eq!(std::io::ErrorKind::PermissionDenied, kind);
    let kind = io_kind(run(&left.pipe(cmd(&["true"]))));
    assert_eq!(std::io::ErrorKind::NotFound, kind);
    let kind = io_kind(run(&left.pipe(cmd(&["false"]))));
    assert_eq!(std::io::ErrorKind::NotFound, kind);
}

#[test]
fn pipes_can_be_long() {
    let expression = cmd(&["cat"])
        .input("abc")
        .pipe(sh("sed s/a/x/"))
        .pipe(sh("sed s/b/y/").pipe(sh("sed s/c/z/")));
    assert_eq!("xyz", read(&expression).unwrap());
}

#[test]
fn a_sequence_stops_at_the_first_failure() {
    let mut world = World::new();
    let expression = cmd(&["echo", "a"]).then(sh("exit 7")).then(cmd(&["echo", "b"]));
    assert_eq!(7, status_of(world.run(&expression)));
    assert_eq!(b"a\n".to_vec(), *world.stdout.borrow());
}

#[test]
fn a_sequence_stops_at_an_error() {
    let mut world = World::new();
    let expression = cmd(&["no such program"]).then(cmd(&["echo", "b"]));
    assert_eq!(std::io::ErrorKind::NotFound, io_kind(world.run(&expression)));
    assert_eq!(Vec::<u8>::new(), *world.stdout.borrow());
}

#[test]
fn a_sequence_goes_on_after_a_success() {
    let expression = cmd(&["echo", "a"]).then(cmd(&["echo", "b"]));
    assert_eq!("a\nb", read(&expression).unwrap());
}

#[test]
fn unchecked_expressions_have_status_zero() {
    assert_eq!(0, run(&sh("exit 9").unchecked()).unwrap().status);
    assert_eq!(0, run(&sh("exit 9").unchecked().unchecked()).unwrap().status);
}

#[test]
fn unchecked_expressions_still_report_errors() {
    let kind = io_kind(run(&cmd(&["no such program"]).unchecked()));
    assert_eq!(std::io::ErrorKind::NotFound, kind);
}

#[test]
fn a_failing_read_has_no_text() {
    match read(&sh("echo partial; exit 4")) {
        Err(Error::Status(output)) => {
            assert_eq!(4, output.status);
            assert_eq!(b"partial\n".to_vec(), output.stdout);
        }
        _ => panic!("Expected a status error."),
    }
}

#[test]
fn output_that_is_not_text_is_an_error() {
    match read(&cmd(&["garbage"])) {
        Err(Error::Utf8(error)) => assert_eq!(1, error.valid_up_to()),
        _ => panic!("Expected a UTF-8 error."),
    }
    let output = run(&cmd(&["garbage"]).capture_stdout()).unwrap();
    assert_eq!(vec![0x66, 0xff, 0x66], output.stdout);
}

#[test]
fn newlines_at_the_end_are_taken_off() {
    assert_eq!("a\n\nb ", read(&cmd(&["cat"]).input("a\n\nb \n\n\n")).unwrap());
    assert_eq!("", read(&cmd(&["cat"]).input("\n\n")).unwrap());
    assert_eq!("", read(&cmd(&["true"])).unwrap());
    assert_eq!("\u{e9}", read(&cmd(&["cat"]).input("\u{e9}\n")).unwrap());
    assert_eq!("line\r", read(&cmd(&["cat"]).input("line\r\n")).unwrap());
}

#[test]
fn a_missing_file_is_an_error() {
    let kind = io_kind(run(&cmd(&["cat"]).stdin("/missing")));
    assert_eq!(std::io::ErrorKind::NotFound, kind);
}

#[test]
fn a_file_that_cannot_be_written_is_an_error() {
    let kind = io_kind(run(&cmd(&["true"]).stdout("/read-only/file")));
    assert_eq!(std::io::ErrorKind::PermissionDenied, kind);
    let kind = io_kind(run(&cmd(&["true"]).stderr("/read-only/file")));
    assert_eq!(std::io::ErrorKind::PermissionDenied, kind);
}

#[test]
fn a_missing_directory_is_an_error() {
    let mut world = World::new();
    world.dir_is_gone = true;
    assert_eq!(std::io::ErrorKind::NotFound, io_kind(world.run(&cmd(&["true"]))));
}

#[test]
fn nothing_stays_open_when_duplicates_run_out() {
    let expression = cmd(&["echo", "x"])
        .pipe(cmd(&["cat"]).stderr_to_stdout())
        .then(cmd(&["cat"]).input("y").capture_stdout())
        .capture_stderr();
    let mut failures: usize = 0;
    for duplicates in 0..20 {
        let mut world = World::new();
        world.duplicates_left = duplicates;
        match world.run(&expression) {
            Ok(output) => assert_eq!(b"y".to_vec(), output.stdout),
            Err(Error::Io(error)) => {
                assert_eq!(std::io::ErrorKind::OutOfMemory, error.kind());
                failures += 1;
            }
            Err(_) => panic!("Expected no other error."),
        }
    }
    // One for the captured errors, five for each of the two copies, and one each for the
    // redirections inside.
    assert_eq!(13, failures);
}

#[test]
fn expressions_can_be_used_again() {
    let greeting = cmd(&["echo", "hi"]);
    let both = greeting.then(&greeting);
    let copy = greeting.clone();
    let mut world = World::new();
    assert_eq!("hi\nhi", world.read(&both).unwrap());
    assert_eq!("hi", world.read(&greeting).unwrap());
    assert_eq!("hi", world.read(&copy).unwrap());
    assert_eq!("hi", world.read(&copy).unwrap());
}

#[test]
fn raw_bytes_reach_the_command_unchanged() {
    let bytes: Vec<u8> = vec![0, 255, 10, 128];
    let output = run(&cmd(&["cat"]).input(&bytes).capture_stdout()).unwrap();
    assert_eq!(bytes, output.stdout);
}

#[test]
fn sequences_can_be_grouped_in_any_way() {
    let statuses: [&str; 3] = ["0", "3", "4"];
    for first in statuses {
        for second in statuses {
            let a = sh(format!("echo a; exit {}", first));
            let b = sh(format!("echo b; exit {}", second));
            let c = cmd(&["echo", "c"]);
            let mut one = World::new();
            let mut other = World::new();
            let left = one.run(&a.then(&b).then(&c));
            let right = other.run(&a.then(b.then(&c)));
            assert_eq!(*one.stdout.borrow(), *other.stdout.borrow());
            if first != "0" {
                assert_eq!(b"a\n".to_vec(), *one.stdout.borrow());
                assert_eq!(first, status_of(left).to_string());
                assert_eq!(first, status_of(right).to_string());
            } else if second != "0" {
                assert_eq!(b"a\nb\n".to_vec(), *one.stdout.borrow());
                assert_eq!(second, status_of(left).to_string());
                assert_eq!(second, status_of(right).to_string());
            } else {
                assert_eq!(b"a\nb\nc\n".to_vec(), *one.stdout.borrow());
                assert_eq!(0, left.unwrap().status);
                assert_eq!(0, right.unwrap().status);
            }
        }
    }
}

#[test]
fn unchecked_runs_keep_what_was_captured() {
    let failing = sh("echo out; echo err >&2; exit 6").capture_stdout().capture_stderr();
    assert_eq!(6, status_of(run(&failing)));
    let output = run(&failing.unchecked()).unwrap();
    assert_eq!(0, output.status);
    assert_eq!(b"out\n".to_vec(), output.stdout);
    assert_eq!(b"err\n".to_vec(), output.stderr);
    assert_eq!("out", read(&sh("echo out; exit 6").unchecked()).unwrap());
}

#[test]
fn inner_settings_apply_to_the_result_of_outer_ones() {
    // Errors go where output went before it was redirected further in.
    let mut world = World::new();
    let script = "echo out; echo err >&2";
    let expression = sh(script).stdout("/file").stderr_to_stdout();
    assert_eq!("err", world.read(&expression).unwrap());
    assert_eq!(b"out\n".to_vec(), world.read_file("/file"));

    // The other way round both go to the file.
    let expression = sh(script).stderr_to_stdout().stdout("/file");
    assert_eq!("", world.read(&expression).unwrap());
    assert_eq!(b"out\nerr\n".to_vec(), world.read_file("/file"));
}

#[test]
fn settings_that_have_nothing_to_do_with_each_other_commute() {
    let one = sh("pwd; echo $v").dir("/d").env("v", "x");
    let other = sh("pwd; echo $v").env("v", "x").dir("/d");
    assert_eq!("/d\nx", read(&one).unwrap());
    assert_eq!("/d\nx", read(&other).unwrap());
}

#[test]
fn pipelines_can_be_grouped_in_any_way() {
    let statuses: [&str; 3] = ["0", "3", "4"];
    for first in statuses {
        for second in statuses {
            for third in statuses {
                let a = sh(format!("echo abc; exit {}", first)).capture_stderr();
                let b = sh(format!("sed s/a/x/; exit {}", second));
                let c = sh(format!("sed s/b/y/; exit {}", third)).capture_stdout();
                let left = run(&a.pipe(&b).pipe(&c).unchecked()).unwrap();
                let right = run(&a.pipe(b.pipe(&c)).unchecked()).unwrap();
                assert_eq!(b"xyc\n".to_vec(), left.stdout);
                assert_eq!(b"xyc\n".to_vec(), right.stdout);
                let last = [third, second, first].into_iter().find(|status| *status != "0");
                for expression in [a.pipe(&b).pipe(&c), a.pipe(b.pipe(&c))] {
                    match last {
                        Some(status) => assert_eq!(status, status_of(run(&expression)).to_string()),
                        None => assert_eq!(0, run(&expression).unwrap().status),
                    }
                }
            }
        }
    }
}
