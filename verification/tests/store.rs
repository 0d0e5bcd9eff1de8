use std::cell::RefCell;
use std::rc::Rc;
use todo::todotxt::{parse, remove_at, render};
use todo::{ErrorKind, Task, Todo, TodoError, TodoTxt, TodotxtIO};

struct MockIO {
    content: String,
}

impl MockIO {
    fn from_string(content: String) -> MockIO {
        MockIO { content }
    }

    fn new() -> MockIO {
        MockIO { content: String::new() }
    }
}

impl TodotxtIO for MockIO {
    fn read_to_string(&mut self) -> Result<String, TodoError> {
        Ok(self.content.clone())
    }

    fn rewind(&mut self) -> Result<(), TodoError> {
        Ok(())
    }

    fn write_all(&mut self, text: &str) -> Result<(), TodoError> {
        self.content = text.to_string();
        Ok(())
    }

    fn flush(&mut self) -> Result<(), TodoError> {
        Ok(())
    }
}

/// A sink whose text the test can still read once the store owns the sink.
struct SharedIO {
    content: Rc<RefCell<String>>,
}

impl TodotxtIO for SharedIO {
    fn read_to_string(&mut self) -> Result<String, TodoError> {
        Ok(self.content.borrow().clone())
    }

    fn rewind(&mut self) -> Result<(), TodoError> {
        Ok(())
    }

    fn write_all(&mut self, text: &str) -> Result<(), TodoError> {
        *self.content.borrow_mut() = text.to_string();
        Ok(())
    }

    fn flush(&mut self) -> Result<(), TodoError> {
        Ok(())
    }
}

fn shared(text: &str) -> (SharedIO, Rc<RefCell<String>>) {
    let content = Rc::new(RefCell::new(text.to_string()));
    (SharedIO { content: content.clone() }, content)
}

/// A sink that fails where it is told to, and reports a message that a
/// decoder could have given.
struct BrokenIO {
    content: String,
    read: bool,
    rewind: bool,
    write: bool,
    flush: bool,
}

impl BrokenIO {
    fn holding(content: &str) -> BrokenIO {
        BrokenIO {
            content: content.to_string(),
            read: false,
            rewind: false,
            write: false,
            flush: false,
        }
    }

    fn failure(what: &str) -> TodoError {
        TodoError { kind: ErrorKind::EmptyInput, message: what.to_string() }
    }
}

impl TodotxtIO for BrokenIO {
    fn read_to_string(&mut self) -> Result<String, TodoError> {
        if self.read {
            return Err(BrokenIO::failure("cannot read"));
        }
        Ok(self.content.clone())
    }

    fn rewind(&mut self) -> Result<(), TodoError> {
        if self.rewind {
            return Err(BrokenIO::failure("cannot rewind"));
        }
        Ok(())
    }

    fn write_all(&mut self, text: &str) -> Result<(), TodoError> {
        if self.write {
            return Err(BrokenIO::failure("cannot write"));
        }
        self.content = text.to_string();
        Ok(())
    }

    fn flush(&mut self) -> Result<(), TodoError> {
        if self.flush {
            return Err(BrokenIO::failure("cannot flush"));
        }
        Ok(())
    }
}

fn names(tasks: &[Task]) -> Vec<String> {
    tasks.iter().map(|t| t.name.clone()).collect()
}

#[test]
fn test_add() {
    let mut todo = TodoTxt::new(MockIO::new());
    let task = Task::new("test".to_string(), "project".to_string(), 'A');
    if let Err(e) = todo.add(task) {
        panic!("{}", e.to_string());
    }

    if let Ok(list) = todo.list() {
        assert_eq!(list.len(), 1);
    }
}

#[test]
fn test_remove() {
    let mut todo = TodoTxt::new(MockIO::new());
    let task = Task::new("test".to_string(), "project".to_string(), 'A');
    if let Err(e) = todo.add(task) {
        panic!("{}", e.to_string());
    }

    if let Err(e) = todo.remove(0) {
        panic!("{}", e.to_string());
    }

    if let Ok(list) = todo.list() {
        assert_eq!(list.len(), 0);
    }
}

#[test]
fn test_list() {
    let mut todo = TodoTxt::new(MockIO::from_string("(A) test +project".to_string()));
    if let Ok(list) = todo.list() {
        assert_eq!(list.len(), 1);
    }
}

#[test]
fn test_list_empty() {
    let mut todo = TodoTxt::new(MockIO::new());
    if let Ok(list) = todo.list() {
        assert_eq!(list.len(), 0);
    }
}

#[test]
fn list_of_an_empty_sink_succeeds_with_nothing() {
    let mut store = TodoTxt::new(MockIO::new());
    let list = store.list().unwrap_or_else(|e| panic!("{}", e.to_string()));
    assert!(list.is_empty());
}

#[test]
fn list_reads_what_the_sink_holds() {
    let sink = MockIO::from_string("x (B) pay rent +home\n(A) call +work back\n".to_string());
    let mut store = TodoTxt::new(sink);
    let list = store.list().unwrap_or_else(|e| panic!("{}", e.to_string()));
    assert_eq!(list.len(), 2);
    assert_eq!(list[0].name, "pay rent +home");
    assert_eq!(list[0].project, "home");
    assert_eq!(list[0].get_priority(), 'B');
    assert!(list[0].is_complete());
    assert_eq!(list[1].name, "call +work back");
    assert_eq!(list[1].project, "work");
    assert_eq!(list[1].get_priority(), 'A');
    assert!(!list[1].is_complete());
}

#[test]
fn add_then_list_gives_the_added_task_back() {
    let mut store = TodoTxt::new(MockIO::new());
    let mut task = Task::new("Learn Rust +project".to_string(), "project".to_string(), 'A');
    task.complete();
    store.add(task).unwrap_or_else(|e| panic!("{}", e.to_string()));
    let list = store.list().unwrap_or_else(|e| panic!("{}", e.to_string()));
    assert_eq!(list.len(), 1);
    assert_eq!(list[0].name, "Learn Rust +project");
    assert_eq!(list[0].project, "project");
    assert_eq!(list[0].get_priority(), 'A');
    assert!(list[0].is_complete());
}

#[test]
fn add_then_list_puts_the_tag_into_the_name() {
    let mut store = TodoTxt::new(MockIO::new());
    let task = Task::new("test".to_string(), "project".to_string(), 'A');
    store.add(task).unwrap_or_else(|e| panic!("{}", e.to_string()));
    let list = store.list().unwrap_or_else(|e| panic!("{}", e.to_string()));
    assert_eq!(list.len(), 1);
    assert_eq!(list[0].name, "test +project");
    assert_eq!(list[0].project, "project");
}

#[test]
fn add_then_remove_then_list_gives_nothing() {
    let (sink, content) = shared("");
    let mut store = TodoTxt::new(sink);
    let task = Task::new("Learn Rust".to_string(), String::new(), 'A');
    store.add(task).unwrap_or_else(|e| panic!("{}", e.to_string()));
    assert_eq!(content.borrow().as_str(), "(A) Learn Rust\n");
    store.remove(0).unwrap_or_else(|e| panic!("{}", e.to_string()));
    assert_eq!(content.borrow().as_str(), "");
    let list = store.list().unwrap_or_else(|e| panic!("{}", e.to_string()));
    assert!(list.is_empty());
}

#[test]
fn add_appends_to_what_the_sink_holds() {
    let (sink, content) = shared("(A) one\n(B) two");
    let mut store = TodoTxt::new(sink);
    let task = Task::new("three".to_string(), "p".to_string(), 'C');
    store.add(task).unwrap_or_else(|e| panic!("{}", e.to_string()));
    assert_eq!(content.borrow().as_str(), "(A) one\n(B) two\n(C) three +p\n");
}

#[test]
fn add_does_not_pile_up_over_calls() {
    let (sink, content) = shared("");
    let mut store = TodoTxt::new(sink);
    store.add(Task::new("one".to_string(), String::new(), 'A')).unwrap_or_else(
        |e| panic!("{}", e.to_string()),
    );
    store.add(Task::new("two".to_string(), String::new(), 'B')).unwrap_or_else(
        |e| panic!("{}", e.to_string()),
    );
    assert_eq!(content.borrow().as_str(), "(A) one\n(B) two\n");
    let list = store.list().unwrap_or_else(|e| panic!("{}", e.to_string()));
    assert_eq!(names(&list), vec!["one".to_string(), "two".to_string()]);
}

#[test]
fn a_change_drops_the_comments_of_the_sink() {
    let (sink, content) = shared("# shopping\n(A) milk\n# errands\n(B) post\n");
    let mut store = TodoTxt::new(sink);
    let list = store.list().unwrap_or_else(|e| panic!("{}", e.to_string()));
    assert_eq!(names(&list), vec!["milk".to_string(), "post".to_string()]);
    assert_eq!(content.borrow().as_str(), "# shopping\n(A) milk\n# errands\n(B) post\n");
    store.remove(0).unwrap_or_else(|e| panic!("{}", e.to_string()));
    assert_eq!(content.borrow().as_str(), "(B) post\n");
}

#[test]
fn remove_takes_the_task_at_the_index() {
    let (sink, content) = shared("(A) one\n(B) two\n(C) three\n");
    let mut store = TodoTxt::new(sink);
    store.remove(1).unwrap_or_else(|e| panic!("{}", e.to_string()));
    assert_eq!(content.borrow().as_str(), "(A) one\n(C) three\n");
    store.remove(1).unwrap_or_else(|e| panic!("{}", e.to_string()));
    assert_eq!(content.borrow().as_str(), "(A) one\n");
}

#[test]
fn save_leaves_nothing_of_a_longer_text() {
    let (sink, content) = shared("(A) a rather long line of text\n(B) b\n");
    let mut store = TodoTxt::new(sink);
    store.remove(0).unwrap_or_else(|e| panic!("{}", e.to_string()));
    assert_eq!(content.borrow().as_str(), "(B) b\n");
}

#[test]
fn remove_past_the_end_is_refused() {
    let (sink, content) = shared("(A) one\n");
    let mut store = TodoTxt::new(sink);
    let e = store.remove(1).err().expect("index 1 of one task");
    assert_eq!(e.kind, ErrorKind::IndexOutOfRange);
    assert_eq!(e.to_string(), "Index out of range");
    assert_eq!(content.borrow().as_str(), "(A) one\n");
    let e = store.remove(usize::MAX).err().expect("the largest index");
    assert_eq!(e.kind, ErrorKind::IndexOutOfRange);
    let list = store.list().unwrap_or_else(|e| panic!("{}", e.to_string()));
    assert_eq!(list.len(), 1);
}

#[test]
fn remove_from_an_empty_sink_is_refused() {
    let mut store = TodoTxt::new(MockIO::new());
    let e = store.remove(0).err().expect("index 0 of no task");
    assert_eq!(e.kind, ErrorKind::IndexOutOfRange);
}

#[test]
fn load_replaces_what_was_in_memory() {
    let (sink, content) = shared("(A) one\n");
    let mut store = TodoTxt::new(sink);
    assert!(store.load().is_ok());
    *content.borrow_mut() = "(B) two\n(C) three\n".to_string();
    assert!(store.load().is_ok());
    assert!(store.save().is_ok());
    assert_eq!(content.borrow().as_str(), "(B) two\n(C) three\n");
}

#[test]
fn save_writes_the_list_in_memory() {
    let (sink, content) = shared("x (A) one +p\n# gone\n(B) two");
    let mut store = TodoTxt::new(sink);
    assert!(store.load().is_ok());
    assert!(store.save().is_ok());
    assert_eq!(content.borrow().as_str(), "x (A) one +p\n(B) two\n");
}

#[test]
fn save_before_any_load_empties_the_sink() {
    let (sink, content) = shared("(A) one\n");
    let mut store = TodoTxt::new(sink);
    assert!(store.save().is_ok());
    assert_eq!(content.borrow().as_str(), "");
}

#[test]
fn a_blank_line_fails_the_load() {
    let (sink, content) = shared("(A) one\n\n(B) two\n");
    let mut store = TodoTxt::new(sink);
    let e = store.load().err().expect("a blank line");
    assert_eq!(e.kind, ErrorKind::EmptyInput);
    assert_eq!(e.to_string(), "Cannot parse empty string");
    let e = store.list().err().expect("a blank line");
    assert_eq!(e.kind, ErrorKind::EmptyInput);
    let e = store.add(Task::new("x".to_string(), String::new(), 'A')).err().expect("a blank line");
    assert_eq!(e.kind, ErrorKind::EmptyInput);
    let e = store.remove(0).err().expect("a blank line");
    assert_eq!(e.kind, ErrorKind::EmptyInput);
    assert_eq!(content.borrow().as_str(), "(A) one\n\n(B) two\n");
}

#[test]
fn a_failed_load_leaves_nothing_in_memory() {
    let (sink, content) = shared("(A) one\n");
    let mut store = TodoTxt::new(sink);
    assert!(store.load().is_ok());
    *content.borrow_mut() = "(A) one\n( )\n".to_string();
    let e = store.load().err().expect("a line of markers");
    assert_eq!(e.kind, ErrorKind::UnparseablePriority);
    assert_eq!(e.to_string(), "Cannot parse task priority");
    assert!(store.save().is_ok());
    assert_eq!(content.borrow().as_str(), "");
}

#[test]
fn a_failing_read_is_an_io_failure() {
    let mut sink = BrokenIO::holding("(A) one\n");
    sink.read = true;
    let mut store = TodoTxt::new(sink);
    let e = store.load().err().expect("the read fails");
    assert_eq!(e.kind, ErrorKind::IOFailure);
    assert_eq!(e.to_string(), "cannot read");
    let e = store.list().err().expect("the read fails");
    assert_eq!(e.kind, ErrorKind::IOFailure);
    let e = store.remove(7).err().expect("the read fails");
    assert_eq!(e.kind, ErrorKind::IOFailure);
    let e = store.add(Task::new("x".to_string(), String::new(), 'A')).err().expect("the read fails");
    assert_eq!(e.kind, ErrorKind::IOFailure);
    assert_eq!(e.to_string(), "cannot read");
}

#[test]
fn a_failing_rewind_is_an_io_failure() {
    let mut sink = BrokenIO::holding("(A) one\n");
    sink.rewind = true;
    let mut store = TodoTxt::new(sink);
    assert!(store.list().is_ok());
    let e = store.save().err().expect("the rewind fails");
    assert_eq!(e.kind, ErrorKind::IOFailure);
    assert_eq!(e.to_string(), "cannot rewind");
    let e = store.remove(0).err().expect("the rewind fails");
    assert_eq!(e.kind, ErrorKind::IOFailure);
}

#[test]
fn a_failing_write_is_an_io_failure() {
    let mut sink = BrokenIO::holding("(A) one\n");
    sink.write = true;
    let mut store = TodoTxt::new(sink);
    let e = store.add(Task::new("x".to_string(), String::new(), 'A')).err().expect("the write fails");
    assert_eq!(e.kind, ErrorKind::IOFailure);
    assert_eq!(e.to_string(), "cannot write");
    let list = store.list().unwrap_or_else(|e| panic!("{}", e.to_string()));
    assert_eq!(names(&list), vec!["one".to_string()]);
}

#[test]
fn a_failing_flush_is_an_io_failure() {
    let mut sink = BrokenIO::holding("");
    sink.flush = true;
    let mut store = TodoTxt::new(sink);
    let e = store.save().err().expect("the flush fails");
    assert_eq!(e.kind, ErrorKind::IOFailure);
    assert_eq!(e.to_string(), "cannot flush");
}

#[test]
fn parse_of_nothing_is_no_task() {
    let tasks = parse("").unwrap_or_else(|e| panic!("{}", e.to_string()));
    assert!(tasks.is_empty());
}

#[test]
fn parse_reads_one_task_per_line() {
    let tasks = parse("(A) one\nx (B) two +p\n(C) three").unwrap_or_else(
        |e| panic!("{}", e.to_string()),
    );
    assert_eq!(tasks.len(), 3);
    assert_eq!(tasks[0].to_string(), "(A) one");
    assert_eq!(tasks[1].to_string(), "x (B) two +p");
    assert_eq!(tasks[1].project, "p");
    assert_eq!(tasks[2].to_string(), "(C) three");
}

#[test]
fn parse_passes_over_comments() {
    let tasks = parse("#\n# (A) not a task\n(A) a task\n#").unwrap_or_else(
        |e| panic!("{}", e.to_string()),
    );
    assert_eq!(names(&tasks), vec!["a task".to_string()]);
    let tasks = parse(" # (A) a task\n").unwrap_or_else(|e| panic!("{}", e.to_string()));
    assert_eq!(names(&tasks), vec!["# (A) a task".to_string()]);
    assert_eq!(tasks[0].get_priority(), '#');
}

#[test]
fn parse_takes_a_return_with_its_line_feed() {
    let tasks = parse("(A) one\r\n(B) two\r\n").unwrap_or_else(|e| panic!("{}", e.to_string()));
    assert_eq!(names(&tasks), vec!["one".to_string(), "two".to_string()]);
    let tasks = parse("(A) one\r\r\n(B) two\r").unwrap_or_else(|e| panic!("{}", e.to_string()));
    assert_eq!(names(&tasks), vec!["one\r".to_string(), "two\r".to_string()]);
    let tasks = parse("(A) one\rstill one\n").unwrap_or_else(|e| panic!("{}", e.to_string()));
    assert_eq!(names(&tasks), vec!["one\rstill one".to_string()]);
}

#[test]
fn parse_agrees_with_the_lines_of_std() {
    let texts = [
        "",
        "\n",
        "(A) a",
        "(A) a\n",
        "(A) a\n\n",
        "(A) a\r\n(B) b",
        "(A) a\r",
        "\r\n",
        "(A) a\n\r\n(B) b\n",
        "# c\r\n(A) a\n#d",
    ];
    for text in texts {
        let mut expected: Vec<String> = Vec::new();
        let mut failed = false;
        for line in text.lines() {
            if line.starts_with('#') {
                continue;
            }
            match Task::from_str(line) {
                Ok(task) => expected.push(task.to_string()),
                Err(_) => {
                    failed = true;
                    break;
                },
            }
        }
        match parse(text) {
            Ok(tasks) => {
                assert!(!failed, "{:?}", text);
                let got: Vec<String> = tasks.iter().map(|t| t.to_string()).collect();
                assert_eq!(got, expected, "{:?}", text);
            },
            Err(_) => assert!(failed, "{:?}", text),
        }
    }
}

#[test]
fn parse_fails_with_the_first_bad_line() {
    let e = parse("(A) one\n\nx\n").err().expect("a blank line, then a line of markers");
    assert_eq!(e.kind, ErrorKind::EmptyInput);
    assert_eq!(e.to_string(), "Cannot parse empty string");
    let e = parse("(A) one\nx\n\n").err().expect("a line of markers, then a blank line");
    assert_eq!(e.kind, ErrorKind::UnparseablePriority);
    assert_eq!(e.to_string(), "Cannot parse task priority");
    let e = parse("\n").err().expect("a blank line");
    assert_eq!(e.kind, ErrorKind::EmptyInput);
    let e = parse("\r\n").err().expect("a blank line");
    assert_eq!(e.kind, ErrorKind::EmptyInput);
}

#[test]
fn render_writes_one_line_per_task() {
    assert_eq!(render(&Vec::new()), "");
    let mut done = Task::new("two".to_string(), "p".to_string(), 'B');
    done.complete();
    let tasks = vec![Task::new("one".to_string(), String::new(), 'A'), done];
    assert_eq!(render(&tasks), "(A) one\nx (B) two +p\n");
}

#[test]
fn parse_gives_back_what_render_wrote() {
    let mut done = Task::new("two +p".to_string(), "p".to_string(), 'B');
    done.complete();
    let tasks = vec![
        Task::new("one".to_string(), String::new(), 'A'),
        done,
        Task::new(String::new(), String::new(), 'C'),
    ];
    let read = parse(&render(&tasks)).unwrap_or_else(|e| panic!("{}", e.to_string()));
    assert_eq!(read.len(), 3);
    for (a, b) in tasks.iter().zip(read.iter()) {
        assert_eq!(a.name, b.name);
        assert_eq!(a.project, b.project);
        assert_eq!(a.get_priority(), b.get_priority());
        assert_eq!(a.is_complete(), b.is_complete());
    }
}

#[test]
fn a_line_feed_in_a_name_does_not_read_back() {
    let tasks = vec![Task::new("one\n(B) two".to_string(), String::new(), 'A')];
    let read = parse(&render(&tasks)).unwrap_or_else(|e| panic!("{}", e.to_string()));
    assert_eq!(names(&read), vec!["one".to_string(), "two".to_string()]);
}

#[test]
fn remove_at_takes_one_task_or_none() {
    let mut tasks = parse("(A) one\n(B) two\n(C) three\n").unwrap_or_else(
        |e| panic!("{}", e.to_string()),
    );
    let e = remove_at(&mut tasks, 3).err().expect("index 3 of three tasks");
    assert_eq!(e.kind, ErrorKind::IndexOutOfRange);
    assert_eq!(e.to_string(), "Index out of range");
    assert_eq!(names(&tasks), vec!["one".to_string(), "two".to_string(), "three".to_string()]);
    assert!(remove_at(&mut tasks, 1).is_ok());
    assert_eq!(names(&tasks), vec!["one".to_string(), "three".to_string()]);
    assert!(remove_at(&mut tasks, 1).is_ok());
    assert!(remove_at(&mut tasks, 0).is_ok());
    assert!(tasks.is_empty());
    let e = remove_at(&mut tasks, 0).err().expect("index 0 of no task");
    assert_eq!(e.kind, ErrorKind::IndexOutOfRange);
}

#[test]
fn a_new_store_leaves_its_sink_alone() {
    let (sink, content) = shared("# kept\n(A) one\n");
    let store = TodoTxt::new(sink);
    assert_eq!(content.borrow().as_str(), "# kept\n(A) one\n");
    drop(store);
    assert_eq!(content.borrow().as_str(), "# kept\n(A) one\n");
}
