//! The store: a list of tasks kept in a sink of text, one task per line.
//!
//! Nothing is cached between operations. Each one reads the whole sink
//! first, and each change ends by writing the whole list back.

use crate::codec::{
    body, decode, encode, head, is_canonical, lemma_canonical_line, lemma_name_is_suffix,
    lemma_priority_is_in_line, lemma_priority_is_no_marker, lemma_project_occurs,
    lemma_round_trip, name_of,
};
use crate::task::{views, Task, TaskView};
use crate::text::{
    alphabetic, count_leading, leading, lemma_leading, lemma_leading_is, to_chars, trim_start,
    CharClass,
};
use crate::todo::{ErrorKind, Todo, TodoError};
use vstd::prelude::*;
use vstd::slice::slice_subrange;
use vstd::string::StringExecFns;

verus! {

/// `line` without the carriage return at its end, if it ends with one.
pub open spec fn without_return(line: Seq<char>) -> Seq<char> {
    if line.len() > 0 && line.last() == '\r' {
        line.drop_last()
    } else {
        line
    }
}

/// The lines of a text. A line feed ends a line, and a carriage return
/// right before that line feed goes with it. What follows the last line
/// feed is a line too, unless it is empty.
pub open spec fn lines(text: Seq<char>) -> Seq<Seq<char>>
    decreases text.len(),
{
    let n = leading(text, CharClass::Line) as int;
    if text.len() == 0 {
        Seq::empty()
    } else if n < text.len() {
        seq![without_return(text.take(n))] + lines(text.skip(n + 1))
    } else {
        seq![text]
    }
}

/// Whether a line is a comment, which the store passes over.
pub open spec fn is_comment(line: Seq<char>) -> bool {
    line.len() > 0 && line[0] == '#'
}

/// The tasks that lines stand for, in order, comments left out; or why the
/// first line that stands for no task does not.
pub open spec fn parsed_lines(ls: Seq<Seq<char>>) -> Result<Seq<TaskView>, ErrorKind>
    decreases ls.len(),
{
    if ls.len() == 0 {
        Ok(Seq::empty())
    } else if is_comment(ls[0]) {
        parsed_lines(ls.drop_first())
    } else {
        match decode(ls[0]) {
            Err(kind) => Err(kind),
            Ok(t) => match parsed_lines(ls.drop_first()) {
                Err(kind) => Err(kind),
                Ok(ts) => Ok(seq![t] + ts),
            },
        }
    }
}

/// The tasks that a text stands for.
pub open spec fn parsed(text: Seq<char>) -> Result<Seq<TaskView>, ErrorKind> {
    parsed_lines(lines(text))
}

/// The text that a list of tasks is written as: the line of each task, in
/// order, each followed by a line feed.
pub open spec fn rendered(tasks: Seq<TaskView>) -> Seq<char>
    decreases tasks.len(),
{
    if tasks.len() == 0 {
        Seq::empty()
    } else {
        encode(tasks[0]) + seq!['\n'] + rendered(tasks.drop_first())
    }
}

/// `front` before the tasks of `back`, where `back` has tasks.
spec fn after(front: Seq<TaskView>, back: Result<Seq<TaskView>, ErrorKind>) -> Result<
    Seq<TaskView>,
    ErrorKind,
> {
    match back {
        Ok(ts) => Ok(front + ts),
        Err(kind) => Err(kind),
    }
}

/// Reads the tasks of a text. The first line that stands for no task ends
/// the reading with its error; comments are passed over.
pub fn parse(text: &str) -> (r: Result<Vec<Task>, TodoError>)
    ensures
        match r {
            Ok(tasks) => parsed(text@) == Ok::<Seq<TaskView>, ErrorKind>(views(tasks@)),
            Err(e) => parsed(text@) == Err::<Seq<TaskView>, ErrorKind>(e.kind) && e.message@
                == e.kind.text(),
        },
{
    let chars = to_chars(text);
    let all = chars.as_slice();
    let len: usize = all.len();
    let mut tasks: Vec<Task> = Vec::new();
    let mut pos: usize = 0;
    assert(all@.skip(0) == all@);
    assert(after(views(tasks@), parsed(all@)) == parsed(all@)) by {
        match parsed(all@) {
            Ok(ts) => {
                assert(views(tasks@) + ts == ts);
            },
            Err(_) => {},
        }
    }
    while pos < len
        invariant
            len == all@.len(),
            all@ == text@,
            pos <= len,
            parsed(text@) == after(views(tasks@), parsed(all@.skip(pos as int))),
        decreases len - pos,
    {
        let ghost front = views(tasks@);
        let ghost here = all@.skip(pos as int);
        let rest = slice_subrange(all, pos, len);
        assert(rest@ == here);
        let n: usize = count_leading(rest, CharClass::Line);
        let mut line = slice_subrange(rest, 0, n);
        let mut next: usize = pos + n;
        if n < rest.len() {
            next = next + 1;
            if n > 0 && line[n - 1] == '\r' {
                line = slice_subrange(line, 0, n - 1);
            }
            assert(line@ == without_return(here.take(n as int)));
            assert(here.skip(n + 1) == all@.skip(next as int));
        } else {
            assert(line@ == here);
            assert(all@.skip(next as int).len() == 0);
        }
        let ghost there = all@.skip(next as int);
        assert(lines(here) == seq![line@] + lines(there));
        assert(lines(here)[0] == line@);
        assert(lines(here).drop_first() == lines(there));
        if !(line.len() > 0 && line[0] == '#') {
            let task = Task::from_chars(line)?;
            tasks.push(task);
            assert(views(tasks@) == front.push(task@));
            assert(after(front, parsed(here)) == after(views(tasks@), parsed(there))) by {
                match parsed(there) {
                    Ok(ts) => {
                        assert(front + (seq![task@] + ts) == front.push(task@) + ts);
                    },
                    Err(_) => {},
                }
            }
        }
        pos = next;
    }
    assert(parsed(all@.skip(pos as int)) == Ok::<Seq<TaskView>, ErrorKind>(Seq::empty()));
    assert(views(tasks@) + Seq::<TaskView>::empty() == views(tasks@));
    Ok(tasks)
}

/// Writes the text of a list of tasks.
pub fn render(tasks: &Vec<Task>) -> (text: String)
    ensures
        text@ == rendered(views(tasks@)),
{
    let ghost all = views(tasks@);
    let mut text = String::new();
    let mut i: usize = 0;
    assert(all.skip(0) == all);
    while i < tasks.len()
        invariant
            i <= tasks.len(),
            all == views(tasks@),
            text@ + rendered(all.skip(i as int)) == rendered(all),
        decreases tasks.len() - i,
    {
        let ghost here = all.skip(i as int);
        assert(here[0] == tasks[i as int]@);
        assert(here.drop_first() == all.skip(i + 1));
        let ghost before = text@;
        let line = tasks[i].to_string();
        text.append(line.as_str());
        text.push('\n');
        assert(text@ + rendered(all.skip(i + 1)) == before + rendered(here));
        i += 1;
    }
    assert(text@ + Seq::<char>::empty() == text@);
    text
}

/// Removes the task at `index` from `tasks`. An index past the end is
/// refused, and the list is then left as it was.
pub fn remove_at(tasks: &mut Vec<Task>, index: usize) -> (r: Result<(), TodoError>)
    ensures
        match r {
            Ok(()) => index < old(tasks)@.len() && final(tasks)@ == old(tasks)@.remove(
                index as int,
            ),
            Err(e) => index >= old(tasks)@.len() && final(tasks)@ == old(tasks)@ && e.kind
                == ErrorKind::IndexOutOfRange && e.message@ == e.kind.text(),
        },
{
    if index >= tasks.len() {
        return Err(TodoError::of_kind(ErrorKind::IndexOutOfRange));
    }
    tasks.remove(index);
    Ok(())
}

/// A sink of text: what a store keeps its list in. The store neither opens
/// nor closes it.
///
/// The store takes a sink at its word. It expects a read to hand over the
/// whole text of the sink, and a write that follows a rewind to leave the
/// sink holding the text written and nothing more; it can check neither,
/// and its contracts speak only of the text that the sink handed over and of
/// the text that the sink accepted.
pub trait TodotxtIO {
    /// Reads the whole text.
    fn read_to_string(&mut self) -> Result<String, TodoError>;

    /// Goes back to the start of the sink.
    fn rewind(&mut self) -> Result<(), TodoError>;

    /// Writes `text` from where the sink stands, and ends the sink there.
    fn write_all(&mut self, text: &str) -> Result<(), TodoError>;

    /// Commits what was written.
    fn flush(&mut self) -> Result<(), TodoError>;
}

/// A list of tasks kept in a sink, with the list as it was last read or
/// changed.
pub struct TodoTxt<IO: TodotxtIO> {
    io: IO,
    tasks: Vec<Task>,
    read: Ghost<Seq<char>>,
    written: Ghost<Seq<char>>,
}

/// The failure that the store reports for a failure of its sink.
fn sink_failure(cause: TodoError) -> (e: TodoError)
    ensures
        e.kind == ErrorKind::IOFailure,
        e.message@ == cause.message@,
{
    TodoError::new(cause.message.as_str())
}

impl<IO: TodotxtIO> TodoTxt<IO> {
    /// The sink of the store.
    pub closed spec fn sink(&self) -> IO {
        self.io
    }

    /// The list in memory.
    pub closed spec fn tasks(&self) -> Seq<TaskView> {
        views(self.tasks@)
    }

    /// The text that the sink last handed over to the store.
    pub closed spec fn text_read(&self) -> Seq<char> {
        self.read@
    }

    /// The text that the sink last accepted from the store.
    pub closed spec fn text_written(&self) -> Seq<char> {
        self.written@
    }

    /// Whether `self` is what a failed load leaves of `before`: no task in
    /// memory, and nothing written. Either the sink failed to hand over its
    /// text, or the first line of the text that stands for no task gave the
    /// error.
    pub open spec fn is_failed_load(&self, before: &Self, e: TodoError) -> bool {
        &&& self.tasks().len() == 0
        &&& self.text_written() == before.text_written()
        &&& if e.kind == ErrorKind::IOFailure {
            self.text_read() == before.text_read()
        } else {
            &&& parsed(self.text_read()) == Err::<Seq<TaskView>, ErrorKind>(e.kind)
            &&& e.message@ == e.kind.text()
        }
    }

    /// Whether `self` is what a failed save leaves of `before`: the list in
    /// memory as it was, and a failure of the sink as the error. Where the
    /// sink accepted a text before it failed, that was the text of the list.
    pub open spec fn is_failed_save(&self, before: &Self, e: TodoError) -> bool {
        &&& e.kind == ErrorKind::IOFailure
        &&& self.tasks() == before.tasks()
        &&& self.text_read() == before.text_read()
        &&& self.text_written() == before.text_written() || self.text_written() == rendered(
            before.tasks(),
        )
    }

    /// A store on `io`. The sink is taken as it is given: nothing is read
    /// from it or written to it yet, and no task is in memory.
    pub fn new(io: IO) -> (store: Self)
        ensures
            store.sink() == io,
            store.tasks().len() == 0,
            store.text_read() == Seq::<char>::empty(),
            store.text_written() == Seq::<char>::empty(),
    {
        TodoTxt { io, tasks: Vec::new(), read: Ghost(Seq::empty()), written: Ghost(Seq::empty()) }
    }

    /// Reads the sink and makes the tasks of its text the list in memory,
    /// whatever was there before. Where the sink fails or a line stands for
    /// no task, nothing is left in memory.
    pub fn load(&mut self) -> (r: Result<(), TodoError>)
        ensures
            match r {
                Ok(()) => {
                    &&& parsed(final(self).text_read()) == Ok::<Seq<TaskView>, ErrorKind>(
                        final(self).tasks(),
                    )
                    &&& final(self).text_written() == old(self).text_written()
                },
                Err(e) => final(self).is_failed_load(old(self), e),
            },
    {
        self.tasks = Vec::new();
        let text = match self.io.read_to_string() {
            Ok(text) => text,
            Err(cause) => {
                return Err(sink_failure(cause));
            },
        };
        self.read = Ghost(text@);
        proof {
            lemma_parse_errors(text@);
        }
        self.tasks = parse(text.as_str())?;
        Ok(())
    }

    /// Writes the list in memory over the whole sink: rewinds it, writes
    /// the text of the list, and flushes.
    pub fn save(&mut self) -> (r: Result<(), TodoError>)
        ensures
            match r {
                Ok(()) => {
                    &&& final(self).text_written() == rendered(old(self).tasks())
                    &&& final(self).tasks() == old(self).tasks()
                    &&& final(self).text_read() == old(self).text_read()
                },
                Err(e) => final(self).is_failed_save(old(self), e),
            },
    {
        let text = render(&self.tasks);
        if let Err(cause) = self.io.rewind() {
            return Err(sink_failure(cause));
        }
        if let Err(cause) = self.io.write_all(text.as_str()) {
            return Err(sink_failure(cause));
        }
        self.written = Ghost(text@);
        if let Err(cause) = self.io.flush() {
            return Err(sink_failure(cause));
        }
        Ok(())
    }
}

impl<IO: TodotxtIO> Todo for TodoTxt<IO> {
    type Err = TodoError;

    /// Reads the sink, appends `task` to what it held, and writes the list
    /// back.
    fn add(&mut self, task: Task) -> (r: Result<(), TodoError>)
        ensures
            match r {
                Ok(()) => {
                    &&& parsed(final(self).text_read()) matches Ok(held)
                    &&& final(self).tasks() == held.push(task@)
                    &&& final(self).text_written() == rendered(held.push(task@))
                },
                Err(e) => {
                    ||| final(self).is_failed_load(old(self), e)
                    ||| {
                        &&& parsed(final(self).text_read()) matches Ok(held)
                        &&& final(self).tasks() == held.push(task@)
                        &&& e.kind == ErrorKind::IOFailure
                        &&& final(self).text_written() == old(self).text_written()
                            || final(self).text_written() == rendered(held.push(task@))
                    }
                },
            },
    {
        self.load()?;
        let ghost held = self.tasks();
        let ghost view = task@;
        self.tasks.push(task);
        assert(self.tasks() == held.push(view));
        self.save()?;
        Ok(())
    }

    /// Reads the sink, removes the task at `index` from what it held, and
    /// writes the list back. An index past the end is refused, and nothing
    /// is then written.
    fn remove(&mut self, index: usize) -> (r: Result<(), TodoError>)
        ensures
            match r {
                Ok(()) => {
                    &&& parsed(final(self).text_read()) matches Ok(held)
                    &&& index < held.len()
                    &&& final(self).tasks() == held.remove(index as int)
                    &&& final(self).text_written() == rendered(held.remove(index as int))
                },
                Err(e) => {
                    ||| final(self).is_failed_load(old(self), e)
                    ||| {
                        &&& parsed(final(self).text_read()) matches Ok(held)
                        &&& if index < held.len() {
                            &&& final(self).tasks() == held.remove(index as int)
                            &&& e.kind == ErrorKind::IOFailure
                            &&& final(self).text_written() == old(self).text_written()
                                || final(self).text_written() == rendered(
                                held.remove(index as int),
                            )
                        } else {
                            &&& final(self).tasks() == held
                            &&& e.kind == ErrorKind::IndexOutOfRange
                            &&& e.message@ == e.kind.text()
                            &&& final(self).text_written() == old(self).text_written()
                        }
                    }
                },
            },
    {
        self.load()?;
        let ghost held = self.tasks();
        remove_at(&mut self.tasks, index)?;
        assert(self.tasks() == held.remove(index as int));
        self.save()?;
        Ok(())
    }

    /// Reads the sink and hands out a copy of what it held.
    fn list(&mut self) -> (r: Result<Vec<Task>, TodoError>)
        ensures
            match r {
                Ok(tasks) => {
                    &&& parsed(final(self).text_read()) == Ok::<Seq<TaskView>, ErrorKind>(
                        views(tasks@),
                    )
                    &&& final(self).tasks() == views(tasks@)
                    &&& final(self).text_written() == old(self).text_written()
                },
                Err(e) => final(self).is_failed_load(old(self), e),
            },
    {
        self.load()?;
        let tasks = self.tasks.clone();
        assert(tasks@ == self.tasks@);
        Ok(tasks)
    }
}

/// Whether a task can be kept in a sink as it is: it is canonical, no line
/// feed stands in its name, and no carriage return ends its name.
pub open spec fn is_storable(t: TaskView) -> bool {
    &&& is_canonical(t)
    &&& (forall|i: int| 0 <= i < t.name.len() ==> t.name[i] != '\n')
    &&& (t.name.len() > 0 ==> t.name.last() != '\r')
}

/// A text that begins with a line and its line feed has that line first,
/// and then the lines of what follows, provided that the line holds no line
/// feed and ends with no carriage return.
pub proof fn lemma_lines_after_line(line: Seq<char>, rest: Seq<char>)
    requires
        forall|i: int| 0 <= i < line.len() ==> line[i] != '\n',
        line.len() > 0 ==> line.last() != '\r',
    ensures
        lines(line + seq!['\n'] + rest) == seq![line] + lines(rest),
{
    let text = line + seq!['\n'] + rest;
    let n = line.len() as int;
    assert forall|i: int| 0 <= i < n implies CharClass::Line.has(#[trigger] text[i]) by {
        assert(text[i] == line[i]);
    }
    assert(text[n] == '\n');
    lemma_leading_is(text, CharClass::Line, n);
    assert(text.take(n) == line);
    assert(text.skip(n + 1) == rest);
}

/// A text fails to parse only for an empty line or for a line without a
/// priority.
pub proof fn lemma_parse_errors(text: Seq<char>)
    ensures
        parsed(text) matches Err(kind) ==> kind == ErrorKind::EmptyInput || kind
            == ErrorKind::UnparseablePriority,
{
    lemma_parsed_lines_errors(lines(text));
}

proof fn lemma_parsed_lines_errors(ls: Seq<Seq<char>>)
    ensures
        parsed_lines(ls) matches Err(kind) ==> kind == ErrorKind::EmptyInput || kind
            == ErrorKind::UnparseablePriority,
    decreases ls.len(),
{
    if ls.len() > 0 {
        lemma_parsed_lines_errors(ls.drop_first());
    }
}

/// An empty text holds no task, and is the text of no task.
pub proof fn lemma_parse_empty()
    ensures
        parsed(Seq::empty()) == Ok::<Seq<TaskView>, ErrorKind>(Seq::empty()),
        rendered(Seq::empty()) == Seq::<char>::empty(),
{
}

/// A list of storable tasks, written as text and read back, is the list it
/// was.
pub proof fn lemma_parse_render(tasks: Seq<TaskView>)
    requires
        forall|i: int| 0 <= i < tasks.len() ==> is_storable(#[trigger] tasks[i]),
    ensures
        parsed(rendered(tasks)) == Ok::<Seq<TaskView>, ErrorKind>(tasks),
    decreases tasks.len(),
{
    if tasks.len() > 0 {
        let t = tasks[0];
        let others = tasks.drop_first();
        let line = encode(t);
        let h = head(t.priority, t.completed);
        lemma_canonical_line(t);
        assert(!CharClass::Alphabetic.has('\n'));
        assert forall|i: int| 0 <= i < line.len() implies line[i] != '\n' by {
            if i >= h.len() {
                assert(line[i] == t.name[i - h.len()]);
            }
        }
        assert(line.last() != '\r') by {
            if t.name.len() > 0 {
                assert(line.last() == t.name.last());
            }
        }
        assert(!is_comment(line));
        lemma_lines_after_line(line, rendered(others));
        lemma_round_trip(t);
        assert forall|i: int| 0 <= i < others.len() implies is_storable(#[trigger] others[i]) by {
            assert(others[i] == tasks[i + 1]);
        }
        lemma_parse_render(others);
        let ls = lines(rendered(tasks));
        assert(ls[0] == line);
        assert(ls.drop_first() == lines(rendered(others)));
        assert(seq![t] + others == tasks);
    } else {
        assert(tasks == Seq::<TaskView>::empty());
    }
}

/// The text of one task begins with a line that begins the line of the
/// task, holds no line feed, and is read as the task where the text is.
proof fn lemma_first_line(t: TaskView) -> (first: Seq<char>)
    requires
        parsed(rendered(seq![t])) == Ok::<Seq<TaskView>, ErrorKind>(seq![t]),
    ensures
        first == without_return(
            (encode(t) + seq!['\n']).take(leading(encode(t) + seq!['\n'], CharClass::Line) as int),
        ),
        leading(encode(t) + seq!['\n'], CharClass::Line) <= encode(t).len(),
        1 <= first.len() <= encode(t).len(),
        forall|i: int| 0 <= i < first.len() ==> first[i] == encode(t)[i] && first[i] != '\n',
        decode(first) == Ok::<TaskView, ErrorKind>(t),
{
    let line = encode(t);
    let text = rendered(seq![t]);
    let h = head(t.priority, t.completed);
    assert(rendered(seq![t].drop_first()) == Seq::<char>::empty());
    assert(text == line + seq!['\n']);
    assert(line.len() == h.len() + body(t).len());
    assert(line[0] == h[0]);
    lemma_leading(text, CharClass::Line);
    let n = leading(text, CharClass::Line) as int;
    assert(n <= line.len()) by {
        assert(text[line.len() as int] == '\n');
    }
    assert(n >= 1) by {
        assert(text[0] == line[0]);
    }
    let cut = text.take(n);
    let first = without_return(cut);
    assert(cut[0] == line[0]);
    assert(first.len() >= 1 && first[0] == line[0]);
    assert forall|i: int| 0 <= i < first.len() implies first[i] == line[i] && first[i] != '\n' by {
        assert(cut[i] == text[i]);
        assert(CharClass::Line.has(text[i]));
    }
    let ls = lines(text);
    assert(ls == seq![first] + lines(text.skip(n + 1)));
    assert(ls[0] == first);
    assert(!is_comment(first));
    let others = parsed_lines(ls.drop_first())->Ok_0;
    assert((seq![decode(first)->Ok_0] + others)[0] == t);
    first
}

/// A line that is read as a task and holds no line feed has none in the
/// name and the priority of the task, and the task is written as its head
/// and its name.
proof fn lemma_line_of_what_is_read(first: Seq<char>, t: TaskView)
    requires
        decode(first) == Ok::<TaskView, ErrorKind>(t),
        forall|i: int| 0 <= i < first.len() ==> first[i] != '\n',
    ensures
        forall|i: int| 0 <= i < t.name.len() ==> t.name[i] != '\n',
        t.priority != '\n',
        !CharClass::Marker.has(t.priority),
        encode(t) == head(t.priority, t.completed) + t.name,
{
    lemma_name_is_suffix(first);
    let off = first.len() - t.name.len();
    assert forall|i: int| 0 <= i < t.name.len() implies t.name[i] != '\n' by {
        assert(t.name[i] == first[off + i]);
    }
    lemma_priority_is_in_line(first);
    lemma_priority_is_no_marker(first);
    if t.project.len() > 0 {
        lemma_project_occurs(t.name, true);
    }
    assert(body(t) == t.name);
}

/// A head and a name without the last character of the name are not read
/// as a task of that name.
proof fn lemma_cut_name(t: TaskView)
    requires
        t.name.len() > 0,
        !CharClass::Marker.has(t.priority),
    ensures
        name_of(head(t.priority, t.completed) + t.name.drop_last()).len() != t.name.len(),
{
    let first = head(t.priority, t.completed) + t.name.drop_last();
    let k: int = if t.completed {
        3
    } else {
        1
    };
    assert(first.len() == k + 2 + t.name.len());
    assert(first[k] == t.priority && first[k + 1] == ')' && first[k + 2] == ' ');
    lemma_leading_is(first, CharClass::Marker, k);
    let rest = trim_start(first, CharClass::Marker);
    assert(rest[0] == t.priority && rest[1] == ')' && rest[2] == ' ');
    if alphabetic(t.priority) {
        lemma_leading_is(rest, CharClass::Alphabetic, 1);
        let after = trim_start(rest, CharClass::Alphabetic);
        assert(after[0] == ')' && after[1] == ' ');
        lemma_leading(after, CharClass::Marker);
        assert(leading(after, CharClass::Marker) >= 2);
    } else {
        lemma_leading_is(rest, CharClass::Alphabetic, 0);
        assert(trim_start(rest, CharClass::Alphabetic) == rest);
        lemma_leading_is(rest, CharClass::Marker, 0);
    }
}

/// Only a storable task, written alone as a text, is read back as itself.
proof fn lemma_only_storable_reads_back(t: TaskView)
    requires
        parsed(rendered(seq![t])) == Ok::<Seq<TaskView>, ErrorKind>(seq![t]),
    ensures
        is_storable(t),
{
    let line = encode(t);
    let text = line + seq!['\n'];
    let h = head(t.priority, t.completed);
    let first = lemma_first_line(t);
    lemma_line_of_what_is_read(first, t);
    // The first line is the whole line, but for a carriage return at its
    // end.
    assert forall|i: int| 0 <= i < line.len() implies CharClass::Line.has(#[trigger] text[i]) by {
        if i >= h.len() {
            assert(text[i] == t.name[i - h.len()]);
        }
    }
    lemma_leading_is(text, CharClass::Line, line.len() as int);
    assert(text.take(line.len() as int) == line);
    if line.last() == '\r' {
        assert(t.name.len() > 0);
        assert(first == h + t.name.drop_last());
        lemma_cut_name(t);
        assert(false);
    }
    assert(first == line);
    lemma_round_trip(t);
    if t.name.len() > 0 {
        assert(line.last() == t.name.last());
    }
}

/// A task added to an empty sink is, alone, what the sink then lists
/// exactly if the task is storable: the text that `add` writes for a sink
/// that held nothing is then a text that `list` reads as the one task.
pub proof fn lemma_add_then_list(t: TaskView)
    ensures
        parsed(Seq::empty()) matches Ok(held) && (is_storable(t) <==> parsed(
            rendered(held.push(t)),
        ) == Ok::<Seq<TaskView>, ErrorKind>(seq![t])),
{
    let held = Seq::<TaskView>::empty();
    assert(held.push(t) == seq![t]);
    if is_storable(t) {
        lemma_parse_render(seq![t]);
    }
    if parsed(rendered(seq![t])) == Ok::<Seq<TaskView>, ErrorKind>(seq![t]) {
        lemma_only_storable_reads_back(t);
    }
}

/// The text of a list that holds a task is not read as an empty list.
pub proof fn lemma_render_holds_a_task(tasks: Seq<TaskView>)
    requires
        tasks.len() > 0,
    ensures
        parsed(rendered(tasks)) matches Ok(read) ==> read.len() > 0,
{
    let t = tasks[0];
    let line = encode(t);
    let text = rendered(tasks);
    let h = head(t.priority, t.completed);
    assert(line.len() == h.len() + body(t).len());
    assert(text[0] == h[0]) by {
        assert(line[0] == h[0]);
    }
    assert(text[line.len() as int] == '\n');
    lemma_leading(text, CharClass::Line);
    let n = leading(text, CharClass::Line) as int;
    let cut = text.take(n);
    let first = without_return(cut);
    assert(cut[0] == text[0]);
    assert(first[0] == text[0]);
    let ls = lines(text);
    assert(ls == seq![first] + lines(text.skip(n + 1)));
    assert(ls[0] == first);
    assert(!is_comment(first));
}

/// A task added to an empty sink leaves, once the task at index 0 is
/// removed, a sink that lists nothing exactly if the task read back as one
/// task: the text that `remove` then writes is a text that `list` reads as
/// no task. A storable task reads back as one task.
pub proof fn lemma_add_remove_list(t: TaskView)
    ensures
        parsed(Seq::empty()) matches Ok(none) && ((parsed(rendered(none.push(t))) matches Ok(held)
            && held.len() == 1) <==> (parsed(rendered(none.push(t))) matches Ok(held) && 0
            < held.len() && parsed(rendered(held.remove(0))) == Ok::<Seq<TaskView>, ErrorKind>(
            Seq::empty(),
        ))),
        is_storable(t) ==> (parsed(rendered(seq![t])) matches Ok(held) && held.len() == 1),
{
    let none = Seq::<TaskView>::empty();
    assert(none.push(t) == seq![t]);
    if parsed(rendered(seq![t])) is Ok {
        let held = parsed(rendered(seq![t]))->Ok_0;
        let left = held.remove(0);
        if held.len() == 1 {
            assert(left == Seq::<TaskView>::empty());
        } else if held.len() > 1 {
            lemma_render_holds_a_task(left);
        }
    }
    if is_storable(t) {
        lemma_parse_render(seq![t]);
    }
}

} // verus!
