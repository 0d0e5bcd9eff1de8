//! The line format: what a line of text says of a task, and the line that a
//! task is written as.
//!
//! A line reads `[x ](P) name[ +project]`. Reading is done by trimming runs
//! of characters, not by a grammar, and the project tag stays in the name it
//! was found in.

use crate::task::TaskView;
use crate::text::{
    alphabetic, contains_slice, count_leading, has_substring, leading, lemma_leading,
    lemma_leading_is, lemma_trailing, occurs_at, skip_leading, skip_trailing, to_chars, trim,
    trim_end, trim_start, CharClass,
};
use crate::todo::ErrorKind;
use vstd::prelude::*;
use vstd::slice::slice_subrange;
use vstd::string::StringExecFns;

verus! {

/// The priority that a line gives: the first character that is left once
/// the markers are trimmed from both ends, if any is left.
pub open spec fn priority_of(line: Seq<char>) -> Option<char> {
    let core = trim(line, CharClass::Marker);
    if core.len() == 0 {
        None
    } else {
        Some(core[0])
    }
}

/// The name that a line gives: what follows its leading markers, the run of
/// alphabetic characters behind them, and the markers behind that run.
pub open spec fn name_of(line: Seq<char>) -> Seq<char> {
    trim_start(
        trim_start(trim_start(line, CharClass::Marker), CharClass::Alphabetic),
        CharClass::Marker,
    )
}

/// The project tag in `s`, where `at_start` says whether `s` begins at the
/// start of a word: the first word that begins with `+`, without its
/// leading run of `+`; empty where no word begins with `+`.
pub open spec fn project_from(s: Seq<char>, at_start: bool) -> Seq<char>
    decreases s.len(),
{
    if s.len() == 0 {
        Seq::empty()
    } else if CharClass::Whitespace.has(s[0]) {
        project_from(s.drop_first(), true)
    } else if at_start && s[0] == '+' {
        trim_start(s.take(leading(s, CharClass::Word) as int), CharClass::Plus)
    } else {
        project_from(s.drop_first(), false)
    }
}

/// The project tag that a name gives: its first word that begins with `+`,
/// without its leading run of `+`. Words are what whitespace separates.
pub open spec fn project_of(name: Seq<char>) -> Seq<char> {
    project_from(name, true)
}

/// What a line says: the task it stands for, or why it stands for none.
pub open spec fn decode(line: Seq<char>) -> Result<TaskView, ErrorKind> {
    if line.len() == 0 {
        Err(ErrorKind::EmptyInput)
    } else {
        match priority_of(line) {
            None => Err(ErrorKind::UnparseablePriority),
            Some(priority) => Ok(
                TaskView {
                    name: name_of(line),
                    project: project_of(name_of(line)),
                    priority: priority,
                    completed: line[0] == 'x',
                },
            ),
        }
    }
}

/// What a line begins with: the completion marker of a task that is done,
/// then the priority in parentheses and a space.
pub open spec fn head(priority: char, completed: bool) -> Seq<char> {
    if completed {
        seq!['x', ' ', '(', priority, ')', ' ']
    } else {
        seq!['(', priority, ')', ' ']
    }
}

/// The project tag as a word.
pub open spec fn tag(project: Seq<char>) -> Seq<char> {
    seq!['+'] + project
}

/// What a line ends with: the project tag behind a space, unless the task
/// has no project or its name already holds the tag.
pub open spec fn project_suffix(name: Seq<char>, project: Seq<char>) -> Seq<char> {
    if project.len() > 0 && !has_substring(name, tag(project)) {
        seq![' '] + tag(project)
    } else {
        Seq::empty()
    }
}

/// What follows the head of a task's line: the name, and the project tag
/// where the name does not hold it.
pub open spec fn body(t: TaskView) -> Seq<char> {
    t.name + project_suffix(t.name, t.project)
}

/// The line that a task is written as.
pub open spec fn encode(t: TaskView) -> Seq<char> {
    head(t.priority, t.completed) + body(t)
}

/// Reads the priority of a line.
pub fn find_priority(line: &[char]) -> (r: Option<char>)
    ensures
        r == priority_of(line@),
{
    let core = skip_trailing(skip_leading(line, CharClass::Marker), CharClass::Marker);
    if core.len() == 0 {
        None
    } else {
        Some(core[0])
    }
}

/// Reads the name of a line.
pub fn find_name<'a>(line: &'a [char]) -> (r: &'a [char])
    ensures
        r@ == name_of(line@),
{
    let rest = skip_leading(line, CharClass::Marker);
    let rest = skip_leading(rest, CharClass::Alphabetic);
    skip_leading(rest, CharClass::Marker)
}

/// Reads the project tag of a name.
pub fn find_project<'a>(name: &'a [char]) -> (r: &'a [char])
    ensures
        r@ == project_of(name@),
{
    let len: usize = name.len();
    let mut i: usize = 0;
    let mut at_start = true;
    assert(name@.skip(0) == name@);
    while i < len
        invariant
            len == name@.len(),
            i <= len,
            project_from(name@.skip(i as int), at_start) == project_of(name@),
        decreases len - i,
    {
        let ghost rest = name@.skip(i as int);
        assert(rest.drop_first() == name@.skip(i + 1));
        assert(rest[0] == name@[i as int]);
        let c = name[i];
        if CharClass::Whitespace.contains(c) {
            at_start = true;
        } else if at_start && c == '+' {
            let tail = slice_subrange(name, i, len);
            assert(tail@ == rest);
            let n: usize = count_leading(tail, CharClass::Word);
            let word = slice_subrange(tail, 0, n);
            assert(word@ == rest.take(n as int));
            return skip_leading(word, CharClass::Plus);
        } else {
            at_start = false;
        }
        i += 1;
    }
    assert(name@.skip(len as int).len() == 0);
    slice_subrange(name, len, len)
}

/// Whether `name` holds the tag of `project`.
pub fn holds_tag(name: &str, project: &str) -> (b: bool)
    ensures
        b == has_substring(name@, tag(project@)),
{
    let hay = to_chars(name);
    let mut needle: Vec<char> = Vec::new();
    needle.push('+');
    let mut rest = to_chars(project);
    needle.append(&mut rest);
    assert(needle@ == tag(project@));
    contains_slice(hay.as_slice(), needle.as_slice())
}

/// Writes the line of the task that has these fields.
pub fn encode_fields(name: &str, project: &str, priority: char, completed: bool) -> (line: String)
    ensures
        line@ == encode(
            TaskView { name: name@, project: project@, priority: priority, completed: completed },
        ),
{
    let mut line = String::new();
    if completed {
        line.push('x');
        line.push(' ');
    }
    line.push('(');
    line.push(priority);
    line.push(')');
    line.push(' ');
    assert(line@ == head(priority, completed));
    line.append(name);
    if !project.is_empty() && !holds_tag(name, project) {
        line.push(' ');
        line.push('+');
        line.append(project);
        assert(line@ == head(priority, completed) + (name@ + (seq![' '] + tag(project@))));
    } else {
        assert(line@ == head(priority, completed) + (name@ + Seq::<char>::empty()));
    }
    line
}

/// Whether a line that is made of a head with this priority and of `text`
/// gives both back: the priority is an alphabetic character and no marker,
/// and no marker begins the text.
pub open spec fn reads_back(priority: char, text: Seq<char>) -> bool {
    &&& !CharClass::Marker.has(priority)
    &&& alphabetic(priority)
    &&& text.len() > 0 ==> !CharClass::Marker.has(text[0])
}

/// Whether a task is what its own line says: the line gives its priority
/// and its name back, and its project is the tag that its name holds.
pub open spec fn is_canonical(t: TaskView) -> bool {
    &&& reads_back(t.priority, t.name)
    &&& t.project == project_of(t.name)
}

/// The shape of a line: `k` markers, the priority, a parenthesis, a space,
/// and the body.
proof fn lemma_line_shape(t: TaskView) -> (k: int)
    ensures
        k == if t.completed {
            3int
        } else {
            1int
        },
        encode(t).len() == k + 3 + body(t).len(),
        forall|i: int| 0 <= i < k ==> CharClass::Marker.has(#[trigger] encode(t)[i]),
        encode(t)[k] == t.priority,
        encode(t).skip(k) == seq![t.priority, ')', ' '] + body(t),
        encode(t)[0] == 'x' <==> t.completed,
{
    let k: int = if t.completed {
        3
    } else {
        1
    };
    let line = encode(t);
    assert(head(t.priority, t.completed).len() == k + 3);
    assert(line[0] == 'x' <==> t.completed);
    assert(line.skip(k) == seq![t.priority, ')', ' '] + body(t));
    k
}

/// The name that a line gives is the end of the line.
pub proof fn lemma_name_is_suffix(line: Seq<char>)
    ensures
        name_of(line).len() <= line.len(),
        name_of(line) == line.skip(line.len() - name_of(line).len()),
{
    let a = trim_start(line, CharClass::Marker);
    let b = trim_start(a, CharClass::Alphabetic);
    lemma_leading(line, CharClass::Marker);
    lemma_leading(a, CharClass::Alphabetic);
    lemma_leading(b, CharClass::Marker);
}

/// The priority that a line gives is a character of the line.
pub proof fn lemma_priority_is_in_line(line: Seq<char>)
    ensures
        priority_of(line) matches Some(c) ==> leading(line, CharClass::Marker) < line.len() && c
            == line[leading(line, CharClass::Marker) as int],
{
    let rest = trim_start(line, CharClass::Marker);
    lemma_leading(line, CharClass::Marker);
    lemma_trailing(rest, CharClass::Marker);
    let core = trim_end(rest, CharClass::Marker);
    if core.len() > 0 {
        assert(core[0] == rest[0]);
    }
}

/// The priority that a line gives is no marker.
pub proof fn lemma_priority_is_no_marker(line: Seq<char>)
    ensures
        priority_of(line) matches Some(c) ==> !CharClass::Marker.has(c),
{
    let rest = trim_start(line, CharClass::Marker);
    lemma_leading(line, CharClass::Marker);
    lemma_trailing(rest, CharClass::Marker);
    let core = trim_end(rest, CharClass::Marker);
    if core.len() > 0 {
        assert(core[0] == rest[0]);
        assert(rest[0] == line[leading(line, CharClass::Marker) as int]);
    }
}

/// What the line of a task reads as, where it gives the priority and the
/// body back: a task of the same priority and completion, whose name is the
/// whole body, project tag included.
pub proof fn lemma_decode_encode(t: TaskView)
    requires
        reads_back(t.priority, body(t)),
    ensures
        decode(encode(t)) == Ok::<TaskView, ErrorKind>(
            TaskView {
                name: body(t),
                project: project_of(body(t)),
                priority: t.priority,
                completed: t.completed,
            },
        ),
{
    let line = encode(t);
    let b = body(t);
    let k = lemma_line_shape(t);
    lemma_leading_is(line, CharClass::Marker, k);
    let rest = trim_start(line, CharClass::Marker);
    assert(rest == seq![t.priority, ')', ' '] + b);
    // The priority stays first when the markers at the end are trimmed.
    lemma_trailing(rest, CharClass::Marker);
    let core = trim_end(rest, CharClass::Marker);
    assert(core.len() > 0 && core[0] == t.priority) by {
        assert(rest[0] == t.priority);
    }
    // The priority is the whole alphabetic run, and the body begins after
    // the parenthesis and the space.
    assert(rest[1] == ')');
    lemma_leading_is(rest, CharClass::Alphabetic, 1);
    let after = trim_start(rest, CharClass::Alphabetic);
    assert(after == seq![')', ' '] + b);
    if b.len() > 0 {
        assert(after[2] == b[0]);
    }
    lemma_leading_is(after, CharClass::Marker, 2);
    assert(trim_start(after, CharClass::Marker) == b);
}

/// Where the line of a task gives the priority and the name of the task
/// back, the line gives back what stands behind its head, and the name is
/// all that stands there.
proof fn lemma_only_what_reads_back(t: TaskView)
    requires
        decode(encode(t)) matches Ok(d) && d.name == t.name && d.priority == t.priority,
    ensures
        reads_back(t.priority, t.name),
        body(t) == t.name,
{
    let line = encode(t);
    let b = body(t);
    let suffix = project_suffix(t.name, t.project);
    let k = lemma_line_shape(t);
    lemma_priority_is_no_marker(line);
    lemma_leading_is(line, CharClass::Marker, k);
    let rest = trim_start(line, CharClass::Marker);
    assert(rest == seq![t.priority, ')', ' '] + b);
    assert(rest[0] == t.priority);
    if !alphabetic(t.priority) {
        lemma_leading_is(rest, CharClass::Alphabetic, 0);
        assert(trim_start(rest, CharClass::Alphabetic) == rest);
        lemma_leading_is(rest, CharClass::Marker, 0);
        assert(name_of(line) == rest);
        assert(false);
    }
    assert(rest[1] == ')');
    lemma_leading_is(rest, CharClass::Alphabetic, 1);
    let after = trim_start(rest, CharClass::Alphabetic);
    assert(after == seq![')', ' '] + b);
    assert(after[0] == ')' && after[1] == ' ');
    // The name that is read is what follows the markers that begin `after`.
    // It is as long as the name, so these markers end where the name
    // would begin if the suffix stood before it.
    lemma_leading(after, CharClass::Marker);
    let j = leading(after, CharClass::Marker) as int;
    assert(name_of(line) == after.skip(j));
    assert(j == 2 + suffix.len());
    if suffix.len() > 0 {
        // The `+` of the suffix is no marker, so it stands in what is read,
        // and what is read then ends with the tag.
        let p = t.project;
        let n = t.name.len() as int;
        assert(suffix == seq![' '] + tag(p));
        assert(after[3 + n] == '+') by {
            assert(after[3 + n] == b[1 + n]);
            assert(b[1 + n] == suffix[1]);
        }
        assert(3 + n >= j);
        let at = n - 1 - p.len();
        assert(t.name.subrange(at, at + tag(p).len()) == tag(p)) by {
            assert forall|i: int| 0 <= i < tag(p).len() implies t.name[at + i] == tag(p)[i] by {
                assert(t.name[at + i] == after.skip(j)[at + i]);
                assert(after[j + at + i] == b[j + at + i - 2]);
                assert(b[j + at + i - 2] == suffix[i + 1]);
            }
        }
        assert(occurs_at(t.name, tag(p), at));
        assert(false);
    }
    assert(b == t.name);
    if t.name.len() > 0 {
        assert(after[2] == t.name[0]);
    }
}

/// A task without a project, written as a line and read back, has the name,
/// the priority and the completion it had exactly if its priority is an
/// alphabetic character and no marker and no marker begins its name.
pub proof fn lemma_round_trip_without_project(t: TaskView)
    requires
        t.project.len() == 0,
    ensures
        reads_back(t.priority, t.name) <==> (decode(encode(t)) matches Ok(d) && d.name == t.name
            && d.priority == t.priority && d.completed == t.completed),
{
    assert(body(t) == t.name);
    if reads_back(t.priority, t.name) {
        lemma_decode_encode(t);
    }
    if decode(encode(t)) matches Ok(d) && d.name == t.name && d.priority == t.priority {
        lemma_only_what_reads_back(t);
    }
}

/// Whether a word that begins with `+` begins at index `i` of `s`, where
/// `at_start` says whether `s` itself begins at the start of a word.
pub open spec fn begins_tag(s: Seq<char>, at_start: bool, i: int) -> bool {
    &&& 0 <= i < s.len()
    &&& s[i] == '+'
    &&& if i == 0 {
        at_start
    } else {
        CharClass::Whitespace.has(s[i - 1])
    }
}

/// The word of `s` that begins at index `i`: what stands from there up to
/// the next whitespace.
pub open spec fn word_at(s: Seq<char>, i: int) -> Seq<char> {
    s.skip(i).take(leading(s.skip(i), CharClass::Word) as int)
}

/// The project tag that a text gives is the first of its words that begin
/// with `+`, without its leading run of `+`; a text without such a word
/// gives none. Here `i` is the index at which that word begins, or the
/// length of the text.
pub proof fn lemma_project_is_first_tag(s: Seq<char>, at_start: bool, i: int)
    requires
        0 <= i <= s.len(),
        forall|j: int| 0 <= j < i ==> !begins_tag(s, at_start, j),
        i < s.len() ==> begins_tag(s, at_start, i),
    ensures
        project_from(s, at_start) == if i < s.len() {
            trim_start(word_at(s, i), CharClass::Plus)
        } else {
            Seq::empty()
        },
    decreases i,
{
    if i == 0 {
        if s.len() > 0 {
            assert(s.skip(0) == s);
        }
    } else {
        let rest = s.drop_first();
        let at = CharClass::Whitespace.has(s[0]);
        assert(!begins_tag(s, at_start, 0));
        assert forall|j: int| 0 <= j < i - 1 implies !begins_tag(rest, at, j) by {
            assert(!begins_tag(s, at_start, j + 1));
        }
        if i < s.len() {
            assert(begins_tag(rest, at, i - 1));
            assert(rest.skip(i - 1) == s.skip(i));
        }
        lemma_project_is_first_tag(rest, at, i - 1);
    }
}

/// The project tag that a text gives stands in the text, behind a `+`.
pub proof fn lemma_project_occurs(s: Seq<char>, at_start: bool)
    requires
        project_from(s, at_start).len() > 0,
    ensures
        has_substring(s, tag(project_from(s, at_start))),
    decreases s.len(),
{
    let p = project_from(s, at_start);
    if CharClass::Whitespace.has(s[0]) || !(at_start && s[0] == '+') {
        lemma_project_occurs(s.drop_first(), CharClass::Whitespace.has(s[0]));
        let i = choose|i: int| occurs_at(s.drop_first(), tag(p), i);
        assert(s.subrange(i + 1, i + 1 + tag(p).len()) == s.drop_first().subrange(
            i,
            i + tag(p).len(),
        ));
        assert(occurs_at(s, tag(p), i + 1));
    } else {
        lemma_leading(s, CharClass::Word);
        let n = leading(s, CharClass::Word) as int;
        let word = s.take(n);
        lemma_leading(word, CharClass::Plus);
        let j = leading(word, CharClass::Plus) as int;
        assert(p == word.skip(j));
        assert(word[j - 1] == '+');
        assert(s.subrange(j - 1, j - 1 + tag(p).len()) == tag(p));
        assert(occurs_at(s, tag(p), j - 1));
    }
}

/// The line of a canonical task is its head and its name.
pub proof fn lemma_canonical_line(t: TaskView)
    requires
        is_canonical(t),
    ensures
        encode(t) == head(t.priority, t.completed) + t.name,
{
    if t.project.len() > 0 {
        lemma_project_occurs(t.name, true);
    }
    assert(body(t) == t.name);
}

/// A task, written as a line and read back, is the task it was exactly if
/// it is canonical.
pub proof fn lemma_round_trip(t: TaskView)
    ensures
        is_canonical(t) <==> decode(encode(t)) == Ok::<TaskView, ErrorKind>(t),
{
    if is_canonical(t) {
        lemma_canonical_line(t);
        assert(body(t) == t.name);
        lemma_decode_encode(t);
    }
    if decode(encode(t)) == Ok::<TaskView, ErrorKind>(t) {
        lemma_only_what_reads_back(t);
        lemma_line_shape(t);
    }
}

} // verus!
