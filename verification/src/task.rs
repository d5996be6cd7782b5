//! One task, and the line of text that stands for it.

use vstd::prelude::*;

use crate::text::{is_single_line, single_line, without_cr};

verus! {

/// The line made of a marker and an entry: `- [`, the marker, `] `, the entry.
pub open spec fn task_line(marker: char, entry: Seq<char>) -> Seq<char> {
    seq!['-', ' ', '[', marker, ']', ' '] + entry
}

/// Whether `line` is the line of a task: it opens with `- [`, one character
/// and `] `, and holds no line feed.
pub open spec fn is_task_line(line: Seq<char>) -> bool {
    &&& line.len() >= 6
    &&& line[0] == '-'
    &&& line[1] == ' '
    &&& line[2] == '['
    &&& line[4] == ']'
    &&& line[5] == ' '
    &&& single_line(line)
}

/// The task that `line` stands for, if it is the line of a task: the entry
/// is all that follows the `] `, and the character between the brackets
/// gives the status.
pub open spec fn parse_line(line: Seq<char>) -> Option<TaskView> {
    if is_task_line(line) {
        Some(TaskView { entry: line.skip(6), status: Status::of_marker(seq![line[3]]) })
    } else {
        None
    }
}

/// Whether a task is done.
#[derive(PartialEq, Eq, Structural, Debug, Copy, Clone)]
pub enum Status {
    Checked,
    Unchecked,
}

impl Status {
    /// The status that a marker stands for: a single space is unchecked,
    /// anything else is checked.
    pub open spec fn of_marker(marker: Seq<char>) -> Status {
        if marker == seq![' '] {
            Status::Unchecked
        } else {
            Status::Checked
        }
    }

    /// The character written between the brackets for this status.
    pub open spec fn marker(self) -> char {
        match self {
            Status::Unchecked => ' ',
            Status::Checked => 'x',
        }
    }

    /// Reads a status from the text between the brackets.
    pub fn from(s: &str) -> (status: Status)
        ensures
            status == Status::of_marker(s@),
    {
        if s.unicode_len() == 1 && s.get_char(0) == ' ' {
            assert(s@ =~= seq![' ']);
            Status::Unchecked
        } else {
            Status::Checked
        }
    }

    /// The marker as a string of its own.
    pub fn to_string(&self) -> (s: String)
        ensures
            s@ == seq![self.marker()],
    {
        proof {
            reveal_strlit(" ");
            reveal_strlit("x");
        }
        let text = match self {
            Status::Unchecked => " ",
            Status::Checked => "x",
        };
        String::from_str(text)
    }
}

/// A task: what is to be done, and whether it is done.
#[derive(Debug)]
pub struct Task {
    pub entry: String,
    pub status: Status,
}

/// What a task is to the contracts: its entry as a sequence of characters,
/// and its status.
pub struct TaskView {
    pub entry: Seq<char>,
    pub status: Status,
}

impl TaskView {
    /// A task is valid when its entry fits on one line.
    pub open spec fn is_valid(self) -> bool {
        single_line(self.entry)
    }

    /// The task that a reader finds where this one was written: a carriage
    /// return at the end of the entry is taken for a part of the line's end,
    /// and is gone.
    pub open spec fn reloaded(self) -> TaskView {
        TaskView { entry: without_cr(self.entry), status: self.status }
    }

    /// Whether the task reads back from a file as it was written: it is
    /// valid, and its entry does not end in a carriage return.
    pub open spec fn reads_back(self) -> bool {
        self.is_valid() && self.reloaded() == self
    }

    /// The task's line, without the line feed that ends it.
    pub open spec fn line(self) -> Seq<char> {
        task_line(self.status.marker(), self.entry)
    }

    /// The task as it is written to a file: its line and a line feed.
    pub open spec fn text(self) -> Seq<char> {
        self.line().push('\n')
    }
}

/// The error of [`Task::from_str`]: the text is not the line of a task.
#[derive(Debug)]
pub struct TaskParserError;

impl View for Task {
    type V = TaskView;

    open spec fn view(&self) -> TaskView {
        TaskView { entry: self.entry@, status: self.status }
    }
}

impl DeepView for Task {
    type V = TaskView;

    open spec fn deep_view(&self) -> TaskView {
        self@
    }
}

impl Clone for Task {
    fn clone(&self) -> (copy: Task)
        ensures
            copy@ == self@,
    {
        Task { entry: self.entry.clone(), status: self.status }
    }
}

impl Task {
    /// A task that is still to be done.
    pub fn new(entry: &str) -> (task: Task)
        ensures
            task@ == (TaskView { entry: entry@, status: Status::Unchecked }),
    {
        Self::new_with_status(entry, Status::Unchecked)
    }

    /// A task with this entry and this status.
    pub fn new_with_status(entry: &str, status: Status) -> (task: Task)
        ensures
            task@ == (TaskView { entry: entry@, status }),
    {
        Self { entry: String::from_str(entry), status }
    }

    /// Reads a task from its line. The line carries no line feed: a text
    /// that holds one is refused like any other text outside the format.
    pub fn from_str(s: &str) -> (parsed: Result<Task, TaskParserError>)
        ensures
            match parsed {
                Ok(task) => parse_line(s@) == Some(task@),
                Err(_) => parse_line(s@) is None,
            },
    {
        let n = s.unicode_len();
        if n < 6 || !is_single_line(s) {
            return Err(TaskParserError);
        }
        if s.get_char(0) != '-' || s.get_char(1) != ' ' || s.get_char(2) != '['
            || s.get_char(4) != ']' || s.get_char(5) != ' ' {
            return Err(TaskParserError);
        }
        let status = Status::from(s.substring_char(3, 4));
        let entry = s.substring_char(6, n);
        assert(s@.subrange(3, 4) =~= seq![s@[3]]);
        Ok(Task::new_with_status(entry, status))
    }

    /// Writes the task as it stands in a file: `- [ ] ` or `- [x] `, the
    /// entry, and a line feed.
    pub fn to_string(&self) -> (s: String)
        ensures
            s@ == self@.text(),
    {
        proof {
            reveal_strlit("- [");
            reveal_strlit("] ");
            reveal_strlit("\n");
        }
        let mut s = String::from_str("- [");
        s.append(self.status.to_string().as_str());
        s.append("] ");
        s.append(self.entry.as_str());
        s.append("\n");
        s
    }

    /// Marks the task as done; the entry stays.
    pub fn check(&mut self)
        ensures
            final(self)@ == (TaskView { entry: old(self)@.entry, status: Status::Checked }),
    {
        self.status = Status::Checked;
    }

    /// Marks the task as still to be done; the entry stays.
    pub fn uncheck(&mut self)
        ensures
            final(self)@ == (TaskView { entry: old(self)@.entry, status: Status::Unchecked }),
    {
        self.status = Status::Unchecked;
    }
}

/// A line of the format, whatever its marker, reads as the entry behind the
/// `] ` with the status that the marker stands for: unchecked for a space,
/// checked for any other character.
pub proof fn marker_decides_status(marker: char, entry: Seq<char>)
    requires
        marker != '\n',
        single_line(entry),
    ensures
        parse_line(task_line(marker, entry)) == Some(
            TaskView {
                entry,
                status: if marker == ' ' {
                    Status::Unchecked
                } else {
                    Status::Checked
                },
            },
        ),
{
    let line = task_line(marker, entry);
    assert(line.skip(6) =~= entry);
    assert(single_line(line));
    assert(seq![marker][0] == marker);
}

/// The lines of the format are exactly the texts `- [`, one character,
/// `] `, entry, in which neither the character nor the entry holds a line
/// feed.
pub proof fn task_lines_are_the_format(line: Seq<char>)
    ensures
        is_task_line(line) <==> exists|marker: char, entry: Seq<char>|
            marker != '\n' && single_line(entry) && line == #[trigger] task_line(marker, entry),
{
    if is_task_line(line) {
        let marker = line[3];
        let entry = line.skip(6);
        assert(single_line(entry));
        assert(line =~= task_line(marker, entry));
    }
    if exists|marker: char, entry: Seq<char>|
        marker != '\n' && single_line(entry) && line == #[trigger] task_line(marker, entry) {
        let (marker, entry) = choose|marker: char, entry: Seq<char>|
            marker != '\n' && single_line(entry) && line == #[trigger] task_line(marker, entry);
        marker_decides_status(marker, entry);
    }
}

/// Round trip: the line of a valid task reads back as that task.
pub proof fn line_round_trip(task: TaskView)
    requires
        task.is_valid(),
    ensures
        parse_line(task.line()) == Some(task),
{
    marker_decides_status(task.status.marker(), task.entry);
}

/// Writing a task that was read gives the line in its regular form, with
/// ` ` or `x` for the marker, and that line reads as the same task.
pub proof fn written_line_is_regular(line: Seq<char>)
    ensures
        parse_line(line) matches Some(task) ==> {
            &&& task.line() == task_line(task.status.marker(), line.skip(6))
            &&& parse_line(task.line()) == Some(task)
        },
{
    parsed_task_is_valid(line);
    if is_task_line(line) {
        line_round_trip(parse_line(line).unwrap());
    }
}

/// Whatever a line reads as is a valid task.
pub proof fn parsed_task_is_valid(line: Seq<char>)
    ensures
        parse_line(line) matches Some(task) ==> task.is_valid(),
{
    if is_task_line(line) {
        assert(single_line(line.skip(6)));
    }
}

} // verus!
