//! The task file: one task per line, in the order in which they show.
//!
//! A [`TaskStorage`] works on the text of its file. Each operation takes the
//! text that the file holds now, where it needs it, and answers with a
//! [`FileWrite`]: what to append to the file, or what to put in its place.
//! The caller reads the file before and carries out the write after; an
//! operation that fails asks for no write, so the file stays as it is.

use vstd::prelude::*;

use crate::task::{line_round_trip, parse_line, parsed_task_is_valid, Status, Task, TaskView};
use crate::text::{
    decimal, ends_lines, lines, lines_of_concat, lines_of_one_line, push_decimal, single_line,
    split_lines, without_cr,
};

verus! {

/// Where the task file lies: a directory, and the file's name in it.
pub struct StorageConfig {
    pub filename: String,
    pub dirname: String,
}

/// Why an operation on the storage did not go through.
#[derive(PartialEq, Eq, Structural, Debug, Copy, Clone)]
pub enum StorageError {
    /// The platform names no data directory for the user.
    NoDataDir,
    /// No task stands at this position of the list.
    IndexOutOfRange { index: i32 },
}

/// A write to the task file.
#[derive(Debug, PartialEq, Eq)]
pub enum FileWrite {
    /// Add the text at the end of the file; what the file holds stays.
    Append(String),
    /// Empty the file and write the text from its start.
    Rewrite(String),
}

/// A [`FileWrite`] with its text as a sequence of characters.
pub enum FileWriteView {
    Append(Seq<char>),
    Rewrite(Seq<char>),
}

impl View for FileWrite {
    type V = FileWriteView;

    open spec fn view(&self) -> FileWriteView {
        match self {
            FileWrite::Append(text) => FileWriteView::Append(text@),
            FileWrite::Rewrite(text) => FileWriteView::Rewrite(text@),
        }
    }
}

impl FileWriteView {
    /// What a file that held `before` holds after this write.
    pub open spec fn applied_to(self, before: Seq<char>) -> Seq<char> {
        match self {
            FileWriteView::Append(text) => before + text,
            FileWriteView::Rewrite(text) => text,
        }
    }
}

impl FileWrite {
    /// Carries the write out on a file held in memory.
    pub fn apply(&self, file: &mut String)
        ensures
            final(file)@ == self@.applied_to(old(file)@),
    {
        match self {
            FileWrite::Append(text) => {
                file.append(text.as_str());
            },
            FileWrite::Rewrite(text) => {
                *file = text.clone();
            },
        }
    }
}

/// An operation's outcome to the contracts: the write as its view, or the
/// error.
pub open spec fn outcome_view(outcome: Result<FileWrite, StorageError>) -> Result<
    FileWriteView,
    StorageError,
> {
    match outcome {
        Ok(write) => Ok(write@),
        Err(e) => Err(e),
    }
}

/// The name of the task file where none is given: `todo.txt`.
pub open spec fn default_filename() -> Seq<char> {
    seq!['t', 'o', 'd', 'o', '.', 't', 'x', 't']
}

/// What reads one line of the file: see [`parse_line`].
pub open spec fn line_parser() -> spec_fn(Seq<char>) -> Option<TaskView> {
    |line: Seq<char>| parse_line(line)
}

/// The tasks that a file with the text `text` holds, in the file's order:
/// one for each line that is the line of a task. The other lines count for
/// nothing.
pub open spec fn parse_tasks(text: Seq<char>) -> Seq<TaskView> {
    lines(text).filter_map(line_parser())
}

/// What writes one task: its line and a line feed.
pub open spec fn task_writer() -> spec_fn(TaskView) -> Seq<char> {
    |task: TaskView| task.text()
}

/// The text of a file that holds `tasks`: the text of each, one after the
/// other.
pub open spec fn tasks_text(tasks: Seq<TaskView>) -> Seq<char> {
    tasks.map_values(task_writer()).flatten()
}

/// The write that puts `tasks` into the file: at its end, or in place of
/// all that it holds.
pub open spec fn written(tasks: Seq<TaskView>, append: bool) -> FileWriteView {
    if append {
        FileWriteView::Append(tasks_text(tasks))
    } else {
        FileWriteView::Rewrite(tasks_text(tasks))
    }
}

/// The tasks with their indices: the first has the index 1.
pub open spec fn list_all(tasks: Seq<TaskView>) -> Seq<(nat, TaskView)> {
    Seq::new(tasks.len(), |i: int| ((i + 1) as nat, tasks[i]))
}

/// Which tasks of the list are shown: with `show_all` every one, without it
/// those that are not checked.
pub open spec fn is_shown(show_all: bool) -> spec_fn((nat, TaskView)) -> bool {
    |item: (nat, TaskView)| show_all || item.1.status != Status::Checked
}

/// How a task is shown: its index in decimal, a full stop and a space, then
/// the task as the file holds it.
pub open spec fn numbered_line() -> spec_fn((nat, TaskView)) -> Seq<char> {
    |item: (nat, TaskView)| decimal(item.0) + seq!['.', ' '] + item.1.text()
}

/// The listing of `tasks`: the tasks that are shown, each under the index
/// that it has among all of them, in their order.
pub open spec fn render(tasks: Seq<TaskView>, show_all: bool) -> Seq<char> {
    list_all(tasks).filter(is_shown(show_all)).map_values(numbered_line()).flatten()
}

/// The listing of the tasks up to the `n`-th is that of those before it,
/// and then the `n`-th's line if it is shown.
proof fn lemma_render_take(tasks: Seq<TaskView>, show_all: bool, n: int)
    requires
        0 <= n < tasks.len(),
    ensures
        render(tasks.take(n + 1), show_all) == render(tasks.take(n), show_all) + (if is_shown(
            show_all,
        )(((n + 1) as nat, tasks[n])) {
            numbered_line()(((n + 1) as nat, tasks[n]))
        } else {
            Seq::empty()
        }),
{
    let item = ((n + 1) as nat, tasks[n]);
    let first = list_all(tasks.take(n));
    assert(list_all(tasks.take(n + 1)) =~= first.push(item));
    first.lemma_filter_push(item, is_shown(show_all));
    let shown = first.filter(is_shown(show_all));
    if is_shown(show_all)(item) {
        shown.lemma_push_map_commute(numbered_line(), item);
        shown.map_values(numbered_line()).lemma_flatten_push(numbered_line()(item));
    }
}

/// The text of the tasks up to the `n`-th is that of those before it, and
/// then the `n`-th's own.
proof fn lemma_tasks_text_take(tasks: Seq<TaskView>, n: int)
    requires
        0 <= n < tasks.len(),
    ensures
        tasks_text(tasks.take(n + 1)) == tasks_text(tasks.take(n)) + tasks[n].text(),
{
    let first = tasks.take(n);
    assert(tasks.take(n + 1) =~= first.push(tasks[n]));
    assert(first.push(tasks[n]).map_values(task_writer()) =~= first.map_values(
        task_writer(),
    ).push(tasks[n].text()));
    first.map_values(task_writer()).lemma_flatten_push(tasks[n].text());
}

/// Turns `tasks` into the write that puts them into the file.
pub fn write_tasks(tasks: &[Task], append: bool) -> (write: FileWrite)
    ensures
        write@ == written(tasks.deep_view(), append),
{
    let mut text = String::new();
    let mut i: usize = 0;
    while i < tasks.len()
        invariant
            i <= tasks.len(),
            text@ == tasks_text(tasks.deep_view().take(i as int)),
        decreases tasks.len() - i,
    {
        proof {
            lemma_tasks_text_take(tasks.deep_view(), i as int);
        }
        text.append(tasks[i].to_string().as_str());
        i += 1;
    }
    assert(tasks.deep_view().take(i as int) =~= tasks.deep_view());
    if append {
        FileWrite::Append(text)
    } else {
        FileWrite::Rewrite(text)
    }
}

/// The user's data directory, from `dirs::data_dir`. That function asks the
/// platform and the environment, so its answer may differ from one call to
/// the next, and nothing is claimed of it here. A directory whose path is
/// not Unicode text counts as none.
#[verifier::external_body]
fn data_dir() -> (dir: Option<String>) {
    match dirs::data_dir() {
        Some(path) => path.into_os_string().into_string().ok(),
        None => None,
    }
}

impl StorageConfig {
    /// The path of the file `filename` in the directory `dirname`. A name
    /// that starts at the root stands for itself. Otherwise the name follows
    /// the directory, with a `/` between them unless the directory is empty
    /// or ends in one.
    pub open spec fn location(dirname: Seq<char>, filename: Seq<char>) -> Seq<char> {
        if filename.len() > 0 && filename[0] == '/' {
            filename
        } else if dirname.len() == 0 || dirname.last() == '/' {
            dirname + filename
        } else {
            dirname + seq!['/'] + filename
        }
    }

    /// The path of the task file.
    pub fn file(&self) -> (path: String)
        ensures
            path@ == Self::location(self.dirname@, self.filename@),
    {
        let name = self.filename.as_str();
        let dir = self.dirname.as_str();
        if name.unicode_len() > 0 && name.get_char(0) == '/' {
            return self.filename.clone();
        }
        let mut path = self.dirname.clone();
        let dir_len = dir.unicode_len();
        if dir_len > 0 && dir.get_char(dir_len - 1) != '/' {
            proof {
                reveal_strlit("/");
            }
            path.append("/");
        }
        path.append(name);
        path
    }

    /// The configuration for the file `todo.txt` in the data directory
    /// `dir`, where there is one.
    pub fn in_data_dir(dir: Option<String>) -> (config: Result<StorageConfig, StorageError>)
        ensures
            match dir {
                Some(dirname) => config matches Ok(c) && c.dirname == dirname && c.filename@
                    == default_filename(),
                None => config matches Err(e) && e == StorageError::NoDataDir,
            },
    {
        match dir {
            Some(dirname) => {
                proof {
                    reveal_strlit("todo.txt");
                }
                let filename = String::from_str("todo.txt");
                Ok(StorageConfig { filename, dirname })
            },
            None => Err(StorageError::NoDataDir),
        }
    }

    /// The configuration for the file `todo.txt` in the user's data
    /// directory. It fails where the platform names no such directory.
    pub fn platform_default() -> (config: Result<StorageConfig, StorageError>)
        ensures
            match config {
                Ok(c) => c.filename@ == default_filename(),
                Err(e) => e == StorageError::NoDataDir,
            },
    {
        Self::in_data_dir(data_dir())
    }
}

/// The storage of the tasks in one file.
pub struct TaskStorage {
    pub config: StorageConfig,
}

impl TaskStorage {
    /// The storage for the file `todo.txt` in the user's data directory.
    /// It fails where the platform names no such directory.
    pub fn new() -> (storage: Result<TaskStorage, StorageError>)
        ensures
            match storage {
                Ok(s) => s.config.filename@ == default_filename(),
                Err(e) => e == StorageError::NoDataDir,
            },
    {
        match StorageConfig::platform_default() {
            Ok(config) => Ok(Self::with_config(config)),
            Err(e) => Err(e),
        }
    }

    /// The storage for the file that `config` names.
    pub fn with_config(config: StorageConfig) -> (storage: TaskStorage)
        ensures
            storage.config == config,
    {
        Self { config }
    }

    /// The write that adds a new task, still to be done, with this entry:
    /// its text goes to the end of the file.
    pub open spec fn added(entry: Seq<char>) -> FileWriteView {
        FileWriteView::Append(TaskView { entry, status: Status::Unchecked }.text())
    }

    /// Adds a task with this entry at the end of the list. The file is not
    /// read for it.
    pub fn add(&self, entry: &str) -> (write: FileWrite)
        ensures
            write@ == Self::added(entry@),
    {
        let mut tasks: Vec<Task> = Vec::new();
        tasks.push(Task::new(entry));
        proof {
            let task = TaskView { entry: entry@, status: Status::Unchecked };
            assert(tasks.deep_view() =~= seq![task]);
            assert(seq![task].map_values(task_writer()) =~= seq![task.text()]);
            seq![task.text()].lemma_flatten_singleton();
        }
        write_tasks(tasks.as_slice(), true)
    }

    /// The tasks of the file whose text is `contents`, in the file's order.
    /// The task at position `i` of the result has the index `i + 1`.
    pub fn get_all(&self, contents: &str) -> (tasks: Vec<Task>)
        ensures
            tasks.deep_view() == parse_tasks(contents@),
    {
        let all = split_lines(contents);
        let mut tasks: Vec<Task> = Vec::new();
        let mut i: usize = 0;
        while i < all.len()
            invariant
                i <= all.len(),
                all.deep_view() == lines(contents@),
                tasks.deep_view() == all.deep_view().take(i as int).filter_map(line_parser()),
            decreases all.len() - i,
        {
            proof {
                all.deep_view().lemma_filter_map_take_succ(line_parser(), i as int);
            }
            if let Ok(task) = Task::from_str(all[i]) {
                tasks.push(task);
            }
            i += 1;
        }
        assert(all.deep_view().take(i as int) =~= all.deep_view());
        tasks
    }

    /// Whether `index` names one of `count` tasks: positions count from 1.
    pub open spec fn in_range(index: i32, count: nat) -> bool {
        1 <= index <= count
    }

    /// What becomes of the file when the task at `index` gives way to
    /// `change` of it: the whole list is written anew, with that one task
    /// changed. An index that names no task is an error, and nothing is
    /// written.
    pub open spec fn edited(
        contents: Seq<char>,
        index: i32,
        change: spec_fn(TaskView) -> TaskView,
    ) -> Result<FileWriteView, StorageError> {
        let tasks = parse_tasks(contents);
        if Self::in_range(index, tasks.len()) {
            Ok(written(tasks.update(index - 1, change(tasks[index - 1])), false))
        } else {
            Err(StorageError::IndexOutOfRange { index })
        }
    }

    /// What becomes of the file when the task at `index` leaves the list:
    /// the rest is written anew, in its order. An index that names no task is
    /// an error, and nothing is written.
    pub open spec fn removed(contents: Seq<char>, index: i32) -> Result<
        FileWriteView,
        StorageError,
    > {
        let tasks = parse_tasks(contents);
        if Self::in_range(index, tasks.len()) {
            Ok(written(tasks.remove(index - 1), false))
        } else {
            Err(StorageError::IndexOutOfRange { index })
        }
    }

    /// Puts what `callback` makes of the task at `index` in that task's
    /// place and writes the list anew.
    fn _update<F: Fn(&Task) -> Task>(&self, contents: &str, index: i32, callback: F) -> (outcome:
        Result<FileWrite, StorageError>)
        requires
            forall|task: &Task| callback.requires((task,)),
        ensures
            match outcome {
                Ok(write) => {
                    let tasks = parse_tasks(contents@);
                    &&& Self::in_range(index, tasks.len())
                    &&& exists|old_task: &Task, new_task: Task|
                        {
                            &&& old_task@ == tasks[index - 1]
                            &&& callback.ensures((old_task,), new_task)
                            &&& write@ == written(tasks.update(index - 1, new_task@), false)
                        }
                },
                Err(e) => {
                    &&& !Self::in_range(index, parse_tasks(contents@).len())
                    &&& e == StorageError::IndexOutOfRange { index }
                },
            },
    {
        let mut tasks = self.get_all(contents);
        if index < 1 || index as usize > tasks.len() {
            return Err(StorageError::IndexOutOfRange { index });
        }
        let i = (index - 1) as usize;
        let ghost before = tasks.deep_view();
        let new_task = callback(&tasks[i]);
        let ghost new_view = new_task@;
        tasks.set(i, new_task);
        assert(tasks.deep_view() =~= before.update(i as int, new_view));
        Ok(write_tasks(tasks.as_slice(), false))
    }

    /// The task with the entry `entry` and the status of `task`.
    pub open spec fn with_entry(entry: Seq<char>) -> spec_fn(TaskView) -> TaskView {
        |task: TaskView| TaskView { entry, status: task.status }
    }

    /// The task with the entry of `task` and the status `status`.
    pub open spec fn with_status(status: Status) -> spec_fn(TaskView) -> TaskView {
        |task: TaskView| TaskView { entry: task.entry, status }
    }

    /// Gives the task at `index` the entry `entry`; its status stays.
    pub fn update(&self, contents: &str, index: i32, entry: &str) -> (outcome: Result<
        FileWrite,
        StorageError,
    >)
        ensures
            outcome_view(outcome) == Self::edited(contents@, index, Self::with_entry(entry@)),
    {
        let change = |task: &Task| -> (changed: Task)
            ensures
                changed@.entry == entry@,
                changed@.status == task@.status,
            {
                Task::new_with_status(entry, task.status)
            };
        self._update(contents, index, change)
    }

    /// Marks the task at `index` as done; its entry stays.
    pub fn check(&self, contents: &str, index: i32) -> (outcome: Result<FileWrite, StorageError>)
        ensures
            outcome_view(outcome) == Self::edited(
                contents@,
                index,
                Self::with_status(Status::Checked),
            ),
    {
        let change = |task: &Task| -> (changed: Task)
            ensures
                changed@.entry == task@.entry,
                changed@.status == Status::Checked,
            {
                Task::new_with_status(task.entry.as_str(), Status::Checked)
            };
        self._update(contents, index, change)
    }

    /// Marks the task at `index` as still to be done; its entry stays.
    pub fn uncheck(&self, contents: &str, index: i32) -> (outcome: Result<FileWrite, StorageError>)
        ensures
            outcome_view(outcome) == Self::edited(
                contents@,
                index,
                Self::with_status(Status::Unchecked),
            ),
    {
        let change = |task: &Task| -> (changed: Task)
            ensures
                changed@.entry == task@.entry,
                changed@.status == Status::Unchecked,
            {
                Task::new_with_status(task.entry.as_str(), Status::Unchecked)
            };
        self._update(contents, index, change)
    }

    /// Takes the task at `index` out of the list. The tasks behind it move
    /// up by one.
    pub fn remove(&self, contents: &str, index: i32) -> (outcome: Result<FileWrite, StorageError>)
        ensures
            outcome_view(outcome) == Self::removed(contents@, index),
    {
        let mut tasks = self.get_all(contents);
        if index < 1 || index as usize > tasks.len() {
            return Err(StorageError::IndexOutOfRange { index });
        }
        let i = (index - 1) as usize;
        let ghost before = tasks.deep_view();
        tasks.remove(i);
        assert(tasks.deep_view() =~= before.remove(i as int));
        Ok(write_tasks(tasks.as_slice(), false))
    }

    /// The listing of the file whose text is `contents`: a line for each
    /// task, `1. - [ ] entry` for the first, under the index that the task
    /// has in the file. Without `show_all` the checked tasks are left out;
    /// the others keep their indices.
    pub fn to_string(&self, contents: &str, show_all: bool) -> (listing: String)
        ensures
            listing@ == render(parse_tasks(contents@), show_all),
    {
        let tasks = self.get_all(contents);
        let mut disp = String::new();
        let mut i: usize = 0;
        proof {
            reveal(Seq::filter);
        }
        while i < tasks.len()
            invariant
                i <= tasks.len(),
                disp@ == render(tasks.deep_view().take(i as int), show_all),
            decreases tasks.len() - i,
        {
            proof {
                lemma_render_take(tasks.deep_view(), show_all, i as int);
            }
            if show_all || tasks[i].status != Status::Checked {
                proof {
                    reveal_strlit(". ");
                }
                push_decimal(&mut disp, i + 1);
                disp.append(". ");
                disp.append(tasks[i].to_string().as_str());
            }
            i += 1;
        }
        assert(tasks.deep_view().take(i as int) =~= tasks.deep_view());
        disp
    }
}

/// What the file holds after an operation with this outcome, if it held
/// `before`: what the write makes of it, or `before` itself where the
/// operation failed.
pub open spec fn file_after(before: Seq<char>, outcome: Result<FileWriteView, StorageError>) -> Seq<
    char,
> {
    match outcome {
        Ok(write) => write.applied_to(before),
        Err(_) => before,
    }
}

/// What a reader makes of a task that was written: see
/// [`TaskView::reloaded`].
pub open spec fn reloader() -> spec_fn(TaskView) -> TaskView {
    |task: TaskView| task.reloaded()
}

/// Whether each of `tasks` is valid.
pub open spec fn all_valid(tasks: Seq<TaskView>) -> bool {
    forall|i: int| 0 <= i < tasks.len() ==> (#[trigger] tasks[i]).is_valid()
}

/// Whether each of `tasks` reads back from a file as it was written.
pub open spec fn all_read_back(tasks: Seq<TaskView>) -> bool {
    forall|i: int| 0 <= i < tasks.len() ==> (#[trigger] tasks[i]).reads_back()
}

/// Reading one sequence of lines after another gives the tasks of the first
/// and then those of the second.
proof fn lemma_filter_map_concat<A, B>(first: Seq<A>, second: Seq<A>, f: spec_fn(A) -> Option<B>)
    ensures
        (first + second).filter_map(f) == first.filter_map(f) + second.filter_map(f),
    decreases second.len(),
{
    if second.len() > 0 {
        assert((first + second).drop_last() =~= first + second.drop_last());
        lemma_filter_map_concat(first, second.drop_last(), f);
    }
}

/// The text of a list of tasks and one more is the text of the list and
/// then that of the one.
proof fn lemma_tasks_text_push(tasks: Seq<TaskView>, task: TaskView)
    ensures
        tasks_text(tasks.push(task)) == tasks_text(tasks) + task.text(),
{
    let longer = tasks.push(task);
    assert(longer.take(tasks.len() as int) =~= tasks);
    assert(longer.take(tasks.len() as int + 1) =~= longer);
    lemma_tasks_text_take(longer, tasks.len() as int);
}

/// The text of a list of tasks ends where a line ends.
proof fn lemma_tasks_text_ends_lines(tasks: Seq<TaskView>)
    ensures
        ends_lines(tasks_text(tasks)),
{
    if tasks.len() > 0 {
        assert(tasks.drop_last().push(tasks.last()) =~= tasks);
        lemma_tasks_text_push(tasks.drop_last(), tasks.last());
    }
}

/// The text of a valid task has one line: that of the task as a reader
/// finds it.
proof fn lemma_lines_of_task(task: TaskView)
    requires
        task.is_valid(),
    ensures
        lines(task.text()) == seq![task.reloaded().line()],
        task.reloaded().is_valid(),
{
    let line = task.line();
    assert(single_line(line));
    lines_of_one_line(line);
    assert(without_cr(line) =~= task.reloaded().line());
    assert(single_line(task.reloaded().entry));
}

/// Reading a file that ends where a line ends and then holds one more task,
/// a valid one, gives the file's tasks and then that one as a reader finds
/// it.
proof fn lemma_parse_with_task(before: Seq<char>, task: TaskView)
    requires
        ends_lines(before),
        task.is_valid(),
    ensures
        parse_tasks(before + task.text()) == parse_tasks(before).push(task.reloaded()),
{
    let found = task.reloaded();
    lines_of_concat(before, task.text());
    lemma_lines_of_task(task);
    lemma_filter_map_concat(lines(before), seq![found.line()], line_parser());
    line_round_trip(found);
    Seq::lemma_filter_map_singleton(found.line(), line_parser());
}

/// The tasks that a file holds are valid, whatever its text.
pub proof fn parsed_tasks_are_valid(text: Seq<char>)
    ensures
        all_valid(parse_tasks(text)),
{
    let tasks = parse_tasks(text);
    assert forall|i: int| 0 <= i < tasks.len() implies (#[trigger] tasks[i]).is_valid() by {
        lines(text).lemma_filter_map_contains(line_parser(), tasks[i]);
        let line = choose|line: Seq<char>| #[trigger]
            lines(text).contains(line) && line_parser()(line) == Some(tasks[i]);
        parsed_task_is_valid(line);
    }
}

/// Valid tasks come out of the text that was written for them in the same
/// number and order, each as a reader finds it: status and entry as they
/// went in, but for a carriage return at the end of an entry. Tasks that
/// read back come out as they went in.
pub proof fn written_tasks_read_back(tasks: Seq<TaskView>)
    requires
        all_valid(tasks),
    ensures
        parse_tasks(tasks_text(tasks)) == tasks.map_values(reloader()),
        all_read_back(tasks) ==> parse_tasks(tasks_text(tasks)) == tasks,
    decreases tasks.len(),
{
    if tasks.len() > 0 {
        let first = tasks.drop_last();
        assert(first.push(tasks.last()) =~= tasks);
        assert(all_valid(first));
        written_tasks_read_back(first);
        lemma_tasks_text_push(first, tasks.last());
        lemma_tasks_text_ends_lines(first);
        lemma_parse_with_task(tasks_text(first), tasks.last());
    }
}

/// Writing a list anew gives the same file whatever the file held before,
/// and so the same file again when it is done a second time.
pub proof fn rewrite_is_idempotent(tasks: Seq<TaskView>, before: Seq<char>, other: Seq<char>)
    ensures
        written(tasks, false).applied_to(before) == tasks_text(tasks),
        written(tasks, false).applied_to(before) == written(tasks, false).applied_to(other),
        written(tasks, false).applied_to(written(tasks, false).applied_to(before)) == written(
            tasks,
            false,
        ).applied_to(before),
{
}

/// Adding a task only appends: the file holds after it what it held before,
/// and behind that the text of the new task.
pub proof fn add_only_appends(before: Seq<char>, entry: Seq<char>)
    ensures
        TaskStorage::added(entry).applied_to(before) == before + (TaskView {
            entry,
            status: Status::Unchecked,
        }).text(),
        before.is_prefix_of(TaskStorage::added(entry).applied_to(before)),
{
}

/// A task that is added to a file that ends where a line ends is the last
/// of the file's tasks thereafter: unchecked, and with the entry that was
/// given, less a carriage return at its end. The tasks before it are those
/// that the file held. This asks that the entry hold no line feed.
pub proof fn added_task_is_last(before: Seq<char>, entry: Seq<char>)
    requires
        ends_lines(before),
        single_line(entry),
    ensures
        parse_tasks(TaskStorage::added(entry).applied_to(before)) == parse_tasks(before).push(
            TaskView { entry: without_cr(entry), status: Status::Unchecked },
        ),
{
    lemma_parse_with_task(before, TaskView { entry, status: Status::Unchecked });
}

/// A line that is not the line of a task counts for nothing: the tasks of
/// the file are those before the line and those behind it.
pub proof fn malformed_line_is_skipped(before: Seq<char>, line: Seq<char>, after: Seq<char>)
    requires
        ends_lines(before),
        single_line(line),
        parse_line(without_cr(line)) is None,
    ensures
        parse_tasks(before + line.push('\n') + after) == parse_tasks(before) + parse_tasks(after),
{
    let middle = line.push('\n');
    lines_of_concat(before, middle);
    lines_of_one_line(line);
    lines_of_concat(before + middle, after);
    lemma_filter_map_concat(lines(before), lines(middle), line_parser());
    lemma_filter_map_concat(lines(before + middle), lines(after), line_parser());
    Seq::lemma_filter_map_singleton(without_cr(line), line_parser());
}

/// Changing the task at `index` leaves the others where they are. The file
/// holds thereafter as many tasks as before: at `index` the changed one, and
/// at every other place the task that stood there, each as a reader finds
/// it. So a task that reads back, and is not the one at `index`, is
/// unchanged in entry and status. This asks that the changed task be valid.
pub proof fn edit_keeps_other_tasks(
    contents: Seq<char>,
    index: i32,
    change: spec_fn(TaskView) -> TaskView,
)
    requires
        TaskStorage::in_range(index, parse_tasks(contents).len()),
        change(parse_tasks(contents)[index - 1]).is_valid(),
    ensures
        TaskStorage::edited(contents, index, change) is Ok,
        ({
            let before = parse_tasks(contents);
            let after = parse_tasks(
                file_after(contents, TaskStorage::edited(contents, index, change)),
            );
            &&& after.len() == before.len()
            &&& after[index - 1] == change(before[index - 1]).reloaded()
            &&& forall|j: int|
                0 <= j < before.len() && j != index - 1 ==> after[j] == (#[trigger] before[j]).reloaded()
            &&& forall|j: int|
                0 <= j < before.len() && j != index - 1 && (#[trigger] before[j]).reads_back()
                    ==> after[j] == before[j]
        }),
{
    let before = parse_tasks(contents);
    let written = before.update(index - 1, change(before[index - 1]));
    parsed_tasks_are_valid(contents);
    assert(all_valid(written));
    written_tasks_read_back(written);
}

/// Giving the task at `index` a new entry leaves the others where they are,
/// and a task among them that reads back is unchanged. The task at `index`
/// keeps its status and has the new entry, less a carriage return at its
/// end. This asks that the new entry hold no line feed.
pub proof fn update_keeps_other_tasks(contents: Seq<char>, index: i32, entry: Seq<char>)
    requires
        TaskStorage::in_range(index, parse_tasks(contents).len()),
        single_line(entry),
    ensures
        ({
            let before = parse_tasks(contents);
            let after = parse_tasks(
                file_after(
                    contents,
                    TaskStorage::edited(contents, index, TaskStorage::with_entry(entry)),
                ),
            );
            &&& after.len() == before.len()
            &&& after[index - 1] == (TaskView {
                entry: without_cr(entry),
                status: before[index - 1].status,
            })
            &&& forall|j: int|
                0 <= j < before.len() && j != index - 1 && (#[trigger] before[j]).reads_back()
                    ==> after[j] == before[j]
        }),
{
    edit_keeps_other_tasks(contents, index, TaskStorage::with_entry(entry));
}

/// Checking or unchecking the task at `index` leaves the others where they
/// are, and a task among them that reads back is unchanged. The task at
/// `index` has the new status, and its entry as a reader finds it.
pub proof fn status_change_keeps_other_tasks(contents: Seq<char>, index: i32, status: Status)
    requires
        TaskStorage::in_range(index, parse_tasks(contents).len()),
    ensures
        ({
            let before = parse_tasks(contents);
            let after = parse_tasks(
                file_after(
                    contents,
                    TaskStorage::edited(contents, index, TaskStorage::with_status(status)),
                ),
            );
            &&& after.len() == before.len()
            &&& after[index - 1] == (TaskView {
                entry: without_cr(before[index - 1].entry),
                status,
            })
            &&& forall|j: int|
                0 <= j < before.len() && j != index - 1 && (#[trigger] before[j]).reads_back()
                    ==> after[j] == before[j]
        }),
{
    parsed_tasks_are_valid(contents);
    edit_keeps_other_tasks(contents, index, TaskStorage::with_status(status));
}

/// Removing the task at `index` moves the tasks behind it up by one and
/// leaves those before it where they were, each as a reader finds it. So a
/// task that reads back is unchanged in entry and status, one place up if it
/// stood behind `index`.
pub proof fn remove_moves_later_tasks_up(contents: Seq<char>, index: i32)
    requires
        TaskStorage::in_range(index, parse_tasks(contents).len()),
    ensures
        TaskStorage::removed(contents, index) is Ok,
        ({
            let before = parse_tasks(contents);
            let after = parse_tasks(file_after(contents, TaskStorage::removed(contents, index)));
            &&& after.len() == before.len() - 1
            &&& forall|j: int| 0 <= j < index - 1 ==> after[j] == (#[trigger] before[j]).reloaded()
            &&& forall|j: int|
                index - 1 <= j < after.len() ==> #[trigger] after[j] == before[j + 1].reloaded()
            &&& forall|j: int|
                0 <= j < index - 1 && (#[trigger] before[j]).reads_back() ==> after[j] == before[j]
            &&& forall|j: int|
                index - 1 <= j < after.len() && before[j + 1].reads_back() ==> #[trigger] after[j]
                    == before[j + 1]
        }),
{
    let before = parse_tasks(contents);
    let written = before.remove(index - 1);
    parsed_tasks_are_valid(contents);
    assert(all_valid(written));
    written_tasks_read_back(written);
}

/// An index below 1 or above the number of tasks is refused, whatever the
/// operation, and the file stays as it is.
pub proof fn out_of_range_changes_nothing(
    contents: Seq<char>,
    index: i32,
    change: spec_fn(TaskView) -> TaskView,
)
    requires
        index < 1 || index > parse_tasks(contents).len(),
    ensures
        TaskStorage::edited(contents, index, change) == Err::<FileWriteView, StorageError>(
            StorageError::IndexOutOfRange { index },
        ),
        TaskStorage::removed(contents, index) == Err::<FileWriteView, StorageError>(
            StorageError::IndexOutOfRange { index },
        ),
        file_after(contents, TaskStorage::edited(contents, index, change)) == contents,
        file_after(contents, TaskStorage::removed(contents, index)) == contents,
{
}

/// The listing of no tasks is empty, and that of a list and one more task
/// is the list's own and then, if the task is shown, the task's line under
/// the index that follows the list's last.
pub proof fn render_grows_by_task(tasks: Seq<TaskView>, task: TaskView, show_all: bool)
    ensures
        render(Seq::empty(), show_all) == Seq::<char>::empty(),
        render(tasks.push(task), show_all) == render(tasks, show_all) + (if show_all || task.status
            != Status::Checked {
            decimal(tasks.len() + 1) + seq!['.', ' '] + task.text()
        } else {
            Seq::empty()
        }),
{
    let longer = tasks.push(task);
    assert(longer.take(tasks.len() as int) =~= tasks);
    assert(longer.take(tasks.len() as int + 1) =~= longer);
    lemma_render_take(longer, show_all, tasks.len() as int);
    reveal(Seq::filter);
}

/// With `show_all` the listing holds every task, in the order of the list.
pub proof fn render_all_shows_every_task(tasks: Seq<TaskView>)
    ensures
        render(tasks, true) == list_all(tasks).map_values(numbered_line()).flatten(),
{
    lemma_filter_keeps_all(list_all(tasks), is_shown(true));
}

/// A filter that every item passes keeps the sequence as it is.
proof fn lemma_filter_keeps_all<A>(items: Seq<A>, pred: spec_fn(A) -> bool)
    requires
        forall|i: int| 0 <= i < items.len() ==> pred(#[trigger] items[i]),
    ensures
        items.filter(pred) == items,
    decreases items.len(),
{
    reveal(Seq::filter);
    if items.len() > 0 {
        lemma_filter_keeps_all(items.drop_last(), pred);
    }
}

/// Without `show_all` the listing holds the tasks that are not checked, and
/// no checked one: each under the index that it has among all tasks.
pub proof fn render_open_leaves_checked_out(tasks: Seq<TaskView>)
    ensures
        ({
            let shown = list_all(tasks).filter(is_shown(false));
            &&& render(tasks, false) == shown.map_values(numbered_line()).flatten()
            &&& forall|k: int|
                0 <= k < shown.len() ==> (#[trigger] shown[k]).1.status != Status::Checked
            &&& forall|k: int| 0 <= k < shown.len() ==> list_all(tasks).contains(#[trigger] shown[k])
            &&& forall|i: int|
                0 <= i < tasks.len() && tasks[i].status != Status::Checked ==> shown.contains(
                    #[trigger] list_all(tasks)[i],
                )
        }),
{
    let items = list_all(tasks);
    let shown = items.filter(is_shown(false));
    assert forall|k: int| 0 <= k < shown.len() implies (#[trigger] shown[k]).1.status
        != Status::Checked && items.contains(shown[k]) by {
        items.lemma_filter_pred(is_shown(false), k);
        items.lemma_filter_contains_rev(is_shown(false), shown[k]);
    }
    assert forall|i: int| 0 <= i < tasks.len() && tasks[i].status != Status::Checked implies
        shown.contains(#[trigger] items[i]) by {
        items.lemma_filter_contains(is_shown(false), i);
    }
}

} // verus!
