//! Next task of a todo.txt list.

use vstd::prelude::*;

use crate::bytes;
use crate::bytes::ProgramOutput;
use crate::markup;
use crate::markup::PolybarActionType;
use crate::numeral;
use crate::polybar_module::{PolybarModuleEnv, RenderablePolybarModule};
use crate::text;
use crate::theme;
use crate::theme::{Color, Palette};

verus! {

#[derive(Debug, PartialEq, Eq)]
pub struct Task {
    pub priority: Option<char>,
    pub text: String,
}

/// A line is no task.
#[derive(Clone, Copy, Debug, PartialEq, Eq, Structural)]
pub struct InvalidTask;

/// Priority of a task line: a character in brackets and a space in front.
pub open spec fn task_priority(s: Seq<char>) -> Option<char> {
    if s.len() >= 4 && s[0] == '(' && s[2] == ')' && s[3] == ' ' {
        Some(s[1])
    } else {
        None
    }
}

/// Text of a task line, behind the priority.
pub open spec fn task_text(s: Seq<char>) -> Seq<char> {
    if task_priority(s) is Some {
        s.skip(4)
    } else {
        s
    }
}

/// The priority and the text make up the whole line.
pub proof fn nothing_of_a_task_is_lost(s: Seq<char>)
    ensures
        s == match task_priority(s) {
            Some(p) => seq!['(', p, ')', ' '] + task_text(s),
            None => task_text(s),
        },
{
    if task_priority(s) is Some {
        assert(s =~= seq!['(', s[1], ')', ' '] + s.skip(4));
    }
}

impl Task {
    /// Reads a task; any single line is one.
    pub fn from_str(s: &str) -> (r: Result<Task, InvalidTask>)
        ensures
            match r {
                Ok(t) => {
                    &&& !s@.contains('\n')
                    &&& t.priority == task_priority(s@)
                    &&& t.text@ == task_text(s@)
                },
                Err(_) => s@.contains('\n'),
            },
    {
        let v = text::chars_of(s);
        let n: usize = v.len();
        let mut i: usize = 0;
        while i < n
            invariant
                i <= n,
                n == v.len(),
                v@ == s@,
                forall|j: int| 0 <= j < i ==> v@[j] != '\n',
            decreases n - i,
        {
            if v[i] == '\n' {
                assert(s@[i as int] == '\n');
                return Err(InvalidTask);
            }
            i += 1;
        }
        if n >= 4 && v[0] == '(' && v[2] == ')' && v[3] == ' ' {
            let rest = text::slice_text(&v, 4, n);
            assert(rest@ =~= s@.skip(4));
            Ok(Task { priority: Some(v[1]), text: rest })
        } else {
            Ok(Task { priority: None, text: s.to_owned() })
        }
    }
}

/// Times are in nanoseconds since the epoch.
#[derive(Debug, PartialEq, Eq)]
pub enum TodoTxtModuleState {
    Active { pending_count: usize, next_task: Option<Task>, last_fs_change: Option<i128> },
    Paused,
}

#[derive(Clone, Copy, Debug, PartialEq, Eq, Structural)]
pub enum TodoTxtError {
    /// `todo` exited with an error.
    ExitStatus,
    /// The output is not UTF-8.
    Encoding,
    /// The output is no task.
    Task,
    /// The output is no number.
    Count,
}

/// What `todo` wrote, without white space at the end.
pub open spec fn todo_text(out: ProgramOutput) -> Result<Seq<char>, TodoTxtError> {
    if !out.success {
        Err(TodoTxtError::ExitStatus)
    } else if !vstd::utf8::valid_utf8(out.stdout@) {
        Err(TodoTxtError::Encoding)
    } else {
        Ok(text::trimmed_end(vstd::utf8::decode_utf8(out.stdout@)))
    }
}

/// The next task in an output of `todo`, as its priority and its text.
pub open spec fn next_task_in(out: ProgramOutput) -> Result<
    Option<(Option<char>, Seq<char>)>,
    TodoTxtError,
> {
    match todo_text(out) {
        Err(e) => Err(e),
        Ok(s) => if s.len() == 0 {
            Ok(None)
        } else if s.contains('\n') {
            Err(TodoTxtError::Task)
        } else {
            Ok(Some((task_priority(s), task_text(s))))
        },
    }
}

/// The number of tasks in an output of `todo`.
pub open spec fn pending_count_in(out: ProgramOutput) -> Result<nat, TodoTxtError> {
    match todo_text(out) {
        Err(e) => Err(e),
        Ok(s) => match numeral::unsigned_value(s, usize::MAX as nat) {
            Some(n) => Ok(n),
            None => Err(TodoTxtError::Count),
        },
    }
}

fn read_text(out: &ProgramOutput) -> (r: Result<String, TodoTxtError>)
    ensures
        match (r, todo_text(*out)) {
            (Ok(a), Ok(b)) => a@ == b,
            (Err(a), Err(b)) => a == b,
            _ => false,
        },
{
    if !out.success {
        return Err(TodoTxtError::ExitStatus);
    }
    match bytes::from_utf8(out.stdout.as_slice()) {
        Some(s) => Ok(text::trim_end(s.as_str())),
        None => Err(TodoTxtError::Encoding),
    }
}

fn read_next_task(out: &ProgramOutput) -> (r: Result<Option<Task>, TodoTxtError>)
    ensures
        match (r, next_task_in(*out)) {
            (Ok(Some(t)), Ok(Some(d))) => t.priority == d.0 && t.text@ == d.1,
            (Ok(None), Ok(None)) => true,
            (Err(a), Err(b)) => a == b,
            _ => false,
        },
{
    match read_text(out) {
        Err(e) => Err(e),
        Ok(s) => if s.as_str().is_empty() {
            Ok(None)
        } else {
            match Task::from_str(s.as_str()) {
                Ok(t) => Ok(Some(t)),
                Err(_) => Err(TodoTxtError::Task),
            }
        },
    }
}

fn read_pending_count(out: &ProgramOutput) -> (r: Result<usize, TodoTxtError>)
    ensures
        match (r, pending_count_in(*out)) {
            (Ok(a), Ok(b)) => a == b,
            (Err(a), Err(b)) => a == b,
            _ => false,
        },
{
    match read_text(out) {
        Err(e) => Err(e),
        Ok(s) => match numeral::parse_unsigned(s.as_str(), usize::MAX as u64) {
            Some(n) => Ok(n as usize),
            None => Err(TodoTxtError::Count),
        },
    }
}

/// What to wait for before the next update.
#[derive(Clone, Copy, Debug, PartialEq, Eq, Structural)]
pub enum TodoTxtWait {
    /// Nothing: update now.
    Update,
    /// A change of the files, then look again.
    Event,
    /// That many seconds, then update.
    Sleep(u64),
}

pub struct TodoTxtModule {
    pub max_len: Option<usize>,
    pub todotxt_filepath: String,
    pub env: PolybarModuleEnv,
}

impl TodoTxtModule {
    pub fn new(max_len: Option<usize>, todotxt_filepath: &str, env: PolybarModuleEnv) -> (r: Self)
        ensures
            r.max_len == max_len,
            r.todotxt_filepath@ == todotxt_filepath@,
            r.env == env,
    {
        TodoTxtModule { max_len, todotxt_filepath: todotxt_filepath.to_owned(), env }
    }

    /// State from what `todo next` and `todo pending-count` left; nothing of it is looked at while
    /// the screen is public.
    pub fn try_update(
        &self,
        public_screen: bool,
        last_fs_change: Option<i128>,
        next: &ProgramOutput,
        count: &ProgramOutput,
    ) -> (r: Result<TodoTxtModuleState, TodoTxtError>)
        ensures
            public_screen ==> r == Ok::<_, TodoTxtError>(TodoTxtModuleState::Paused),
            !public_screen ==> match r {
                Ok(TodoTxtModuleState::Active { pending_count, next_task, last_fs_change: t }) => {
                    &&& t == last_fs_change
                    &&& pending_count_in(*count) == Ok::<nat, TodoTxtError>(pending_count as nat)
                    &&& match (next_task, next_task_in(*next)) {
                        (Some(t), Ok(Some(d))) => t.priority == d.0 && t.text@ == d.1,
                        (None, Ok(None)) => true,
                        _ => false,
                    }
                },
                Ok(TodoTxtModuleState::Paused) => false,
                Err(e) => match next_task_in(*next) {
                    Err(f) => e == f,
                    Ok(_) => pending_count_in(*count) == Err::<nat, TodoTxtError>(e),
                },
            },
    {
        if public_screen {
            return Ok(TodoTxtModuleState::Paused);
        }
        let next_task = match read_next_task(next) {
            Ok(t) => t,
            Err(e) => {
                return Err(e);
            },
        };
        match read_pending_count(count) {
            Ok(pending_count) => Ok(
                TodoTxtModuleState::Active { pending_count, next_task, last_fs_change },
            ),
            Err(e) => Err(e),
        }
    }

    /// What to wait for: a change of the file or a public screen while active, a private screen
    /// while paused, a second after an error.
    pub fn wait_update(
        &self,
        prev_state: Option<&Option<TodoTxtModuleState>>,
        public_screen: bool,
        mtime: Option<i128>,
    ) -> (r: TodoTxtWait)
        ensures
            r == match prev_state {
                None => TodoTxtWait::Update,
                Some(None) => TodoTxtWait::Sleep(1),
                Some(Some(TodoTxtModuleState::Paused)) => if public_screen {
                    TodoTxtWait::Event
                } else {
                    TodoTxtWait::Update
                },
                Some(Some(TodoTxtModuleState::Active { last_fs_change, .. })) => if public_screen
                    || mtime != *last_fs_change {
                    TodoTxtWait::Update
                } else {
                    TodoTxtWait::Event
                },
            },
    {
        match prev_state {
            None => TodoTxtWait::Update,
            Some(None) => TodoTxtWait::Sleep(1),
            Some(Some(TodoTxtModuleState::Paused)) => if public_screen {
                TodoTxtWait::Event
            } else {
                TodoTxtWait::Update
            },
            Some(Some(TodoTxtModuleState::Active { last_fs_change, .. })) => if public_screen
                || changed(mtime, *last_fs_change) {
                TodoTxtWait::Update
            } else {
                TodoTxtWait::Event
            },
        }
    }
}

fn changed(a: Option<i128>, b: Option<i128>) -> (r: bool)
    ensures
        r == (a != b),
{
    match (a, b) {
        (Some(x), Some(y)) => x != y,
        (None, None) => false,
        _ => true,
    }
}

// Rendering

pub open spec fn priority_color(priority: Option<char>) -> Option<Color> {
    if priority == Some('A') {
        Some(Color::Attention)
    } else if priority == Some('B') {
        Some(Color::Notice)
    } else if priority == Some('C') {
        Some(Color::Foreground)
    } else {
        None
    }
}

/// The count and the space behind it.
pub open spec fn count_text(pending_count: usize) -> Seq<char> {
    numeral::decimal_text(pending_count as nat) + " "@
}

/// Room for the task behind the count.
pub open spec fn task_room(max_len: Option<usize>, pending_count: usize) -> Option<usize> {
    match max_len {
        Some(n) => Some((n - text::byte_len(count_text(pending_count))) as usize),
        None => None,
    }
}

pub open spec fn task_fragment(
    max_len: Option<usize>,
    pending_count: usize,
    next_task: Option<Task>,
) -> Seq<char> {
    match next_task {
        Some(t) => markup::styled(
            Palette::SolarizedDark,
            theme::shortened(t.text@, task_room(max_len, pending_count)),
            None,
            priority_color(t.priority),
        ),
        None => "\u{1f60c}"@,
    }
}

/// Whether there is room for the count, and for the ellipsis where the task is cut.
pub open spec fn has_room(
    max_len: Option<usize>,
    pending_count: usize,
    next_task: Option<Task>,
) -> bool {
    &&& match max_len {
        Some(n) => text::byte_len(count_text(pending_count)) <= n,
        None => true,
    }
    &&& match next_task {
        Some(t) => theme::can_shorten(t.text@, task_room(max_len, pending_count)),
        None => true,
    }
}

/// The count and the task together have at most `max_len` characters.
pub proof fn line_is_short(n: usize, pending_count: usize, task: Task)
    requires
        has_room(Some(n), pending_count, Some(task)),
    ensures
        count_text(pending_count).len() + theme::shortened(
            task.text@,
            task_room(Some(n), pending_count),
        ).len() <= n,
{
    text::chars_take_bytes(count_text(pending_count));
    let room = (n - text::byte_len(count_text(pending_count))) as usize;
    theme::shortened_is_short(task.text@, room);
}

fn color_of(priority: Option<char>) -> (r: Option<Color>)
    ensures
        r == priority_color(priority),
{
    match priority {
        Some(c) => if c == 'A' {
            Some(Color::Attention)
        } else if c == 'B' {
            Some(Color::Notice)
        } else if c == 'C' {
            Some(Color::Foreground)
        } else {
            None
        },
        None => None,
    }
}

fn write_count(pending_count: usize) -> (r: String)
    ensures
        r@ == count_text(pending_count),
{
    let mut r = numeral::decimal(pending_count as u64);
    r.append(" ");
    r
}

impl RenderablePolybarModule for TodoTxtModule {
    type State = Option<TodoTxtModuleState>;

    open spec fn renderable(&self, state: &Option<TodoTxtModuleState>) -> bool {
        match state {
            Some(TodoTxtModuleState::Active { pending_count, next_task, .. }) => has_room(
                self.max_len,
                *pending_count,
                *next_task,
            ),
            _ => true,
        }
    }

    open spec fn rendered(&self, state: &Option<TodoTxtModuleState>) -> Seq<char> {
        let icon = markup::styled(
            Palette::SolarizedDark,
            "\u{e938}"@,
            Some(Color::MainIcon),
            None,
        );
        match state {
            Some(TodoTxtModuleState::Active { pending_count, next_task, .. }) => icon + " "@
                + markup::clickable(
                count_text(*pending_count) + task_fragment(
                    self.max_len,
                    *pending_count,
                    *next_task,
                ),
                PolybarActionType::ClickLeft,
                "touch "@ + self.env.public_screen_filepath@,
            ),
            Some(TodoTxtModuleState::Paused) => icon + " "@ + markup::clickable(
                "\u{e9d0}"@,
                PolybarActionType::ClickLeft,
                "rm "@ + self.env.public_screen_filepath@,
            ),
            None => markup::styled(
                Palette::SolarizedDark,
                "\u{e904}"@,
                Some(Color::Attention),
                None,
            ),
        }
    }

    fn can_render(&self, state: &Option<TodoTxtModuleState>) -> (r: bool) {
        match state {
            Some(TodoTxtModuleState::Active { pending_count, next_task, .. }) => {
                let s2 = write_count(*pending_count);
                let used: usize = text::len_bytes(s2.as_str());
                let room: Option<usize> = match self.max_len {
                    Some(n) => if used <= n {
                        Some(n - used)
                    } else {
                        return false;
                    },
                    None => None,
                };
                match next_task {
                    Some(t) => theme::can_ellipsis(t.text.as_str(), room),
                    None => true,
                }
            },
            _ => true,
        }
    }

    fn render(&self, state: &Option<TodoTxtModuleState>) -> (r: String) {
        match state {
            Some(TodoTxtModuleState::Active { pending_count, next_task, .. }) => {
                let mut r = markup::style(
                    Palette::SolarizedDark,
                    "\u{e938}",
                    Some(Color::MainIcon),
                    None,
                );
                r.append(" ");
                let mut s = write_count(*pending_count);
                let used: usize = text::len_bytes(s.as_str());
                let room: Option<usize> = match self.max_len {
                    Some(n) => Some(n - used),
                    None => None,
                };
                let task = match next_task {
                    Some(t) => {
                        let short = theme::ellipsis(t.text.as_str(), room);
                        markup::style(
                            Palette::SolarizedDark,
                            short.as_str(),
                            None,
                            color_of(t.priority),
                        )
                    },
                    None => "\u{1f60c}".to_owned(),
                };
                s.append(task.as_str());
                let mut command = "touch ".to_owned();
                command.append(self.env.public_screen_filepath.as_str());
                let action = markup::action(
                    s.as_str(),
                    PolybarActionType::ClickLeft,
                    command.as_str(),
                );
                r.append(action.as_str());
                r
            },
            Some(TodoTxtModuleState::Paused) => {
                let mut r = markup::style(
                    Palette::SolarizedDark,
                    "\u{e938}",
                    Some(Color::MainIcon),
                    None,
                );
                r.append(" ");
                let mut command = "rm ".to_owned();
                command.append(self.env.public_screen_filepath.as_str());
                let action = markup::action(
                    "\u{e9d0}",
                    PolybarActionType::ClickLeft,
                    command.as_str(),
                );
                r.append(action.as_str());
                r
            },
            None => markup::style(
                Palette::SolarizedDark,
                "\u{e904}",
                Some(Color::Attention),
                None,
            ),
        }
    }
}

// What the tasks stand for

/// A character in brackets and a space in front of a task are its priority; any other line is a task
/// without one.
pub proof fn priorities_stand_in_front(p: char, task: Seq<char>, line: Seq<char>)
    ensures
        task_priority(seq!['(', p, ')', ' '] + task) == Some(p),
        task_text(seq!['(', p, ')', ' '] + task) == task,
        line.len() < 4 || line[0] != '(' || line[2] != ')' || line[3] != ' ' ==> task_priority(line)
            is None && task_text(line) == line,
{
    let s = seq!['(', p, ')', ' '] + task;
    assert(s[0] == '(' && s[1] == p && s[2] == ')' && s[3] == ' ');
    assert(s.skip(4) =~= task);
}

/// The first three priorities are marked, the higher the louder, and no other.
pub proof fn high_priorities_are_marked(p: char)
    ensures
        priority_color(Some('A')) == Some(Color::Attention),
        priority_color(Some('B')) == Some(Color::Notice),
        priority_color(Some('C')) == Some(Color::Foreground),
        p < 'A' || 'C' < p ==> priority_color(Some(p)) is None,
        priority_color(None) is None,
{
    assert('A' < 'B' && 'B' < 'C');
}

/// An empty output tells of no task, one line of a task, and more are an error.
pub proof fn one_line_is_a_task(out: ProgramOutput, s: Seq<char>)
    requires
        todo_text(out) == Ok::<_, TodoTxtError>(s),
    ensures
        s.len() == 0 ==> next_task_in(out) == Ok::<_, TodoTxtError>(
            None::<(Option<char>, Seq<char>)>,
        ),
        s.len() > 0 && !s.contains('\n') ==> next_task_in(out) == Ok::<_, TodoTxtError>(
            Some((task_priority(s), task_text(s))),
        ),
        s.contains('\n') ==> next_task_in(out) == Err::<Option<(Option<char>, Seq<char>)>, _>(
            TodoTxtError::Task,
        ),
{
}

/// A program that ended badly tells nothing, nor one whose output is no text; else it tells its
/// output without the white space at the end.
pub proof fn outputs_are_texts(out: ProgramOutput)
    ensures
        !out.success ==> todo_text(out) == Err::<Seq<char>, _>(TodoTxtError::ExitStatus),
        out.success && !vstd::utf8::valid_utf8(out.stdout@) ==> todo_text(out) == Err::<
            Seq<char>,
            _,
        >(TodoTxtError::Encoding),
        out.success && vstd::utf8::valid_utf8(out.stdout@) ==> todo_text(out) == Ok::<
            _,
            TodoTxtError,
        >(text::trimmed_end(vstd::utf8::decode_utf8(out.stdout@))),
        todo_text(out) is Err ==> next_task_in(out) is Err && pending_count_in(out) is Err,
{
}

/// A number is the number of tasks, and anything else an error.
pub proof fn counts_are_read(out: ProgramOutput, n: nat)
    requires
        n <= usize::MAX,
        todo_text(out) == Ok::<_, TodoTxtError>(numeral::decimal_text(n)),
    ensures
        pending_count_in(out) == Ok::<_, TodoTxtError>(n),
{
    numeral::decimal_reads_back(n);
}

/// Without a next task a face is shown; else the task, over a line of the color of its priority, cut
/// to what is left behind the count.
pub proof fn tasks_are_shown_behind_the_count(n: usize, pending_count: usize, task: Task)
    requires
        has_room(Some(n), pending_count, Some(task)),
        task.priority is None,
    ensures
        ({
            let used = text::byte_len(numeral::decimal_text(pending_count as nat) + " "@);
            &&& used <= n
            &&& task_fragment(Some(n), pending_count, Some(task)) == theme::shortened(
                task.text@,
                Some((n - used) as usize),
            )
        }),
        task_fragment(None, pending_count, Some(task)) == task.text@,
        task_fragment(None, pending_count, None) == "\u{1f60c}"@,
{
}

}
