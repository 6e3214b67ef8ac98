//! Next task of Taskwarrior.

use vstd::arithmetic::power2::*;
use vstd::prelude::*;

use crate::bytes;
use crate::bytes::ProgramOutput;
use crate::double::Double;
use crate::markup;
use crate::numeral;
use crate::polybar_module::{join_path, path_below, RenderablePolybarModule};
use crate::text;
use crate::theme::{Color, Palette};

verus! {

broadcast use crate::text::texts_push;

/// Times are in nanoseconds since the epoch.
#[derive(Debug, PartialEq, Eq)]
pub struct TaskwarriorModuleState {
    pub pending_count: usize,
    pub next_task: String,
    pub next_task_project: Option<String>,
    pub next_task_urgency: Double,
    pub last_fs_change: i128,
}

#[derive(Clone, Copy, Debug, PartialEq, Eq, Structural)]
pub enum TaskwarriorError {
    /// `task` exited with an error.
    ExitStatus,
    /// The output does not tell the data directory.
    DataLocation,
    /// The output is no number.
    Count,
    /// The urgency is no number.
    Urgency,
    /// The output holds no task.
    Task,
}

pub struct TaskwarriorModule {
    pub max_len: Option<usize>,
    pub data_dir: String,
}

// Data directory

/// Whether a path starts with the home directory.
pub open spec fn starts_at_home(s: Seq<char>) -> bool {
    s.len() > 0 && s[0] == '~' && (s.len() == 1 || s[1] == '/')
}

/// `shellexpand::tilde`: a path that starts with the home directory is written out, any other is
/// left as it is. Where the home directory is depends on the environment and is not stated; where
/// it is not known, the tilde stays.
#[verifier::external_body]
fn expand_tilde(s: &str) -> (r: String)
    ensures
        !starts_at_home(s@) ==> r@ == s@,
        starts_at_home(s@) ==> text::has_suffix(r@, s@.skip(1)),
{
    shellexpand::tilde(s).into_owned()
}

/// The data directory in an output of `task show`, as it is written there.
pub open spec fn data_location(s: Seq<char>) -> Option<Seq<char>> {
    match text::first_line_with(text::line_seq(s), "data.location"@) {
        Some(l) => Some(text::trimmed(text::fields_of(l, ' ').last())),
        None => None,
    }
}

/// Reads the data directory in a text of `task show`, as it is written there.
pub fn read_data_location(s: &str) -> (r: Option<String>)
    ensures
        match r {
            Some(d) => data_location(s@) == Some(d@),
            None => data_location(s@) is None,
        },
{
    let lines = text::lines(s);
    match text::find_line(&lines, "data.location") {
        Some(l) => {
            let parts = text::split(l.as_str(), ' ');
            let n: usize = parts.len();
            assert(text::texts(parts@).last() == parts[n - 1]@);
            Some(text::trim(parts[n - 1].as_str()))
        },
        None => None,
    }
}

// Output of task

/// What `task` wrote.
pub open spec fn task_text(out: ProgramOutput) -> Option<Seq<char>> {
    if out.success {
        Some(bytes::lossy_text(out.stdout@))
    } else {
        None
    }
}

fn read_text(out: &ProgramOutput) -> (r: Option<String>)
    ensures
        match r {
            Some(s) => task_text(*out) == Some(s@),
            None => task_text(*out) is None,
        },
{
    if out.success {
        Some(bytes::from_utf8_lossy(out.stdout.as_slice()))
    } else {
        None
    }
}

/// Number of pending tasks in a text of `task count`.
pub open spec fn pending_count_in(s: Seq<char>) -> Option<nat> {
    numeral::unsigned_value(text::trimmed(s), usize::MAX as nat)
}

/// Reads the number of pending tasks.
pub fn read_pending_count(s: &str) -> (r: Option<usize>)
    ensures
        match r {
            Some(n) => pending_count_in(s@) == Some(n as nat),
            None => pending_count_in(s@) is None,
        },
{
    let t = text::trim(s);
    match numeral::parse_unsigned(t.as_str(), usize::MAX as u64) {
        Some(n) => Some(n as usize),
        None => None,
    }
}

/// Urgency and description in a text of `task next`: the first word, and what follows where
/// anything does.
pub open spec fn urgency_and_task(s: Seq<char>) -> (Seq<char>, Option<Seq<char>>) {
    match text::cut_at(text::trimmed(s), ' ') {
        Some((a, b)) => (a, Some(b)),
        None => (text::trimmed(s), None),
    }
}

/// Reads the urgency and the description of the next task.
pub fn read_next_task(s: &str) -> (r: (String, Option<String>))
    ensures
        r.0@ == urgency_and_task(s@).0,
        match (r.1, urgency_and_task(s@).1) {
            (Some(a), Some(b)) => a@ == b,
            (None, None) => true,
            _ => false,
        },
{
    let t = text::trim(s);
    match text::cut(t.as_str(), ' ') {
        Some((a, b)) => (a, Some(b)),
        None => (t, None),
    }
}

/// Reads the project of the next task; none where the text is blank.
pub fn read_project(s: &str) -> (r: Option<String>)
    ensures
        match r {
            Some(p) => p@ == text::trimmed(s@) && p@.len() > 0,
            None => text::trimmed(s@).len() == 0,
        },
{
    let t = text::trim(s);
    if t.as_str().is_empty() {
        None
    } else {
        Some(t)
    }
}

/// Arguments of `task`, behind those that keep it from writing and changing more than it should.
fn task_args(rest: Vec<String>) -> (r: Vec<String>)
    ensures
        text::texts(r@) == seq!["rc.verbose:nothing"@, "rc.gc:off"@, "recurrence.limit=0"@]
            + text::texts(rest@),
{
    let mut r: Vec<String> = Vec::new();
    r.push("rc.verbose:nothing".to_owned());
    r.push("rc.gc:off".to_owned());
    r.push("recurrence.limit=0".to_owned());
    let ghost head = text::texts(r@);
    let ghost all = text::texts(rest@);
    assert(head =~= seq!["rc.verbose:nothing"@, "rc.gc:off"@, "recurrence.limit=0"@]);
    assert(head + all.take(0) =~= head);
    let mut i: usize = 0;
    while i < rest.len()
        invariant
            i <= rest.len(),
            all == text::texts(rest@),
            text::texts(r@) == head + all.take(i as int),
        decreases rest.len() - i,
    {
        r.push(rest[i].clone());
        i += 1;
        assert(head + all.take(i as int) =~= (head + all.take(i - 1)).push(all[i - 1]));
    }
    assert(all.take(i as int) =~= all);
    r
}

/// Arguments for the number of pending tasks.
pub fn count_args() -> (r: Vec<String>)
    ensures
        text::texts(r@) == seq![
            "rc.verbose:nothing"@,
            "rc.gc:off"@,
            "recurrence.limit=0"@,
            "status:pending"@,
            "count"@,
        ],
{
    let mut rest: Vec<String> = Vec::new();
    rest.push("status:pending".to_owned());
    rest.push("count".to_owned());
    let r = task_args(rest);
    assert(text::texts(r@) =~= seq![
        "rc.verbose:nothing"@,
        "rc.gc:off"@,
        "recurrence.limit=0"@,
        "status:pending"@,
        "count"@,
    ]);
    r
}

/// Arguments for the given columns of the next task.
pub fn next_args(columns: &str) -> (r: Vec<String>)
    ensures
        text::texts(r@) == seq![
            "rc.verbose:nothing"@,
            "rc.gc:off"@,
            "recurrence.limit=0"@,
            "rc.report.next.columns:"@ + columns@,
            "rc.report.next.labels:"@,
            "limit:1"@,
            "next"@,
        ],
{
    let mut first = "rc.report.next.columns:".to_owned();
    first.append(columns);
    let mut rest: Vec<String> = Vec::new();
    rest.push(first);
    rest.push("rc.report.next.labels:".to_owned());
    rest.push("limit:1".to_owned());
    rest.push("next".to_owned());
    let r = task_args(rest);
    assert(text::texts(r@) =~= seq![
        "rc.verbose:nothing"@,
        "rc.gc:off"@,
        "recurrence.limit=0"@,
        "rc.report.next.columns:"@ + columns@,
        "rc.report.next.labels:"@,
        "limit:1"@,
        "next"@,
    ]);
    r
}

// Shortening

/// Where a text that is too long is cut.
pub open spec fn cut_position(max_len: usize) -> nat {
    (max_len - 1) as nat
}

/// Whether `s` can be shortened to `max_len` bytes.
pub open spec fn can_shorten(s: Seq<char>, max_len: Option<usize>) -> bool {
    match max_len {
        Some(n) => text::byte_len(text::trimmed_end(s)) > n ==> n > 0 && text::can_truncate(
            text::trimmed_end(s),
            cut_position(n),
        ),
        None => true,
    }
}

/// `s` where it has at most `max_len` bytes; else `s` without trailing white space where that
/// has; else its first `max_len - 1` bytes and an ellipsis.
pub open spec fn shortened(s: Seq<char>, max_len: Option<usize>) -> Seq<char> {
    match max_len {
        Some(n) => {
            let t = text::trimmed_end(s);
            if text::byte_len(s) <= n {
                s
            } else if text::byte_len(t) <= n {
                t
            } else {
                text::truncated(t, cut_position(n)).push('…')
            }
        },
        None => s,
    }
}

/// A shortened text has at most `max_len` characters, the ellipsis included.
pub proof fn shortened_is_short(s: Seq<char>, n: usize)
    requires
        can_shorten(s, Some(n)),
    ensures
        shortened(s, Some(n)).len() <= n,
{
    let t = text::trimmed_end(s);
    if text::byte_len(s) <= n {
        text::chars_take_bytes(s);
    } else if text::byte_len(t) <= n {
        text::chars_take_bytes(t);
    } else {
        text::truncated_fits(t, cut_position(n));
        text::chars_take_bytes(text::truncated(t, cut_position(n)));
    }
}

impl TaskwarriorModule {
    pub fn new(max_len: Option<usize>, data_dir: &str) -> (r: Self)
        ensures
            r.max_len == max_len,
            r.data_dir@ == data_dir@,
    {
        TaskwarriorModule { max_len, data_dir: data_dir.to_owned() }
    }

    /// A module for the data directory that `task show data.location` wrote.
    pub fn from_data_location(max_len: Option<usize>, out: &ProgramOutput) -> (r: Result<
        Self,
        TaskwarriorError,
    >)
        ensures
            match r {
                Ok(m) => {
                    &&& m.max_len == max_len
                    &&& out.success
                    &&& match data_location(bytes::lossy_text(out.stdout@)) {
                        Some(d) => if starts_at_home(d) {
                            text::has_suffix(m.data_dir@, d.skip(1))
                        } else {
                            m.data_dir@ == d
                        },
                        None => false,
                    }
                },
                Err(e) => if out.success {
                    &&& e == TaskwarriorError::DataLocation
                    &&& data_location(bytes::lossy_text(out.stdout@)) is None
                } else {
                    e == TaskwarriorError::ExitStatus
                },
            },
    {
        match read_text(out) {
            None => Err(TaskwarriorError::ExitStatus),
            Some(s) => match read_data_location(s.as_str()) {
                None => Err(TaskwarriorError::DataLocation),
                Some(d) => {
                    let data_dir = expand_tilde(d.as_str());
                    Ok(TaskwarriorModule { max_len, data_dir })
                },
            },
        }
    }

    /// Files whose changes are waited for.
    pub fn data_files(&self) -> (r: Vec<String>)
        ensures
            text::texts(r@) == seq![
                path_below(self.data_dir@, "completed.data"@),
                path_below(self.data_dir@, "pending.data"@),
            ],
    {
        let mut r: Vec<String> = Vec::new();
        r.push(join_path(self.data_dir.as_str(), "completed.data"));
        r.push(join_path(self.data_dir.as_str(), "pending.data"));
        assert(text::texts(r@) =~= seq![
            path_below(self.data_dir@, "completed.data"@),
            path_below(self.data_dir@, "pending.data"@),
        ]);
        r
    }

    /// The later of the times at which the data files were changed, of those that exist.
    pub fn get_max_task_data_file_mtime(&self, completed: Option<i128>, pending: Option<i128>) -> (r:
        i128)
        requires
            completed is Some || pending is Some,
        ensures
            completed == Some(r) || pending == Some(r),
            completed matches Some(t) ==> t <= r,
            pending matches Some(t) ==> t <= r,
    {
        match (completed, pending) {
            (Some(a), Some(b)) => if a > b {
                a
            } else {
                b
            },
            (Some(a), None) => a,
            (None, Some(b)) => b,
            (None, None) => 0,
        }
    }

    /// Whether the data files were changed since the last update.
    pub fn is_stale(&self, prev_state: &TaskwarriorModuleState, max_mtime: i128) -> (r: bool)
        ensures
            r == (max_mtime > prev_state.last_fs_change),
    {
        max_mtime > prev_state.last_fs_change
    }

    /// State from what `task` wrote for the count, for the urgency and the description, and for
    /// the project; `urgency` is the urgency read as a number, where it is one.
    pub fn try_update(
        &self,
        count: &ProgramOutput,
        next: &ProgramOutput,
        urgency: Option<Double>,
        project: &ProgramOutput,
        last_fs_change: i128,
    ) -> (r: Result<TaskwarriorModuleState, TaskwarriorError>)
        ensures
            match r {
                Ok(s) => {
                    &&& count.success && next.success && project.success
                    &&& pending_count_in(bytes::lossy_text(count.stdout@)) == Some(
                        s.pending_count as nat,
                    )
                    &&& urgency == Some(s.next_task_urgency)
                    &&& urgency_and_task(bytes::lossy_text(next.stdout@)).1 == Some(s.next_task@)
                    &&& match s.next_task_project {
                        Some(p) => {
                            &&& p@ == text::trimmed(bytes::lossy_text(project.stdout@))
                            &&& p@.len() > 0
                        },
                        None => text::trimmed(bytes::lossy_text(project.stdout@)).len() == 0,
                    }
                    &&& s.last_fs_change == last_fs_change
                },
                Err(e) => e == update_error(*count, *next, urgency, *project),
            },
            r is Err <==> (!count.success || !next.success || !project.success || urgency is None
                || pending_count_in(bytes::lossy_text(count.stdout@)) is None || urgency_and_task(
                bytes::lossy_text(next.stdout@),
            ).1 is None),
    {
        let pending_count: usize = match read_text(count) {
            None => {
                return Err(TaskwarriorError::ExitStatus);
            },
            Some(s) => match read_pending_count(s.as_str()) {
                None => {
                    return Err(TaskwarriorError::Count);
                },
                Some(n) => n,
            },
        };
        let next_task = match read_text(next) {
            None => {
                return Err(TaskwarriorError::ExitStatus);
            },
            Some(s) => {
                let (_token, task) = read_next_task(s.as_str());
                if urgency.is_none() {
                    return Err(TaskwarriorError::Urgency);
                }
                match task {
                    None => {
                        return Err(TaskwarriorError::Task);
                    },
                    Some(t) => t,
                }
            },
        };
        let next_task_urgency = match urgency {
            Some(u) => u,
            None => {
                return Err(TaskwarriorError::Urgency);
            },
        };
        match read_text(project) {
            None => Err(TaskwarriorError::ExitStatus),
            Some(s) => {
                let next_task_project = read_project(s.as_str());
                Ok(
                    TaskwarriorModuleState {
                        pending_count,
                        next_task,
                        next_task_project,
                        next_task_urgency,
                        last_fs_change,
                    },
                )
            },
        }
    }

    /// Shortens a text to `max_len` bytes, with an ellipsis where something but white space is
    /// cut.
    pub fn ellipsis(s: &str, max_len: Option<usize>) -> (r: String)
        requires
            can_shorten(s@, max_len),
        ensures
            r@ == shortened(s@, max_len),
    {
        match max_len {
            Some(n) => if text::len_bytes(s) > n {
                let t = text::trim_end(s);
                if text::len_bytes(t.as_str()) > n {
                    let mut r = text::truncate(t.as_str(), n - 1);
                    r.push('…');
                    r
                } else {
                    t
                }
            } else {
                s.to_owned()
            },
            None => s.to_owned(),
        }
    }

    /// Whether a text can be shortened to `max_len` bytes.
    pub fn can_ellipsis(s: &str, max_len: Option<usize>) -> (r: bool)
        ensures
            r == can_shorten(s@, max_len),
    {
        match max_len {
            Some(n) => {
                let t = text::trim_end(s);
                text::len_bytes(t.as_str()) <= n || (n > 0 && text::truncates(t.as_str(), n - 1))
            },
            None => true,
        }
    }
}

/// The first thing that is wrong with the outputs.
pub open spec fn update_error(
    count: ProgramOutput,
    next: ProgramOutput,
    urgency: Option<Double>,
    project: ProgramOutput,
) -> TaskwarriorError {
    if !count.success {
        TaskwarriorError::ExitStatus
    } else if pending_count_in(bytes::lossy_text(count.stdout@)) is None {
        TaskwarriorError::Count
    } else if !next.success {
        TaskwarriorError::ExitStatus
    } else if urgency is None {
        TaskwarriorError::Urgency
    } else if urgency_and_task(bytes::lossy_text(next.stdout@)).1 is None {
        TaskwarriorError::Task
    } else {
        TaskwarriorError::ExitStatus
    }
}

// Rendering

/// The count and the space behind it.
pub open spec fn count_text(pending_count: usize) -> Seq<char> {
    numeral::decimal_text(pending_count as nat) + " "@
}

/// Room for the project: a third of what is left behind the count, where not all of it fits.
pub open spec fn project_room(max_len: Option<usize>, s: TaskwarriorModuleState) -> Option<usize> {
    match (max_len, s.next_task_project) {
        (Some(n), Some(p)) => if text::byte_len(count_text(s.pending_count)) + text::byte_len(p@)
            + 3 + text::byte_len(s.next_task@) > n {
            Some(((n - text::byte_len(count_text(s.pending_count)) - 3) / 3) as usize)
        } else {
            None
        },
        _ => None,
    }
}

pub open spec fn project_text(max_len: Option<usize>, s: TaskwarriorModuleState) -> Seq<char> {
    match s.next_task_project {
        Some(p) => "["@ + shortened(p@, project_room(max_len, s)) + "] "@,
        None => Seq::empty(),
    }
}

/// Room for the task, behind the count and the project.
pub open spec fn task_room(max_len: Option<usize>, s: TaskwarriorModuleState) -> Option<usize> {
    match max_len {
        Some(n) => Some(
            (n - text::byte_len(count_text(s.pending_count)) - project_text(
                max_len,
                s,
            ).len()) as usize,
        ),
        None => None,
    }
}

pub open spec fn urgency_color(urgency: Double) -> Option<Color> {
    if urgency.is_above(19, 1) {
        Some(Color::Attention)
    } else if urgency.is_above(17, 1) {
        Some(Color::Notice)
    } else if urgency.is_above(15, 1) {
        Some(Color::Foreground)
    } else {
        None
    }
}

/// Whether there is room for the count, the project and the ellipses.
pub open spec fn has_room(max_len: Option<usize>, s: TaskwarriorModuleState) -> bool {
    let used = text::byte_len(count_text(s.pending_count));
    &&& match (max_len, s.next_task_project) {
        (Some(n), Some(p)) => {
            &&& used + text::byte_len(p@) + 3 + text::byte_len(s.next_task@) <= usize::MAX
            &&& used + text::byte_len(p@) + 3 + text::byte_len(s.next_task@) > n ==> used + 3 <= n
        },
        _ => true,
    }
    &&& match s.next_task_project {
        Some(p) => can_shorten(p@, project_room(max_len, s)),
        None => true,
    }
    &&& match max_len {
        Some(n) => used + project_text(max_len, s).len() <= n,
        None => true,
    }
    &&& can_shorten(s.next_task@, task_room(max_len, s))
}

/// The count, the project and the task together have at most `max_len` characters.
pub proof fn line_is_short(n: usize, s: TaskwarriorModuleState)
    requires
        has_room(Some(n), s),
    ensures
        count_text(s.pending_count).len() + project_text(Some(n), s).len() + shortened(
            s.next_task@,
            task_room(Some(n), s),
        ).len() <= n,
{
    text::chars_take_bytes(count_text(s.pending_count));
    let room = (n - text::byte_len(count_text(s.pending_count)) - project_text(
        Some(n),
        s,
    ).len()) as usize;
    shortened_is_short(s.next_task@, room);
}

fn color_of(urgency: Double) -> (r: Option<Color>)
    ensures
        r == urgency_color(urgency),
{
    if urgency.above(19, 1) {
        Some(Color::Attention)
    } else if urgency.above(17, 1) {
        Some(Color::Notice)
    } else if urgency.above(15, 1) {
        Some(Color::Foreground)
    } else {
        None
    }
}

fn write_count(pending_count: usize) -> (r: String)
    ensures
        r@ == count_text(pending_count),
{
    let mut r = numeral::decimal(pending_count as u64);
    r.append(" ");
    r
}

fn write_project(project: &Option<String>, room: Option<usize>) -> (r: String)
    requires
        match project {
            Some(p) => can_shorten(p@, room),
            None => true,
        },
    ensures
        r@ == match project {
            Some(p) => "["@ + shortened(p@, room) + "] "@,
            None => Seq::empty(),
        },
{
    match project {
        Some(p) => {
            let mut r = "[".to_owned();
            let e = TaskwarriorModule::ellipsis(p.as_str(), room);
            r.append(e.as_str());
            r.append("] ");
            r
        },
        None => String::new(),
    }
}

impl RenderablePolybarModule for TaskwarriorModule {
    type State = Option<TaskwarriorModuleState>;

    open spec fn renderable(&self, state: &Option<TaskwarriorModuleState>) -> bool {
        match state {
            Some(s) => has_room(self.max_len, *s),
            None => true,
        }
    }

    open spec fn rendered(&self, state: &Option<TaskwarriorModuleState>) -> Seq<char> {
        match state {
            Some(s) => markup::styled(
                Palette::SolarizedDark,
                "\u{e938}"@,
                Some(Color::MainIcon),
                None,
            ) + " "@ + count_text(s.pending_count) + markup::styled(
                Palette::SolarizedDark,
                project_text(self.max_len, *s) + shortened(
                    s.next_task@,
                    task_room(self.max_len, *s),
                ),
                None,
                urgency_color(s.next_task_urgency),
            ),
            None => markup::styled(
                Palette::SolarizedDark,
                "\u{e904}"@,
                Some(Color::Attention),
                None,
            ),
        }
    }

    fn can_render(&self, state: &Option<TaskwarriorModuleState>) -> (r: bool) {
        match state {
            Some(s) => {
                let s2 = write_count(s.pending_count);
                let used: usize = text::len_bytes(s2.as_str());
                let mut room: Option<usize> = None;
                if let Some(n) = self.max_len {
                    if let Some(p) = &s.next_task_project {
                        let all: u128 = used as u128 + text::len_bytes(p.as_str()) as u128 + 3
                            + text::len_bytes(s.next_task.as_str()) as u128;
                        if all > usize::MAX as u128 {
                            return false;
                        }
                        if all > n as u128 {
                            if used as u128 + 3 > n as u128 {
                                return false;
                            }
                            room = Some((n - used - 3) / 3);
                        }
                    }
                }
                if let Some(p) = &s.next_task_project {
                    if !Self::can_ellipsis(p.as_str(), room) {
                        return false;
                    }
                }
                let s3 = write_project(&s.next_task_project, room);
                let project_len: usize = text::chars_of(s3.as_str()).len();
                let task: Option<usize> = match self.max_len {
                    Some(n) => if used > n || project_len > n - used {
                        return false;
                    } else {
                        Some(n - used - project_len)
                    },
                    None => None,
                };
                Self::can_ellipsis(s.next_task.as_str(), task)
            },
            None => true,
        }
    }

    fn render(&self, state: &Option<TaskwarriorModuleState>) -> (r: String) {
        match state {
            Some(s) => {
                let mut r = markup::style(
                    Palette::SolarizedDark,
                    "\u{e938}",
                    Some(Color::MainIcon),
                    None,
                );
                r.append(" ");
                let s2 = write_count(s.pending_count);
                let used: usize = text::len_bytes(s2.as_str());
                let mut room: Option<usize> = None;
                if let Some(n) = self.max_len {
                    if let Some(p) = &s.next_task_project {
                        if used + text::len_bytes(p.as_str()) + 3 + text::len_bytes(
                            s.next_task.as_str(),
                        ) > n {
                            room = Some((n - used - 3) / 3);
                        }
                    }
                }
                let mut s3 = write_project(&s.next_task_project, room);
                let project_len: usize = text::chars_of(s3.as_str()).len();
                let task: Option<usize> = match self.max_len {
                    Some(n) => Some(n - used - project_len),
                    None => None,
                };
                let s4 = Self::ellipsis(s.next_task.as_str(), task);
                s3.append(s4.as_str());
                let styled = markup::style(
                    Palette::SolarizedDark,
                    s3.as_str(),
                    None,
                    color_of(s.next_task_urgency),
                );
                r.append(s2.as_str());
                r.append(styled.as_str());
                r
            },
            None => markup::style(
                Palette::SolarizedDark,
                "\u{e904}",
                Some(Color::Attention),
                None,
            ),
        }
    }
}

// What the outputs stand for

/// A path starts at the home directory exactly if it is a tilde, alone or in front of a slash.
pub proof fn tildes_stand_for_home(rest: Seq<char>, c: char)
    ensures
        starts_at_home(seq!['~']),
        starts_at_home(seq!['~', '/'] + rest),
        c != '/' ==> !starts_at_home(seq!['~', c] + rest),
        c != '~' ==> !starts_at_home(seq![c] + rest),
        !starts_at_home(Seq::empty()),
{
    let a = seq!['~', '/'] + rest;
    let b = seq!['~', c] + rest;
    let d = seq![c] + rest;
    assert(a[0] == '~' && a[1] == '/' && b[1] == c && d[0] == c);
}

/// The data directory is the last word of the first line about it.
pub proof fn the_last_word_is_the_directory(
    middle: Seq<char>,
    dir: Seq<char>,
    rest: Seq<char>,
)
    requires
        !middle.contains('\n'),
        !dir.contains('\n'),
        !dir.contains(' '),
        dir.len() > 0,
        !text::is_space(dir[0]),
        !text::is_space(dir.last()),
    ensures
        data_location("data.location"@ + middle + seq![' '] + dir + seq!['\n'] + rest) == Some(dir),
{
    reveal_strlit("data.location");
    let key = "data.location"@;
    let head = key + middle;
    let line = head + seq![' '] + dir;
    assert forall|i: int| 0 <= i < line.len() implies line[i] != '\n' by {
        if key.len() <= i < head.len() {
            assert(middle.contains(middle[i - key.len()]));
        }
        if i > head.len() {
            assert(dir.contains(dir[i - head.len() - 1]));
        }
    }
    text::line_feeds_end_lines(line, rest);
    assert(line.last() == dir.last());
    assert(text::is_space('\r'));
    let all = "data.location"@ + middle + seq![' '] + dir + seq!['\n'] + rest;
    assert(all =~= line + seq!['\n'] + rest);
    let e = Seq::<Seq<char>>::empty();
    text::the_first_such_line_is_found(e, line, text::line_seq(rest), key);
    assert(line.take(key.len() as int) =~= key);
    assert(e + seq![line] + text::line_seq(rest) =~= text::line_seq(all));
    text::fields_of_both(head, dir, ' ');
    text::whole_is_a_field(dir, ' ');
    text::fields_nonempty(head, ' ', ' ');
    assert(text::fields_of(line, ' ').last() == dir);
}

/// A number with a line feed behind it is the number of tasks.
pub proof fn counts_are_read(n: nat)
    requires
        n <= usize::MAX,
    ensures
        pending_count_in(numeral::decimal_text(n).push('\n')) == Some(n),
{
    numeral::lines_of_digits_are_read(n, usize::MAX as nat);
    numeral::decimal_reads_back(n);
    text::white_space_is_cut_off(numeral::decimal_text(n), '\n');
}

/// The first word is the urgency, and all that follows the task; a single word is no task.
pub proof fn the_urgency_comes_first(urgency: Seq<char>, task: Seq<char>)
    requires
        urgency.len() > 0,
        !text::is_space(urgency[0]),
        !text::is_space(urgency.last()),
        !urgency.contains(' '),
        task.len() > 0,
        !text::is_space(task.last()),
    ensures
        urgency_and_task((urgency + seq![' '] + task).push('\n')) == (urgency, Some(task)),
        urgency_and_task(urgency.push('\n')) == (urgency, None::<Seq<char>>),
{
    let s = urgency + seq![' '] + task;
    text::white_space_is_cut_off(s, '\n');
    text::white_space_is_cut_off(urgency, '\n');
    assert(s.last() == task.last());
    assert(s[0] == urgency[0]);
    text::the_first_separator_cuts(urgency, task, ' ');
}

/// A text that is too long is cut to a start of it that fits with an ellipsis; one that fits is kept.
pub proof fn shortened_texts_start_alike(s: Seq<char>, n: usize)
    requires
        can_shorten(s, Some(n)),
    ensures
        text::byte_len(s) <= n ==> shortened(s, Some(n)) == s,
        text::byte_len(s) > n >= text::byte_len(text::trimmed_end(s)) ==> shortened(s, Some(n))
            == text::trimmed_end(s),
        text::byte_len(text::trimmed_end(s)) > n ==> shortened(s, Some(n)).len() > 0 && shortened(
            s,
            Some(n),
        ).last() == '…' && text::has_prefix(s, shortened(s, Some(n)).drop_last())
            && text::byte_len(shortened(s, Some(n)).drop_last()) == n - 1,
        shortened(s, None) == s,
{
    let t = text::trimmed_end(s);
    text::trimmed_end_is_tight(s);
    text::byte_len_take(s, t.len() as int);
    if text::byte_len(t) > n {
        let c = text::truncated(t, cut_position(n));
        text::truncation_keeps_the_longest_start(t, cut_position(n), 0);
        assert(c.push('…').drop_last() =~= c);
        assert(s.take(c.len() as int) =~= c) by {
            assert(s.take(t.len() as int).take(c.len() as int) =~= s.take(c.len() as int));
        }
    }
}

/// Where the whole line fits the project is shown as it is, and else it has a third of the room
/// behind the count.
pub proof fn projects_have_a_third(n: usize, s: TaskwarriorModuleState)
    requires
        has_room(Some(n), s),
        s.next_task_project is Some,
    ensures
        ({
            let p = s.next_task_project->0@;
            let used = text::byte_len(numeral::decimal_text(s.pending_count as nat) + " "@);
            let all = used + text::byte_len(p) + 3 + text::byte_len(s.next_task@);
            &&& all <= n ==> project_text(Some(n), s) == "["@ + p + "] "@
            &&& all > n ==> 3 * (project_text(Some(n), s).len() - 3) <= n - used - 3
            &&& project_text(None, s) == "["@ + p + "] "@
        }),
{
    reveal_strlit("[");
    reveal_strlit("] ");
    if project_room(Some(n), s) is Some {
        shortened_is_short(s.next_task_project->0@, project_room(Some(n), s)->0);
    }
}

/// Without a project none is shown.
pub proof fn tasks_may_have_no_project(max_len: Option<usize>, s: TaskwarriorModuleState)
    requires
        s.next_task_project is None,
    ensures
        project_text(max_len, s).len() == 0,
{
}

/// A task is marked above an urgency of 7.5, more so above 8.5, and the most above 9.5.
pub proof fn urgent_tasks_are_marked(urgency: Double)
    requires
        !urgency.is_nan(),
    ensures
        ({
            let half = pow2(1074) as int;
            let twice = 2 * urgency.units();
            &&& urgency_color(urgency) is None <==> twice <= 15 * half
            &&& urgency_color(urgency) == Some(Color::Foreground) <==> 15 * half < twice <= 17
                * half
            &&& urgency_color(urgency) == Some(Color::Notice) <==> 17 * half < twice <= 19 * half
            &&& urgency_color(urgency) == Some(Color::Attention) <==> twice > 19 * half
        }),
{
    lemma2_to64();
    lemma_pow2_pos(1074);
    let u = urgency.units();
    assert(u * pow2(1) == 2 * u) by (nonlinear_arith)
        requires
            pow2(1) == 2,
    ;
}

/// The outputs are looked at in the order in which they are asked for, and the first that is wrong
/// tells the error.
pub proof fn the_first_wrong_output_counts(
    count: ProgramOutput,
    next: ProgramOutput,
    urgency: Option<Double>,
    project: ProgramOutput,
)
    ensures
        ({
            let e = update_error(count, next, urgency, project);
            let n = pending_count_in(bytes::lossy_text(count.stdout@));
            let task = urgency_and_task(bytes::lossy_text(next.stdout@)).1;
            &&& !count.success ==> e == TaskwarriorError::ExitStatus
            &&& count.success && n is None ==> e == TaskwarriorError::Count
            &&& count.success && n is Some && !next.success ==> e == TaskwarriorError::ExitStatus
            &&& count.success && n is Some && next.success && urgency is None ==> e
                == TaskwarriorError::Urgency
            &&& count.success && n is Some && next.success && urgency is Some && task is None ==> e
                == TaskwarriorError::Task
            &&& count.success && n is Some && next.success && urgency is Some && task is Some ==> e
                == TaskwarriorError::ExitStatus
        }),
{
}

/// The task has all the room that the count and the project leave.
pub proof fn tasks_have_the_rest(n: usize, s: TaskwarriorModuleState)
    requires
        has_room(Some(n), s),
    ensures
        task_room(Some(n), s) matches Some(room) && room + text::byte_len(
            numeral::decimal_text(s.pending_count as nat) + " "@,
        ) + project_text(Some(n), s).len() == n,
        task_room(None, s) is None,
{
}

/// What `task` wrote counts exactly if it ended well.
pub proof fn failed_programs_tell_nothing(out: ProgramOutput)
    ensures
        task_text(out) is Some <==> out.success,
        task_text(out) matches Some(s) ==> s == bytes::lossy_text(out.stdout@),
{
}

}
