//! The process that uses the processor most.

use vstd::prelude::*;

use crate::bytes;
use crate::double::Double;
use crate::markup::Markup;
use crate::markup;
use crate::numeral;
use crate::polybar_module::RenderablePolybarModule;
use crate::text;
use crate::theme;
use crate::theme::{Color, Palette, ICON_WARNING};

verus! {

pub struct CpuTopModule {
    pub max_len: Option<usize>,
}

#[derive(Debug, PartialEq, Eq)]
pub struct CpuTopModuleState {
    pub cpu_prct: u32,
    pub process_name: String,
}

#[derive(Clone, Copy, Debug, PartialEq, Eq, Structural)]
pub enum CpuTopError {
    /// There is no other process.
    NoProcess,
    /// The process has no name.
    NoName,
}

/// What is known of a process. Names and paths are bytes.
pub struct ProcessInfo {
    pub pid: u32,
    pub kernel_thread: bool,
    pub exe: Option<Vec<u8>>,
    pub cmd: Vec<Vec<u8>>,
    pub name: Vec<u8>,
    pub cpu_usage: Double,
}

// Names

/// Position of the last slash; -1 where there is none.
pub open spec fn last_slash(path: Seq<u8>) -> int
    decreases path.len(),
{
    if path.len() == 0 {
        -1
    } else if path.last() == 47 {
        path.len() - 1
    } else {
        last_slash(path.drop_last())
    }
}

/// The last component of a path that is neither empty nor a dot; none where there is no such one,
/// or where it is the parent directory.
pub open spec fn file_name(path: Seq<u8>) -> Option<Seq<u8>>
    decreases path.len(),
{
    let k = last_slash(path);
    if path.len() == 0 || k < -1 || k >= path.len() {
        None
    } else {
        let last = path.skip(k + 1);
        if last.len() == 0 || last == seq![46u8] {
            if k < 0 {
                None
            } else {
                file_name(path.take(k))
            }
        } else if last == seq![46u8, 46u8] {
            None
        } else {
            Some(last)
        }
    }
}

pub open spec fn file_name_of(path: Option<Seq<u8>>) -> Option<Seq<u8>> {
    match path {
        Some(p) => file_name(p),
        None => None,
    }
}

/// Bytes of the name of a process: that of its program, else that of its command, else its own.
pub open spec fn name_bytes(exe: Option<Seq<u8>>, cmd: Option<Seq<u8>>, name: Seq<u8>) -> Option<
    Seq<u8>,
> {
    match file_name_of(exe) {
        Some(n) => Some(n),
        None => match file_name_of(cmd) {
            Some(n) => Some(n),
            None => if name.len() > 0 {
                Some(name)
            } else {
                None
            },
        },
    }
}

pub open spec fn bytes_of(v: Option<Vec<u8>>) -> Option<Seq<u8>> {
    match v {
        Some(b) => Some(b@),
        None => None,
    }
}

pub open spec fn first_arg(cmd: Seq<Vec<u8>>) -> Option<Seq<u8>> {
    if cmd.len() > 0 {
        Some(cmd[0]@)
    } else {
        None
    }
}

fn slice_bytes(v: &Vec<u8>, from: usize, to: usize) -> (r: Vec<u8>)
    requires
        from <= to <= v.len(),
    ensures
        r@ == v@.subrange(from as int, to as int),
{
    let mut r: Vec<u8> = Vec::new();
    let mut i: usize = from;
    while i < to
        invariant
            from <= i <= to <= v.len(),
            r@ == v@.subrange(from as int, i as int),
        decreases to - i,
    {
        r.push(v[i]);
        i += 1;
        assert(r@ =~= v@.subrange(from as int, i as int));
    }
    r
}

/// Finds the last component of a path.
pub fn path_file_name(path: &Vec<u8>) -> (r: Option<Vec<u8>>)
    ensures
        bytes_of(r) == file_name(path@),
{
    let mut end: usize = path.len();
    assert(path@.take(end as int) =~= path@);
    while end > 0
        invariant
            end <= path.len(),
            file_name(path@) == file_name(path@.take(end as int)),
        decreases end,
    {
        let ghost p = path@.take(end as int);
        let mut start: usize = end;
        assert(p.take(start as int) =~= p);
        while start > 0 && path[start - 1] != 47
            invariant
                start <= end <= path.len(),
                p == path@.take(end as int),
                last_slash(p) == last_slash(p.take(start as int)),
            decreases start,
        {
            assert(p.take(start as int).last() == path@[start - 1]);
            assert(p.take(start as int).drop_last() =~= p.take(start - 1));
            start -= 1;
        }
        if start > 0 {
            assert(p.take(start as int).last() == path@[start - 1]);
        }
        assert(last_slash(p) == start - 1);
        let ghost last = p.skip(start as int);
        assert(last =~= path@.subrange(start as int, end as int));
        let n: usize = end - start;
        let dot = n == 1 && path[start] == 46;
        proof {
            if n == 1 {
                assert(last[0] == path@[start as int]);
                if dot {
                    assert(last =~= seq![46u8]);
                }
            }
            if n == 2 {
                assert(last[0] == path@[start as int] && last[1] == path@[start + 1]);
                if last[0] == 46 && last[1] == 46 {
                    assert(last =~= seq![46u8, 46u8]);
                }
            }
        }
        if n == 0 || dot {
            if start == 0 {
                return None;
            }
            assert(p.take(start - 1) =~= path@.take(start - 1));
            end = start - 1;
        } else if n == 2 && path[start] == 46 && path[start + 1] == 46 {
            return None;
        } else {
            return Some(slice_bytes(path, start, end));
        }
    }
    None
}

// The busiest process

/// Position of a number in the total order of all encodings: the negative ones from the largest
/// magnitude on, then the others.
pub open spec fn total_key(d: Double) -> int {
    if d.negative() {
        -1 - (d.bits - 0x8000_0000_0000_0000)
    } else {
        d.bits as int
    }
}

/// Whether `i` is the last of the busiest processes but the one with the given number.
pub open spec fn is_busiest(processes: Seq<ProcessInfo>, current_pid: u32, i: int) -> bool {
    &&& 0 <= i < processes.len()
    &&& processes[i].pid != current_pid
    &&& forall|j: int|
        0 <= j < processes.len() && (#[trigger] processes[j]).pid != current_pid ==> {
            &&& total_key(processes[j].cpu_usage) <= total_key(processes[i].cpu_usage)
            &&& j > i ==> total_key(processes[j].cpu_usage) < total_key(processes[i].cpu_usage)
        }
}

fn not_above(a: Double, b: Double) -> (r: bool)
    ensures
        r == (total_key(a) <= total_key(b)),
{
    let neg_a = a.bits >= 0x8000_0000_0000_0000;
    let neg_b = b.bits >= 0x8000_0000_0000_0000;
    if neg_a && neg_b {
        a.bits >= b.bits
    } else if neg_a {
        true
    } else if neg_b {
        false
    } else {
        a.bits <= b.bits
    }
}

fn find_busiest(processes: &Vec<ProcessInfo>, current_pid: u32) -> (r: Option<usize>)
    ensures
        match r {
            Some(i) => is_busiest(processes@, current_pid, i as int),
            None => forall|j: int|
                0 <= j < processes@.len() ==> (#[trigger] processes@[j]).pid == current_pid,
        },
{
    let mut best: Option<usize> = None;
    let mut i: usize = 0;
    while i < processes.len()
        invariant
            i <= processes.len(),
            match best {
                Some(b) => {
                    &&& b < i
                    &&& processes@[b as int].pid != current_pid
                    &&& forall|j: int|
                        0 <= j < i && (#[trigger] processes@[j]).pid != current_pid ==> {
                            &&& total_key(processes@[j].cpu_usage) <= total_key(
                                processes@[b as int].cpu_usage,
                            )
                            &&& j > b ==> total_key(processes@[j].cpu_usage) < total_key(
                                processes@[b as int].cpu_usage,
                            )
                        }
                },
                None => forall|j: int|
                    0 <= j < i ==> (#[trigger] processes@[j]).pid == current_pid,
            },
        decreases processes.len() - i,
    {
        if processes[i].pid != current_pid {
            match best {
                None => {
                    best = Some(i);
                },
                Some(b) => if not_above(processes[b].cpu_usage, processes[i].cpu_usage) {
                    best = Some(i);
                },
            }
        }
        i += 1;
    }
    best
}

impl CpuTopModule {
    pub fn new(max_len: Option<usize>) -> (r: Self)
        ensures
            r.max_len == max_len,
    {
        CpuTopModule { max_len }
    }

    /// Name of a process.
    pub fn resolve_process_name(
        kernel_thread: bool,
        exe: &Option<Vec<u8>>,
        cmd: &Vec<Vec<u8>>,
        name: &Vec<u8>,
    ) -> (r: Option<String>)
        ensures
            kernel_thread ==> (r matches Some(s) && s@ == "[kthread]"@),
            !kernel_thread ==> match (r, name_bytes(bytes_of(*exe), first_arg(cmd@), name@)) {
                (Some(s), Some(b)) => s@ == bytes::lossy_text(b),
                (None, None) => true,
                _ => false,
            },
    {
        if kernel_thread {
            return Some("[kthread]".to_owned());
        }
        if let Some(e) = exe {
            if let Some(n) = path_file_name(e) {
                return Some(bytes::from_utf8_lossy(n.as_slice()));
            }
        }
        if cmd.len() > 0 {
            if let Some(n) = path_file_name(&cmd[0]) {
                return Some(bytes::from_utf8_lossy(n.as_slice()));
            }
        }
        if name.len() > 0 {
            Some(bytes::from_utf8_lossy(name.as_slice()))
        } else {
            None
        }
    }

    /// State from the running processes, of which the one with the given number does not count.
    pub fn try_update(&self, processes: &Vec<ProcessInfo>, current_pid: u32) -> (r: Result<
        CpuTopModuleState,
        CpuTopError,
    >)
        ensures
            match r {
                Ok(s) => exists|i: int| #[trigger]
                    is_busiest(processes@, current_pid, i) && {
                        let p = processes@[i];
                        &&& s.cpu_prct == p.cpu_usage.rounded_into(0, 99)
                        &&& if p.kernel_thread {
                            s.process_name@ == "[kthread]"@
                        } else {
                            match name_bytes(bytes_of(p.exe), first_arg(p.cmd@), p.name@) {
                                Some(b) => s.process_name@ == bytes::lossy_text(b),
                                None => false,
                            }
                        }
                    },
                Err(CpuTopError::NoProcess) => forall|j: int|
                    0 <= j < processes@.len() ==> (#[trigger] processes@[j]).pid == current_pid,
                Err(CpuTopError::NoName) => exists|i: int| #[trigger]
                    is_busiest(processes@, current_pid, i) && !processes@[i].kernel_thread
                        && name_bytes(
                        bytes_of(processes@[i].exe),
                        first_arg(processes@[i].cmd@),
                        processes@[i].name@,
                    ) is None,
            },
    {
        match find_busiest(processes, current_pid) {
            None => Err(CpuTopError::NoProcess),
            Some(i) => {
                let p = &processes[i];
                match Self::resolve_process_name(p.kernel_thread, &p.exe, &p.cmd, &p.name) {
                    None => Err(CpuTopError::NoName),
                    Some(process_name) => {
                        let cpu_prct: u32 = p.cpu_usage.round_into(0, 99) as u32;
                        Ok(CpuTopModuleState { cpu_prct, process_name })
                    },
                }
            },
        }
    }

    /// Seconds before the next update: less while a process is busy.
    pub fn wait_update(&self, prev_state: Option<&Option<CpuTopModuleState>>) -> (r: u64)
        ensures
            r == match prev_state {
                None => 0u64,
                Some(Some(s)) => if s.cpu_prct > 30 {
                    1
                } else {
                    3
                },
                Some(None) => 3,
            },
    {
        match prev_state {
            None => 0,
            Some(Some(s)) => if s.cpu_prct > 30 {
                1
            } else {
                3
            },
            Some(None) => 3,
        }
    }
}

/// There is only one last of the busiest processes.
pub proof fn busiest_is_unique(processes: Seq<ProcessInfo>, current_pid: u32, i: int, j: int)
    requires
        is_busiest(processes, current_pid, i),
        is_busiest(processes, current_pid, j),
    ensures
        i == j,
{
}

// Rendering

/// Room for the name, behind the percentage.
pub open spec fn name_room(max_len: Option<usize>) -> Option<usize> {
    match max_len {
        Some(n) => Some((n - 4) as usize),
        None => None,
    }
}

pub open spec fn usage_color(cpu_prct: u32) -> Option<Color> {
    if cpu_prct >= 90 {
        Some(Color::Attention)
    } else if cpu_prct >= 50 {
        Some(Color::Notice)
    } else {
        None
    }
}

impl RenderablePolybarModule for CpuTopModule {
    type State = Option<CpuTopModuleState>;

    open spec fn renderable(&self, state: &Option<CpuTopModuleState>) -> bool {
        &&& match self.max_len {
            Some(n) => n >= 4,
            None => true,
        }
        &&& match state {
            Some(s) => theme::can_shorten(s.process_name@, name_room(self.max_len)),
            None => true,
        }
    }

    open spec fn rendered(&self, state: &Option<CpuTopModuleState>) -> Seq<char> {
        match state {
            Some(s) => markup::styled(
                Palette::OkSolar,
                text::right_aligned(numeral::decimal_text(s.cpu_prct as nat), 2) + "% "@
                    + theme::padded(
                    theme::shortened(s.process_name@, name_room(self.max_len)),
                    name_room(self.max_len),
                ),
                usage_color(s.cpu_prct),
                None,
            ),
            None => markup::styled(Palette::OkSolar, ICON_WARNING@, Some(Color::Attention), None),
        }
    }

    fn can_render(&self, state: &Option<CpuTopModuleState>) -> (r: bool) {
        let room: Option<usize> = match self.max_len {
            Some(n) => if n >= 4 {
                Some(n - 4)
            } else {
                return false;
            },
            None => None,
        };
        match state {
            Some(s) => theme::can_ellipsis(s.process_name.as_str(), room),
            None => true,
        }
    }

    fn render(&self, state: &Option<CpuTopModuleState>) -> (r: String) {
        let room: Option<usize> = match self.max_len {
            Some(n) => Some(n - 4),
            None => None,
        };
        match state {
            Some(s) => {
                let d = numeral::decimal(s.cpu_prct as u64);
                let mut t = text::align_right(d.as_str(), 2);
                t.append("% ");
                let short = theme::ellipsis(s.process_name.as_str(), room);
                let name = theme::pad(short.as_str(), room);
                t.append(name.as_str());
                let mut m = Markup::new(t.as_str());
                if s.cpu_prct >= 90 {
                    m = m.fg(Color::Attention);
                } else if s.cpu_prct >= 50 {
                    m = m.fg(Color::Notice);
                }
                m.into_string()
            },
            None => Markup::new(ICON_WARNING).fg(Color::Attention).into_string(),
        }
    }
}

// What the names and figures stand for

proof fn the_last_slash(path: Seq<u8>, name: Seq<u8>)
    requires
        !name.contains(47),
    ensures
        last_slash(path + seq![47u8] + name) == path.len(),
        last_slash(name) == -1,
    decreases name.len(),
{
    let s = path + seq![47u8] + name;
    if name.len() > 0 {
        let n = name.drop_last();
        assert forall|i: int| 0 <= i < n.len() implies n[i] != 47 by {
            assert(name.contains(name[i]));
        }
        assert(name.contains(name.last()));
        the_last_slash(path, n);
        assert(s.drop_last() =~= path + seq![47u8] + n);
    }
}

/// A program has the name behind the last slash of its path; a slash or a dot at the end changes
/// nothing, and a parent directory has no name.
pub proof fn programs_are_named_behind_the_slash(path: Seq<u8>, name: Seq<u8>)
    ensures
        name.len() > 0 && !name.contains(47) && name != seq![46u8] && name != seq![46u8, 46u8]
            ==> file_name(path + seq![47u8] + name) == Some(name) && file_name(name) == Some(name),
        file_name(path + seq![47u8]) == file_name(path),
        file_name(path + seq![47u8, 46u8]) == file_name(path),
        file_name(path + seq![47u8, 46u8, 46u8]) is None,
        file_name(Seq::empty()) is None,
{
    let n = path.len() as int;
    if name.len() > 0 && !name.contains(47) {
        let s = path + seq![47u8] + name;
        the_last_slash(path, name);
        assert(s.skip(n + 1) =~= name);
        assert(name.skip(0) =~= name);
    }
    let e = Seq::<u8>::empty();
    the_last_slash(path, e);
    let a = path + seq![47u8];
    assert(a =~= path + seq![47u8] + e);
    assert(a.skip(n + 1) =~= e);
    assert(a.take(n) =~= path);
    let dot = seq![46u8];
    the_last_slash(path, dot);
    let b = path + seq![47u8, 46u8];
    assert(b =~= path + seq![47u8] + dot);
    assert(b.skip(n + 1) =~= dot);
    assert(b.take(n) =~= path);
    let dots = seq![46u8, 46u8];
    the_last_slash(path, dots);
    let c = path + seq![47u8, 46u8, 46u8];
    assert(c =~= path + seq![47u8] + dots);
    assert(c.skip(n + 1) =~= dots);
    assert(dots != dot) by {
        assert(dots.len() != dot.len());
    }
}

/// The name of the program comes first, then that of the command, then that of the process.
pub proof fn programs_come_before_commands(exe: Seq<u8>, cmd: Seq<u8>, name: Seq<u8>)
    ensures
        file_name(exe) is Some ==> forall|c: Option<Seq<u8>>| #[trigger]
            name_bytes(Some(exe), c, name) == file_name(exe),
        file_name(exe) is None ==> name_bytes(Some(exe), Some(cmd), name) == name_bytes(
            None,
            Some(cmd),
            name,
        ),
        file_name(cmd) is Some ==> name_bytes(None, Some(cmd), name) == file_name(cmd),
        file_name(cmd) is None ==> name_bytes(None, Some(cmd), name) == name_bytes(
            None,
            None,
            name,
        ),
        name.len() > 0 ==> name_bytes(None, None, name) == Some(name),
        name_bytes(None, None, Seq::empty()) is None,
{
}

/// The order by which processes are compared is that of the numbers, wherever both are numbers; no
/// two encodings are equal in it.
pub proof fn busier_processes_come_later(x: Double, y: Double)
    ensures
        !x.is_nan() && !y.is_nan() && x.units() < y.units() ==> total_key(x) < total_key(y),
        total_key(x) == total_key(y) <==> x == y,
{
    crate::double::greater_bits_are_greater_numbers(x, y);
    crate::double::greater_bits_are_greater_numbers(y, x);
}

/// No process but the one that is left out takes more than the one that is shown.
pub proof fn no_process_is_busier(
    processes: Seq<ProcessInfo>,
    current_pid: u32,
    i: int,
    j: int,
)
    requires
        is_busiest(processes, current_pid, i),
        0 <= j < processes.len(),
        processes[j].pid != current_pid,
        !processes[i].cpu_usage.is_nan(),
        !processes[j].cpu_usage.is_nan(),
    ensures
        0 <= i < processes.len(),
        processes[i].pid != current_pid,
        processes[j].cpu_usage.units() <= processes[i].cpu_usage.units(),
{
    busier_processes_come_later(processes[i].cpu_usage, processes[j].cpu_usage);
}

/// A process is marked from half of the time on, and louder from nine tenths on.
pub proof fn busy_processes_are_colored(p: u32)
    ensures
        usage_color(p) is None <==> p < 50,
        usage_color(p) == Some(Color::Notice) <==> 50 <= p < 90,
        usage_color(p) == Some(Color::Attention) <==> p >= 90,
{
}

/// Two digits, a percent sign and a space stand in front of the name, which has the rest of the
/// length.
pub proof fn names_have_the_rest(n: usize)
    requires
        n >= 4,
    ensures
        name_room(Some(n)) matches Some(room) && room + 4 == n,
        name_room(None) is None,
{
}

/// Of equally busy processes the last one is shown.
pub proof fn the_last_of_equals_is_shown(
    processes: Seq<ProcessInfo>,
    current_pid: u32,
    i: int,
    j: int,
)
    requires
        is_busiest(processes, current_pid, i),
        i < j < processes.len(),
        processes[j].pid != current_pid,
    ensures
        processes[j].cpu_usage != processes[i].cpu_usage,
{
}

}
