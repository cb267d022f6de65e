//! Cooperative process table. Fixed capacity; the Task Manager views and
//! controls it.
use vstd::prelude::*;

verus! {

/// Maximum number of tracked processes.
pub const MAX_PROC: usize = 8;
/// Maximum process-name length kept.
pub const NAME_CAP: usize = 16;

#[derive(Clone, Copy, PartialEq, Eq, Debug, Structural)]
pub enum ProcState {
    Running,
    Suspended,
    Terminated,
}

#[derive(Clone, Copy, PartialEq, Eq, Debug, Structural)]
pub enum ProcKind {
    /// Cannot be killed by the user (kernel, compositor).
    System,
    /// User application; can be suspended/terminated.
    App,
}

#[derive(Clone, Debug)]
pub struct Process {
    pub pid: u16,
    pub name: Vec<u8>,
    pub kind: ProcKind,
    pub state: ProcState,
    /// Accumulated scheduler ticks (a cheap "CPU time" proxy).
    pub ticks: u32,
}

impl Process {
    /// The process name as bytes.
    pub open spec fn name_view(&self) -> Seq<u8> {
        self.name@
    }

    pub fn name(&self) -> (s: &[u8])
        ensures
            s@ == self.name_view(),
    {
        self.name.as_slice()
    }
}

/// The first `n` bytes of `s` (all of it when shorter).
pub open spec fn prefix_upto(s: Seq<u8>, n: int) -> Seq<u8> {
    if s.len() <= n { s } else { s.subrange(0, n) }
}

/// Number of `Running` entries in `s`.
pub open spec fn count_running(s: Seq<Process>) -> nat
    decreases s.len(),
{
    if s.len() == 0 {
        0
    } else {
        count_running(s.drop_last()) + (if s.last().state == ProcState::Running { 1nat } else { 0nat })
    }
}

/// The position of process `pid` in `s`, if any.
pub open spec fn has_pid(s: Seq<Process>, pid: u16) -> bool {
    exists|i: int| 0 <= i < s.len() && s[i].pid == pid
}

pub struct ProcessTable {
    procs: Vec<Process>,
    next_pid: u16,
    selected: usize,
}

impl ProcessTable {
    /// The processes in table order.
    pub closed spec fn procs(&self) -> Seq<Process> {
        self.procs@
    }

    /// The pid the next spawn receives.
    pub closed spec fn next_pid_spec(&self) -> u16 {
        self.next_pid
    }

    /// The Task Manager cursor.
    pub closed spec fn selected_spec(&self) -> usize {
        self.selected
    }

    /// Well-formedness: bounded size, a valid cursor, and pids that increase
    /// along the table and stay below the next one to be handed out (so no
    /// two processes share a pid).
    pub open spec fn wf(&self) -> bool {
        &&& self.procs().len() <= MAX_PROC
        &&& (self.selected_spec() < self.procs().len() || self.selected_spec() == 0)
        &&& self.next_pid_spec() >= 1
        &&& forall|i: int| 0 <= i < self.procs().len() ==> #[trigger] self.procs()[i].pid < self.next_pid_spec()
        &&& forall|i: int, j: int| 0 <= i < j < self.procs().len() ==> self.procs()[i].pid < self.procs()[j].pid
        &&& forall|i: int| 0 <= i < self.procs().len() ==> #[trigger] self.procs()[i].name@.len() <= NAME_CAP
    }

    pub fn new() -> (t: Self)
        ensures
            t.wf(),
            t.procs() == Seq::<Process>::empty(),
            t.next_pid_spec() == 1,
            t.selected_spec() == 0,
    {
        ProcessTable { procs: Vec::new(), next_pid: 1, selected: 0 }
    }

    /// The pid the next spawn hands out.
    pub fn next_pid(&self) -> (p: u16)
        ensures
            p == self.next_pid_spec(),
    {
        self.next_pid
    }

    pub fn len(&self) -> (n: usize)
        ensures
            n == self.procs().len(),
    {
        self.procs.len()
    }

    pub fn is_empty(&self) -> (b: bool)
        ensures
            b == (self.procs().len() == 0),
    {
        self.procs.len() == 0
    }

    pub fn at(&self, i: usize) -> (r: Option<&Process>)
        ensures
            i < self.procs().len() ==> r == Some(&self.procs()[i as int]),
            i >= self.procs().len() ==> r is None,
    {
        if i < self.procs.len() {
            Some(&self.procs[i])
        } else {
            None
        }
    }

    /// Spawn a process. Returns its pid, or `None` if the table is full.
    pub fn spawn(&mut self, name: &[u8], kind: ProcKind, state: ProcState) -> (r: Option<u16>)
        requires
            old(self).wf(),
            old(self).procs().len() < MAX_PROC ==> old(self).next_pid_spec() < u16::MAX,
        ensures
            final(self).wf(),
            final(self).selected_spec() == old(self).selected_spec(),
            old(self).procs().len() >= MAX_PROC ==> r is None && final(self).procs() == old(self).procs()
                && final(self).next_pid_spec() == old(self).next_pid_spec(),
            old(self).procs().len() < MAX_PROC ==> {
                &&& r == Some(old(self).next_pid_spec())
                &&& final(self).next_pid_spec() == old(self).next_pid_spec() + 1
                &&& final(self).procs().len() == old(self).procs().len() + 1
                &&& final(self).procs().drop_last() == old(self).procs()
                &&& final(self).procs().last().pid == old(self).next_pid_spec()
                &&& final(self).procs().last().name_view() == prefix_upto(name@, NAME_CAP as int)
                &&& final(self).procs().last().kind == kind
                &&& final(self).procs().last().state == state
                &&& final(self).procs().last().ticks == 0
            },
    {
        if self.procs.len() >= MAX_PROC {
            return None;
        }
        let pid = self.next_pid;
        self.next_pid = self.next_pid + 1;
        let n = if name.len() < NAME_CAP { name.len() } else { NAME_CAP };
        let mut nm: Vec<u8> = Vec::new();
        let mut i: usize = 0;
        while i < n
            invariant
                n <= name@.len(),
                n == prefix_upto(name@, NAME_CAP as int).len(),
                i <= n,
                nm@ == name@.subrange(0, i as int),
            decreases n - i,
        {
            nm.push(name[i]);
            i += 1;
        }
        assert(nm@ == prefix_upto(name@, NAME_CAP as int));
        let p = Process { pid, name: nm, kind, state, ticks: 0 };
        self.procs.push(p);
        assert(self.procs@.drop_last() == old(self).procs@);
        Some(pid)
    }

    fn index_of(&self, pid: u16) -> (r: Option<usize>)
        ensures
            match r {
                Some(i) => i < self.procs@.len() && self.procs@[i as int].pid == pid,
                None => !has_pid(self.procs@, pid),
            },
    {
        let mut i: usize = 0;
        while i < self.procs.len()
            invariant
                i <= self.procs@.len(),
                forall|j: int| 0 <= j < i ==> self.procs@[j].pid != pid,
            decreases self.procs@.len() - i,
        {
            if self.procs[i].pid == pid {
                return Some(i);
            }
            i += 1;
        }
        None
    }

    pub fn get(&self, pid: u16) -> (r: Option<&Process>)
        ensures
            match r {
                Some(p) => p.pid == pid && exists|i: int| 0 <= i < self.procs().len() && self.procs()[i] == *p,
                None => !has_pid(self.procs(), pid),
            },
    {
        match self.index_of(pid) {
            Some(i) => {
                let r = &self.procs[i];
                assert(self.procs()[i as int] == *r);
                Some(r)
            },
            None => None,
        }
    }

    pub fn set_state(&mut self, pid: u16, state: ProcState) -> (b: bool)
        requires
            old(self).wf(),
        ensures
            final(self).wf(),
            b == has_pid(old(self).procs(), pid),
            final(self).selected_spec() == old(self).selected_spec(),
            final(self).next_pid_spec() == old(self).next_pid_spec(),
            final(self).procs().len() == old(self).procs().len(),
            forall|i: int| 0 <= i < old(self).procs().len() ==> {
                let p = #[trigger] final(self).procs()[i];
                let q = old(self).procs()[i];
                if q.pid == pid {
                    same_but_state(p, q) && p.state == state
                } else {
                    p == q
                }
            },
    {
        match self.index_of(pid) {
            Some(i) => {
                let mut p = self.procs.remove(i);
                p.state = state;
                self.procs.insert(i, p);
                proof {
                    assert forall|j: int| 0 <= j < old(self).procs@.len() && j != i implies
                        self.procs@[j].pid != pid by {
                        if j < i {
                            assert(old(self).procs@[j].pid < old(self).procs@[i as int].pid);
                        } else {
                            assert(old(self).procs@[i as int].pid < old(self).procs@[j].pid);
                        }
                    }
                }
                true
            },
            None => false,
        }
    }

    /// Remove a process from the table. System processes are protected and
    /// cannot be killed (`false`). Selection is kept in range.
    pub fn kill(&mut self, pid: u16) -> (b: bool)
        requires
            old(self).wf(),
        ensures
            final(self).wf(),
            final(self).next_pid_spec() == old(self).next_pid_spec(),
            !has_pid(old(self).procs(), pid) ==> !b && *final(self) == *old(self),
            forall|i: int| 0 <= i < old(self).procs().len() && #[trigger] old(self).procs()[i].pid == pid ==> {
                if old(self).procs()[i].kind == ProcKind::System {
                    !b && *final(self) == *old(self)
                } else {
                    &&& b
                    &&& final(self).procs() == old(self).procs().remove(i)
                    &&& final(self).selected_spec() == (if old(self).selected_spec() >= final(self).procs().len()
                        && final(self).procs().len() > 0 {
                        (final(self).procs().len() - 1) as usize
                    } else {
                        old(self).selected_spec()
                    })
                }
            },
    {
        let i = match self.index_of(pid) {
            Some(i) => i,
            None => return false,
        };
        proof {
            assert forall|j: int| 0 <= j < old(self).procs@.len() && old(self).procs@[j].pid == pid implies j == i by {
                if j < i {
                    assert(old(self).procs@[j].pid < old(self).procs@[i as int].pid);
                } else if j > i {
                    assert(old(self).procs@[i as int].pid < old(self).procs@[j].pid);
                }
            }
        }
        if self.procs[i].kind == ProcKind::System {
            return false;
        }
        self.procs.remove(i);
        if self.selected >= self.procs.len() && self.procs.len() > 0 {
            self.selected = self.procs.len() - 1;
        }
        proof {
            let o = old(self).procs@;
            let n = self.procs@;
            assert forall|a: int, c: int| 0 <= a < c < n.len() implies n[a].pid < n[c].pid by {
                let oa = if a < i { a } else { a + 1 };
                let oc = if c < i { c } else { c + 1 };
                assert(n[a] == o[oa]);
                assert(n[c] == o[oc]);
            }
            assert forall|a: int| 0 <= a < n.len() implies #[trigger] n[a].pid < self.next_pid && n[a].name@.len() <= NAME_CAP by {
                let oa = if a < i { a } else { a + 1 };
                assert(n[a] == o[oa]);
            }
        }
        true
    }

    /// Increment `ticks` for every `Running` process (one scheduler quantum).
    pub fn tick(&mut self)
        requires
            old(self).wf(),
            forall|i: int| 0 <= i < old(self).procs().len() && #[trigger] old(self).procs()[i].state == ProcState::Running
                ==> old(self).procs()[i].ticks < u32::MAX,
        ensures
            final(self).wf(),
            final(self).selected_spec() == old(self).selected_spec(),
            final(self).next_pid_spec() == old(self).next_pid_spec(),
            final(self).procs().len() == old(self).procs().len(),
            forall|i: int| 0 <= i < old(self).procs().len() ==> {
                let p = #[trigger] final(self).procs()[i];
                let q = old(self).procs()[i];
                if q.state == ProcState::Running {
                    same_but_ticks(p, q) && p.ticks == q.ticks + 1
                } else {
                    p == q
                }
            },
    {
        let mut i: usize = 0;
        while i < self.procs.len()
            invariant
                old(self).wf(),
                forall|k: int| 0 <= k < old(self).procs@.len() && #[trigger] old(self).procs@[k].state == ProcState::Running
                    ==> old(self).procs@[k].ticks < u32::MAX,
                self.next_pid == old(self).next_pid,
                self.selected == old(self).selected,
                self.procs@.len() == old(self).procs@.len(),
                i <= self.procs@.len(),
                forall|k: int| i <= k < self.procs@.len() ==> #[trigger] self.procs@[k] == old(self).procs@[k],
                forall|k: int| 0 <= k < i ==> {
                    let p = #[trigger] self.procs@[k];
                    let q = old(self).procs@[k];
                    if q.state == ProcState::Running {
                        same_but_ticks(p, q) && p.ticks == q.ticks + 1
                    } else {
                        p == q
                    }
                },
            decreases self.procs@.len() - i,
        {
            if self.procs[i].state == ProcState::Running {
                let mut p = self.procs.remove(i);
                p.ticks = p.ticks + 1;
                self.procs.insert(i, p);
            }
            i += 1;
        }
    }

    /// Number of processes currently running.
    pub fn running(&self) -> (n: usize)
        ensures
            n == count_running(self.procs()),
    {
        let mut n: usize = 0;
        let mut i: usize = 0;
        while i < self.procs.len()
            invariant
                i <= self.procs@.len(),
                n == count_running(self.procs@.subrange(0, i as int)),
                n <= i,
            decreases self.procs@.len() - i,
        {
            proof {
                lemma_count_running_bound(self.procs@.subrange(0, i as int));
                assert(self.procs@.subrange(0, i + 1).drop_last() == self.procs@.subrange(0, i as int));
            }
            if self.procs[i].state == ProcState::Running {
                n += 1;
            }
            i += 1;
        }
        assert(self.procs@.subrange(0, self.procs@.len() as int) == self.procs@);
        n
    }

    // ---- selection (Task Manager cursor) ----

    pub fn selected(&self) -> (s: usize)
        ensures
            s == self.selected_spec(),
    {
        self.selected
    }

    pub fn selected_pid(&self) -> (r: Option<u16>)
        ensures
            self.selected_spec() < self.procs().len() ==> r == Some(self.procs()[self.selected_spec() as int].pid),
            self.selected_spec() >= self.procs().len() ==> r is None,
    {
        match self.at(self.selected) {
            Some(p) => Some(p.pid),
            None => None,
        }
    }

    pub fn select_next(&mut self)
        requires
            old(self).wf(),
        ensures
            final(self).wf(),
            final(self).procs() == old(self).procs(),
            final(self).next_pid_spec() == old(self).next_pid_spec(),
            final(self).selected_spec() == next_index(old(self).selected_spec() as int, old(self).procs().len() as int),
    {
        if self.procs.len() > 0 {
            self.selected = (self.selected + 1) % self.procs.len();
        }
    }

    pub fn select_prev(&mut self)
        requires
            old(self).wf(),
        ensures
            final(self).wf(),
            final(self).procs() == old(self).procs(),
            final(self).next_pid_spec() == old(self).next_pid_spec(),
            final(self).selected_spec() == prev_index(old(self).selected_spec() as int, old(self).procs().len() as int),
    {
        if self.procs.len() > 0 {
            self.selected = (self.selected + self.procs.len() - 1) % self.procs.len();
        }
    }
}

/// The pid a spawn into `t` reports: none (0) when the table is full.
pub open spec fn spawn_pid(t: ProcessTable) -> u16 {
    if t.procs().len() >= MAX_PROC {
        0
    } else {
        t.next_pid_spec()
    }
}

/// `new` is `old` after spawning a process named `name`: a full table is left
/// as it was, otherwise the process is appended under the next pid with no
/// ticks yet.
pub open spec fn spawn_effect(old: ProcessTable, new: ProcessTable, name: Seq<u8>, kind: ProcKind, state: ProcState) -> bool {
    &&& new.wf()
    &&& new.selected_spec() == old.selected_spec()
    &&& if old.procs().len() >= MAX_PROC {
        new.procs() == old.procs() && new.next_pid_spec() == old.next_pid_spec()
    } else {
        &&& new.next_pid_spec() == old.next_pid_spec() + 1
        &&& new.procs().len() == old.procs().len() + 1
        &&& new.procs().drop_last() == old.procs()
        &&& new.procs().last().pid == old.next_pid_spec()
        &&& new.procs().last().name_view() == prefix_upto(name, NAME_CAP as int)
        &&& new.procs().last().kind == kind
        &&& new.procs().last().state == state
        &&& new.procs().last().ticks == 0
    }
}

/// `new` is `old` after killing `pid`: an unknown pid or a system process
/// leaves the table as it was; an application process is removed and the
/// cursor pulled back onto the last row if it fell off the end.
pub open spec fn killed(old: ProcessTable, new: ProcessTable, pid: u16) -> bool {
    &&& new.wf()
    &&& new.next_pid_spec() == old.next_pid_spec()
    &&& !has_pid(old.procs(), pid) ==> new == old
    &&& forall|i: int| 0 <= i < old.procs().len() && #[trigger] old.procs()[i].pid == pid ==> {
        if old.procs()[i].kind == ProcKind::System {
            new == old
        } else {
            &&& new.procs() == old.procs().remove(i)
            &&& new.selected_spec() == (if old.selected_spec() >= new.procs().len() && new.procs().len() > 0 {
                (new.procs().len() - 1) as usize
            } else {
                old.selected_spec()
            })
        }
    }
}

/// `new` is `old` after one scheduler quantum: every running process gained
/// a tick, nothing else changed.
pub open spec fn ticked(old: ProcessTable, new: ProcessTable) -> bool {
    &&& new.wf()
    &&& new.selected_spec() == old.selected_spec()
    &&& new.next_pid_spec() == old.next_pid_spec()
    &&& new.procs().len() == old.procs().len()
    &&& forall|i: int| 0 <= i < old.procs().len() ==> {
        let p = #[trigger] new.procs()[i];
        let q = old.procs()[i];
        if q.state == ProcState::Running {
            same_but_ticks(p, q) && p.ticks == q.ticks + 1
        } else {
            p == q
        }
    }
}

/// No running process is at the end of its tick counter.
pub open spec fn can_tick(t: ProcessTable) -> bool {
    forall|i: int| 0 <= i < t.procs().len() && #[trigger] t.procs()[i].state == ProcState::Running
        ==> t.procs()[i].ticks < u32::MAX
}

/// `p` equals `q` except possibly in its state.
pub open spec fn same_but_state(p: Process, q: Process) -> bool {
    p.pid == q.pid && p.name_view() == q.name_view() && p.kind == q.kind && p.ticks == q.ticks
}

/// `p` equals `q` except possibly in its tick count.
pub open spec fn same_but_ticks(p: Process, q: Process) -> bool {
    p.pid == q.pid && p.name_view() == q.name_view() && p.kind == q.kind && p.state == q.state
}

/// The cursor after moving forward through `n` rows, wrapping at the end.
pub open spec fn next_index(sel: int, n: int) -> int {
    if n > 0 { (sel + 1) % n } else { sel }
}

/// The cursor after moving backward through `n` rows, wrapping at the start.
pub open spec fn prev_index(sel: int, n: int) -> int {
    if n > 0 { (sel + n - 1) % n } else { sel }
}

proof fn lemma_count_running_bound(s: Seq<Process>)
    ensures
        count_running(s) <= s.len(),
    decreases s.len(),
{
    if s.len() > 0 {
        lemma_count_running_bound(s.drop_last());
    }
}

/// On a well-formed table with rows, moving the cursor back and then
/// forward (or forward and then back) returns it to its row: the cursor is
/// always inside the table.
pub proof fn lemma_table_select_round_trip(t: &ProcessTable)
    requires
        t.wf(),
        t.procs().len() > 0,
    ensures
        0 <= t.selected_spec() < t.procs().len(),
        next_index(prev_index(t.selected_spec() as int, t.procs().len() as int), t.procs().len() as int)
            == t.selected_spec(),
        prev_index(next_index(t.selected_spec() as int, t.procs().len() as int), t.procs().len() as int)
            == t.selected_spec(),
{
    lemma_select_round_trip(t.selected_spec() as int, t.procs().len() as int);
}

/// Moving the Task Manager cursor forward and then back (or back and then
/// forward) returns it to the row it started on.
pub proof fn lemma_select_round_trip(sel: int, n: int)
    requires
        0 <= sel < n,
    ensures
        prev_index(next_index(sel, n), n) == sel,
        next_index(prev_index(sel, n), n) == sel,
{
    if sel + 1 < n {
        assert((sel + 1) % n == sel + 1) by {
            vstd::arithmetic::div_mod::lemma_small_mod((sel + 1) as nat, n as nat);
        }
    } else {
        assert((sel + 1) % n == 0) by {
            vstd::arithmetic::div_mod::lemma_mod_self_0(n);
        }
    }
    vstd::arithmetic::div_mod::lemma_small_mod(sel as nat, n as nat);
    if sel > 0 {
        vstd::arithmetic::div_mod::lemma_small_mod((sel - 1) as nat, n as nat);
        vstd::arithmetic::div_mod::lemma_mod_add_multiples_vanish(sel - 1, n);
    } else {
        vstd::arithmetic::div_mod::lemma_small_mod((n - 1) as nat, n as nat);
    }
    vstd::arithmetic::div_mod::lemma_mod_add_multiples_vanish(sel, n);
}

impl Default for ProcessTable {
    fn default() -> (t: Self)
        ensures
            t.wf(),
            t.procs() == Seq::<Process>::empty(),
            t.next_pid_spec() == 1,
            t.selected_spec() == 0,
    {
        Self::new()
    }
}

} // verus!
