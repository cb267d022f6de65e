//! The round-robin scheduler's bookkeeping: each thread's saved stack
//! pointer, which one runs, the CPU ticks credited to each slot, the frame a
//! new thread starts from, and the stack-overflow tripwire. The context
//! switch itself (saving registers, `iretq`) is the kernel's.
use vstd::prelude::*;

verus! {

/// Most threads the scheduler runs.
pub const MAX_THREADS: usize = 8;
/// Bytes of a spawned thread's stack.
pub const STACK_SIZE: usize = 65536;
/// The word planted at the bottom of every spawned stack; an overflow
/// clobbers it.
pub const STACK_CANARY: u64 = 0xDEAD_C0DE_CAFE_F00D;
/// Flags a new thread starts with: interrupts enabled plus the reserved bit.
pub const START_FLAGS: u64 = 0x202;

/// The scheduler as values.
pub struct SchedView {
    pub rsps: Seq<u64>,
    pub current: int,
    pub ticks: Seq<u64>,
}

pub struct Scheduler {
    rsps: Vec<u64>,
    current: usize,
    ticks: Vec<u64>,
}

impl View for Scheduler {
    type V = SchedView;

    closed spec fn view(&self) -> SchedView {
        SchedView { rsps: self.rsps@, current: self.current as int, ticks: self.ticks@ }
    }
}

/// Between one and [`MAX_THREADS`] threads, one of them running, a tick
/// counter per slot.
pub open spec fn sched_ok(s: SchedView) -> bool {
    &&& 1 <= s.rsps.len() <= MAX_THREADS
    &&& 0 <= s.current < s.rsps.len()
    &&& s.ticks.len() == MAX_THREADS
}

/// The thread after `cur` of `n`, round robin.
pub open spec fn next_thread(cur: int, n: int) -> int {
    (cur + 1) % n
}

/// The thread `k` switches after `cur`.
pub open spec fn after(cur: int, n: int, k: nat) -> int
    decreases k,
{
    if k == 0 { cur } else { next_thread(after(cur, n, (k - 1) as nat), n) }
}

impl Scheduler {
    /// The boot context as thread 0 (its stack pointer is saved on its first
    /// preemption), no ticks yet.
    pub fn new() -> (s: Self)
        ensures
            sched_ok(s@),
            s@.rsps == seq![0u64],
            s@.current == 0,
            s@.ticks == Seq::new(MAX_THREADS as nat, |i: int| 0u64),
    {
        let mut ticks: Vec<u64> = Vec::new();
        let mut k: usize = 0;
        while k < MAX_THREADS
            invariant
                k <= MAX_THREADS,
                ticks@ == Seq::new(k as nat, |i: int| 0u64),
            decreases MAX_THREADS - k,
        {
            ticks.push(0);
            k += 1;
            assert(ticks@ =~= Seq::new(k as nat, |i: int| 0u64));
        }
        let mut rsps: Vec<u64> = Vec::new();
        rsps.push(0);
        assert(rsps@ =~= seq![0u64]);
        Scheduler { rsps, current: 0, ticks }
    }

    /// Room for another thread.
    pub fn can_spawn(&self) -> (b: bool)
        requires
            sched_ok(self@),
        ensures
            b == (self@.rsps.len() < MAX_THREADS),
    {
        self.rsps.len() < MAX_THREADS
    }

    /// Add a thread that resumes from stack pointer `rsp`.
    pub fn spawn(&mut self, rsp: u64)
        requires
            sched_ok(old(self)@),
            old(self)@.rsps.len() < MAX_THREADS,
        ensures
            sched_ok(final(self)@),
            final(self)@ == (SchedView { rsps: old(self)@.rsps.push(rsp), ..old(self)@ }),
    {
        self.rsps.push(rsp);
    }

    /// On a timer tick: save the running thread's stack pointer `rsp`,
    /// credit it a tick (wrapping), and move to the next thread round robin,
    /// giving back the stack pointer to resume. With a single thread it keeps
    /// running on `rsp`.
    pub fn switch(&mut self, rsp: u64) -> (r: u64)
        requires
            sched_ok(old(self)@),
        ensures
            sched_ok(final(self)@),
            ({
                let s = old(self)@;
                let n = s.rsps.len() as int;
                let rsps = s.rsps.update(s.current, rsp);
                let ticks = s.ticks.update(s.current, s.ticks[s.current].wrapping_add(1));
                &&& final(self)@.rsps == rsps
                &&& final(self)@.ticks == ticks
                &&& n < 2 ==> final(self)@.current == s.current && r == rsp
                &&& n >= 2 ==> final(self)@.current == next_thread(s.current, n) && r == rsps[next_thread(s.current, n)]
            }),
    {
        let cur = self.current;
        self.rsps.set(cur, rsp);
        let t = self.ticks[cur].wrapping_add(1);
        self.ticks.set(cur, t);
        let n = self.rsps.len();
        if n < 2 {
            return rsp;
        }
        let next = (cur + 1) % n;
        self.current = next;
        self.rsps[next]
    }

    /// The running thread.
    pub fn current(&self) -> (c: usize)
        ensures
            c == self@.current,
    {
        self.current
    }

    /// Number of threads.
    pub fn thread_count(&self) -> (n: usize)
        ensures
            n == self@.rsps.len(),
    {
        self.rsps.len()
    }

    /// Ticks credited to slot `i`; 0 past the last slot.
    pub fn thread_ticks(&self, i: usize) -> (t: u64)
        requires
            sched_ok(self@),
        ensures
            t == (if i < MAX_THREADS { self@.ticks[i as int] } else { 0 }),
    {
        if i < MAX_THREADS {
            self.ticks[i]
        } else {
            0
        }
    }
}

/// Round robin is fair: the thread `k` switches after `cur` is
/// `(cur + k) % n`, so after as many switches as there are threads the same
/// thread runs again, each one having run in between.
pub proof fn lemma_round_robin(cur: int, n: int, k: nat)
    requires
        0 <= cur < n,
    ensures
        after(cur, n, k) == (cur + k) % n,
        after(cur, n, n as nat) == cur,
{
    lemma_after_k(cur, n, k);
    lemma_after_k(cur, n, n as nat);
    vstd::arithmetic::div_mod::lemma_mod_multiples_vanish(1, cur, n);
    vstd::arithmetic::div_mod::lemma_small_mod(cur as nat, n as nat);
}

proof fn lemma_after_k(cur: int, n: int, k: nat)
    requires
        0 <= cur < n,
    ensures
        after(cur, n, k) == (cur + k) % n,
    decreases k,
{
    if k == 0 {
        vstd::arithmetic::div_mod::lemma_small_mod(cur as nat, n as nat);
    } else {
        lemma_after_k(cur, n, (k - 1) as nat);
        let x = cur + k - 1;
        let a = x % n;
        vstd::arithmetic::div_mod::lemma_fundamental_div_mod(x, n);
        assert(cur + k == n * (x / n) + (a + 1));
        vstd::arithmetic::div_mod::lemma_mod_multiples_vanish(x / n, a + 1, n);
    }
}

/// The stack pointer a thread runs on once live: the top rounded down to
/// 16, less 8, as if just called.
pub open spec fn thread_rsp(top: u64) -> int {
    (top & !0xFu64) - 8
}

/// The words a new thread's stack starts with, from its saved stack
/// pointer up: fifteen zeroed registers, then the `iretq` frame (entry,
/// code segment, flags, stack pointer, stack segment).
pub open spec fn frame_words(top: u64, cs: u64, ss: u64, entry: u64) -> Seq<u64> {
    Seq::new(15, |i: int| 0u64) + seq![entry, cs, START_FLAGS, thread_rsp(top) as u64, ss]
}

/// A new thread's saved stack pointer and the words from there up.
pub fn spawn_frame(top: u64, cs: u64, ss: u64, entry: u64) -> (r: (u64, Vec<u64>))
    requires
        (top & !0xFu64) >= 168,
    ensures
        r.0 == thread_rsp(top) - 160,
        r.1@ == frame_words(top, cs, ss, entry),
{
    let rsp = (top & !0xFu64) - 8;
    let mut words: Vec<u64> = Vec::new();
    let mut k: usize = 0;
    while k < 15
        invariant
            k <= 15,
            words@ == Seq::new(k as nat, |i: int| 0u64),
        decreases 15 - k,
    {
        words.push(0);
        k += 1;
        assert(words@ =~= Seq::new(k as nat, |i: int| 0u64));
    }
    words.push(entry);
    words.push(cs);
    words.push(START_FLAGS);
    words.push(rsp);
    words.push(ss);
    assert(words@ =~= frame_words(top, cs, ss, entry));
    (rsp - 160, words)
}

/// The canary's bytes as they lie in memory (little-endian).
pub open spec fn canary_bytes() -> Seq<u8> {
    seq![0x0Du8, 0xF0, 0xFE, 0xCA, 0xDE, 0xC0, 0xAD, 0xDE]
}

/// A stack is intact when its first eight bytes still hold the canary; a
/// stack shorter than that (the boot thread owns none) has nothing to check.
pub fn stack_intact(stack: &[u8]) -> (b: bool)
    ensures
        b == (stack@.len() < 8 || stack@.subrange(0, 8) == canary_bytes()),
{
    if stack.len() < 8 {
        return true;
    }
    let want: [u8; 8] = [0x0D, 0xF0, 0xFE, 0xCA, 0xDE, 0xC0, 0xAD, 0xDE];
    let mut i: usize = 0;
    while i < 8
        invariant
            i <= 8,
            stack@.len() >= 8,
            want@ == canary_bytes(),
            forall|k: int| 0 <= k < i ==> stack@[k] == want@[k],
        decreases 8 - i,
    {
        if stack[i] != want[i] {
            assert(stack@.subrange(0, 8)[i as int] != canary_bytes()[i as int]);
            return false;
        }
        i += 1;
    }
    assert(stack@.subrange(0, 8) =~= canary_bytes());
    true
}

/// A fresh stack for a spawned thread: [`STACK_SIZE`] zero bytes with the
/// canary in the lowest eight.
pub fn new_stack() -> (s: Vec<u8>)
    ensures
        s@.len() == STACK_SIZE,
        s@.subrange(0, 8) == canary_bytes(),
        forall|i: int| 8 <= i < STACK_SIZE ==> s@[i] == 0,
{
    let want: [u8; 8] = [0x0D, 0xF0, 0xFE, 0xCA, 0xDE, 0xC0, 0xAD, 0xDE];
    let mut s: Vec<u8> = Vec::new();
    let mut i: usize = 0;
    while i < STACK_SIZE
        invariant
            i <= STACK_SIZE,
            s@.len() == i,
            want@ == canary_bytes(),
            forall|k: int| 0 <= k < i && k < 8 ==> s@[k] == want@[k],
            forall|k: int| 8 <= k < i ==> s@[k] == 0,
        decreases STACK_SIZE - i,
    {
        if i < 8 {
            s.push(want[i]);
        } else {
            s.push(0);
        }
        i += 1;
    }
    assert(s@.subrange(0, 8) =~= canary_bytes());
    s
}

} // verus!
