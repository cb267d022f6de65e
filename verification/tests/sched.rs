use osjeff_core::kernel::sched::{
    new_stack, spawn_frame, stack_intact, Scheduler, MAX_THREADS, STACK_CANARY, STACK_SIZE, START_FLAGS,
};

#[test]
fn single_thread_keeps_running() {
    let mut s = Scheduler::new();
    assert_eq!(s.thread_count(), 1);
    assert_eq!(s.switch(0x1000), 0x1000);
    assert_eq!(s.current(), 0);
    assert_eq!(s.thread_ticks(0), 1);
    assert_eq!(s.thread_ticks(MAX_THREADS), 0);
}

#[test]
fn threads_take_turns() {
    let mut s = Scheduler::new();
    s.spawn(0x2000);
    s.spawn(0x3000);
    assert_eq!(s.switch(0x1111), 0x2000);
    assert_eq!(s.current(), 1);
    assert_eq!(s.switch(0x2222), 0x3000);
    assert_eq!(s.switch(0x3333), 0x1111);
    assert_eq!(s.current(), 0);
    assert_eq!(s.switch(0x1112), 0x2222);
    assert_eq!((s.thread_ticks(0), s.thread_ticks(1), s.thread_ticks(2)), (2, 1, 1));
}

#[test]
fn thread_limit() {
    let mut s = Scheduler::new();
    for i in 1..MAX_THREADS {
        assert!(s.can_spawn());
        s.spawn(i as u64);
    }
    assert!(!s.can_spawn());
    assert_eq!(s.thread_count(), MAX_THREADS);
}

#[test]
fn new_thread_frame() {
    let (rsp, words) = spawn_frame(0x10_0007, 0x08, 0x10, 0xABCD);
    let live = 0x10_0000 - 8;
    assert_eq!(rsp, live - 160);
    assert_eq!(words.len(), 20);
    assert!(words[..15].iter().all(|&w| w == 0));
    assert_eq!(&words[15..], &[0xABCD, 0x08, START_FLAGS, live, 0x10]);
}

#[test]
fn stack_canary() {
    let mut st = new_stack();
    assert_eq!(st.len(), STACK_SIZE);
    assert_eq!(&st[..8], &STACK_CANARY.to_le_bytes());
    assert!(stack_intact(&st));
    st[3] ^= 1;
    assert!(!stack_intact(&st));
    assert!(stack_intact(&[]));
    assert!(stack_intact(&[1, 2, 3]));
}
