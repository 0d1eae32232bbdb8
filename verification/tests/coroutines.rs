use macroquad::experimental::coroutines::{
    start_coroutine, stop_all_coroutines, stop_coroutine, Computation, Coroutine,
    CoroutinesContext, Poll, ResumeToken, TimerDelayFuture, YieldOnce,
};
use std::cell::RefCell;
use std::rc::Rc;

/// A task that appends its tag to a shared log on every resumption and stays
/// pending for `pending_left` resumptions before completing.
struct Logged {
    tag: usize,
    pending_left: usize,
    log: Rc<RefCell<Vec<usize>>>,
}

impl Computation for Logged {
    fn resume(&mut self, _token: &mut ResumeToken<Self>) -> Poll {
        self.log.borrow_mut().push(self.tag);
        if self.pending_left == 0 {
            Poll::Ready
        } else {
            self.pending_left -= 1;
            Poll::Pending
        }
    }
}

/// A task that completes on its very first resumption.
struct ReadyNow;

impl Computation for ReadyNow {
    fn resume(&mut self, _token: &mut ResumeToken<Self>) -> Poll {
        Poll::Ready
    }
}

/// A task that schedules a worker from inside its own body, mid-tick.
enum Task {
    Spawner(Rc<RefCell<Vec<usize>>>, Rc<RefCell<Option<Coroutine>>>),
    Worker(usize, Rc<RefCell<Vec<usize>>>),
}

impl Computation for Task {
    fn resume(&mut self, token: &mut ResumeToken<Self>) -> Poll {
        match self {
            Task::Spawner(log, out) => {
                log.borrow_mut().push(1);
                let h = token.spawn(Task::Worker(2, log.clone()));
                *out.borrow_mut() = Some(h);
                Poll::Ready
            }
            Task::Worker(tag, log) => {
                log.borrow_mut().push(*tag);
                Poll::Ready
            }
        }
    }
}

#[test]
fn handles_strictly_increasing_from_zero() {
    let mut ctx: CoroutinesContext<YieldOnce> = CoroutinesContext::new();
    ctx.update(0);
    let h0 = start_coroutine(&mut ctx, YieldOnce::new());
    let h1 = start_coroutine(&mut ctx, YieldOnce::new());
    let h2 = start_coroutine(&mut ctx, YieldOnce::new());
    assert_eq!(h0.index(), 0);
    assert_eq!(h1.index(), 1);
    assert_eq!(h2.index(), 2);
    ctx.update(0);
    let h3 = start_coroutine(&mut ctx, YieldOnce::new());
    assert_eq!(h3.index(), 3);
    stop_all_coroutines(&mut ctx);
    let h4 = start_coroutine(&mut ctx, YieldOnce::new());
    assert_eq!(h4.index(), 4);
}

#[test]
fn fresh_task_not_done() {
    let mut ctx: CoroutinesContext<YieldOnce> = CoroutinesContext::new();
    let h = start_coroutine(&mut ctx, YieldOnce::new());
    assert!(!h.is_done(&ctx));
}

#[test]
fn yield_once_completes_on_second_tick() {
    let mut ctx: CoroutinesContext<YieldOnce> = CoroutinesContext::new();
    let h = start_coroutine(&mut ctx, YieldOnce::new());
    ctx.update(0);
    assert!(!h.is_done(&ctx));
    ctx.update(0);
    assert!(h.is_done(&ctx));
}

#[test]
fn yield_once_direct_resumptions() {
    let mut y = YieldOnce::new();
    assert!(!y.polled);
    let mut token: ResumeToken<YieldOnce> = ResumeToken { now: 0, base: 0, spawned: Vec::new() };
    assert_eq!(y.resume(&mut token), Poll::Pending);
    assert!(y.polled);
    assert_eq!(y.resume(&mut token), Poll::Ready);
}

#[test]
fn wait_done_on_first_tick_with_elapsed_at_duration() {
    let mut ctx: CoroutinesContext<TimerDelayFuture> = CoroutinesContext::new();
    let h = start_coroutine(&mut ctx, TimerDelayFuture::new(1000, 50));
    ctx.update(1000);
    assert!(!h.is_done(&ctx));
    ctx.update(1030);
    assert!(!h.is_done(&ctx));
    ctx.update(1049);
    assert!(!h.is_done(&ctx));
    ctx.update(1050);
    assert!(h.is_done(&ctx));
}

#[test]
fn wait_past_deadline_completes_immediately() {
    let mut ctx: CoroutinesContext<TimerDelayFuture> = CoroutinesContext::new();
    let h = start_coroutine(&mut ctx, TimerDelayFuture::new(1000, 50));
    ctx.update(5000);
    assert!(h.is_done(&ctx));
}

#[test]
fn wait_ignores_readings_older_than_its_start() {
    let mut ctx: CoroutinesContext<TimerDelayFuture> = CoroutinesContext::new();
    let h = start_coroutine(&mut ctx, TimerDelayFuture::new(5, 0));
    ctx.update(4);
    assert!(!h.is_done(&ctx));
    ctx.update(5);
    assert!(h.is_done(&ctx));
}

#[test]
fn wait_direct_resumption_compares_against_deadline() {
    let mut w = TimerDelayFuture::new(100, 10);
    let mut before: ResumeToken<TimerDelayFuture> =
        ResumeToken { now: 109, base: 0, spawned: Vec::new() };
    assert_eq!(w.resume(&mut before), Poll::Pending);
    let mut at: ResumeToken<TimerDelayFuture> =
        ResumeToken { now: 110, base: 0, spawned: Vec::new() };
    assert_eq!(w.resume(&mut at), Poll::Ready);
}

#[test]
fn stop_makes_done_in_same_tick() {
    let mut ctx: CoroutinesContext<YieldOnce> = CoroutinesContext::new();
    let h = start_coroutine(&mut ctx, YieldOnce::new());
    ctx.update(0);
    assert!(!h.is_done(&ctx));
    stop_coroutine(&mut ctx, h);
    assert!(h.is_done(&ctx));
}

#[test]
fn double_stop_is_a_noop() {
    let mut ctx: CoroutinesContext<YieldOnce> = CoroutinesContext::new();
    let h = start_coroutine(&mut ctx, YieldOnce::new());
    let other = start_coroutine(&mut ctx, YieldOnce::new());
    stop_coroutine(&mut ctx, h);
    stop_coroutine(&mut ctx, h);
    assert!(h.is_done(&ctx));
    assert!(!other.is_done(&ctx));
}

#[test]
fn stop_all_makes_every_handle_done() {
    let mut ctx: CoroutinesContext<YieldOnce> = CoroutinesContext::new();
    let early = start_coroutine(&mut ctx, YieldOnce::new());
    ctx.update(0);
    let middle = start_coroutine(&mut ctx, YieldOnce::new());
    let late = start_coroutine(&mut ctx, YieldOnce::new());
    stop_all_coroutines(&mut ctx);
    assert!(early.is_done(&ctx));
    assert!(middle.is_done(&ctx));
    assert!(late.is_done(&ctx));
    let after = start_coroutine(&mut ctx, YieldOnce::new());
    assert!(!after.is_done(&ctx));
    assert!(early.is_done(&ctx));
}

#[test]
fn stale_handle_from_another_registry_is_safe() {
    let mut big: CoroutinesContext<YieldOnce> = CoroutinesContext::new();
    start_coroutine(&mut big, YieldOnce::new());
    start_coroutine(&mut big, YieldOnce::new());
    let stale = start_coroutine(&mut big, YieldOnce::new());
    let mut empty: CoroutinesContext<YieldOnce> = CoroutinesContext::new();
    assert!(stale.is_done(&empty));
    stop_coroutine(&mut empty, stale);
    assert!(stale.is_done(&empty));
}

#[test]
fn resumption_order_is_scheduling_order() {
    let log: Rc<RefCell<Vec<usize>>> = Rc::new(RefCell::new(Vec::new()));
    let mut ctx: CoroutinesContext<Logged> = CoroutinesContext::new();
    start_coroutine(&mut ctx, Logged { tag: 1, pending_left: 9, log: log.clone() });
    start_coroutine(&mut ctx, Logged { tag: 2, pending_left: 9, log: log.clone() });
    start_coroutine(&mut ctx, Logged { tag: 3, pending_left: 9, log: log.clone() });
    ctx.update(0);
    assert_eq!(*log.borrow(), vec![1, 2, 3]);
    ctx.update(0);
    assert_eq!(*log.borrow(), vec![1, 2, 3, 1, 2, 3]);
}

#[test]
fn task_scheduled_mid_tick_runs_only_next_tick() {
    let log: Rc<RefCell<Vec<usize>>> = Rc::new(RefCell::new(Vec::new()));
    let out: Rc<RefCell<Option<Coroutine>>> = Rc::new(RefCell::new(None));
    let mut ctx: CoroutinesContext<Task> = CoroutinesContext::new();
    start_coroutine(&mut ctx, Task::Spawner(log.clone(), out.clone()));
    ctx.update(0);
    let worker = out.borrow().expect("the spawner ran and recorded the handle");
    assert_eq!(*log.borrow(), vec![1]);
    assert_eq!(worker.index(), 1);
    assert!(!worker.is_done(&ctx));
    ctx.update(0);
    assert_eq!(*log.borrow(), vec![1, 2]);
    assert!(worker.is_done(&ctx));
}

#[test]
fn immediately_ready_task_done_after_one_update() {
    let mut ctx: CoroutinesContext<ReadyNow> = CoroutinesContext::new();
    let h = start_coroutine(&mut ctx, ReadyNow);
    assert!(!h.is_done(&ctx));
    ctx.update(0);
    assert!(h.is_done(&ctx));
}

#[test]
fn completed_task_stays_done_across_ticks() {
    let mut ctx: CoroutinesContext<ReadyNow> = CoroutinesContext::new();
    let h = start_coroutine(&mut ctx, ReadyNow);
    ctx.update(0);
    assert!(h.is_done(&ctx));
    ctx.update(1);
    ctx.update(2);
    assert!(h.is_done(&ctx));
    let next = start_coroutine(&mut ctx, ReadyNow);
    assert_eq!(next.index(), 1);
    assert!(h.is_done(&ctx));
}
