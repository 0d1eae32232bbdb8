//! A way to emulate cooperative multitasking: useful for organizing state
//! machines, animation cutscenes and other logic that evolves over time.
//!
//! A [`CoroutinesContext`] owns a registry of suspended computations. The host
//! frame loop calls [`CoroutinesContext::update`] exactly once per frame; the
//! registry resumes every active computation exactly once, in scheduling
//! order. A computation either completes (its slot is emptied) or re-suspends
//! (its slot is kept unchanged for the next tick).
//!
//! Slot indices are assigned strictly increasingly and are never reused, so a
//! [`Coroutine`] handle stays safely queryable for the life of the registry,
//! even across [`stop_all_coroutines`]. A computation that never completes and
//! is never stopped occupies its slot forever; releasing it is the caller's
//! responsibility.

use vstd::prelude::*;

verus! {

/// What one resumption of a computation reports back to the registry:
/// the computation has either run to completion or suspended again.
#[derive(Clone, Copy, Debug, PartialEq, Eq, Structural)]
pub enum Poll {
    /// The computation reached its logical completion point.
    Ready,
    /// The computation reached a suspension point and gave control back.
    Pending,
}

/// A lightweight, copyable handle to one scheduled computation's slot.
///
/// A handle does not own the computation: it wraps the slot's stable index and
/// remains valid (safely queryable, never indexing out of bounds) for the life
/// of the registry, even after the task completed or the registry was reset.
#[derive(Clone, Copy, Debug)]
pub struct Coroutine {
    id: usize,
}

impl View for Coroutine {
    type V = int;

    /// A handle is, mathematically, the index of the slot it refers to.
    closed spec fn view(&self) -> int {
        self.id as int
    }
}

/// The task registry: owns every scheduled computation and drives resumption.
///
/// Mathematically the registry is a sequence of slots, each either empty
/// (`None`) or holding a suspended computation (`Some`). The sequence only
/// ever grows: completed or stopped slots become `None` but keep their index,
/// so indices are never handed to a second task.
pub struct CoroutinesContext<C> {
    futures: Vec<Option<C>>,
}

impl<C> View for CoroutinesContext<C> {
    type V = Seq<Option<C>>;

    closed spec fn view(&self) -> Seq<Option<C>> {
        self.futures@
    }
}

/// The ephemeral value passed into a computation on each resumption. It tells
/// the computation that it is being resumed right now — there is no other wake
/// mechanism, so every suspension point re-checks its own completion condition
/// against `now` on every resumption — and it collects the computations the
/// body schedules during the tick, so that the registry can append them after
/// the resumption returns (they are not resumed within the same tick).
pub struct ResumeToken<C> {
    /// The time source's reading for the tick this resumption belongs to.
    pub now: u64,
    /// The slot index the first computation spawned through this token gets.
    pub base: usize,
    /// The computations spawned during this resumption, in spawn order.
    pub spawned: Vec<C>,
}

impl<C> ResumeToken<C> {
    /// Schedules `future` from inside a computation's body, mid-tick. The task
    /// is appended to the registry right after this resumption returns, and is
    /// first resumed on the next tick, never the current one. Returns the
    /// handle the new task will occupy.
    pub fn spawn(&mut self, future: C) -> (r: Coroutine)
        requires
            old(self).base + old(self).spawned@.len() < usize::MAX,
        ensures
            final(self).spawned@ == old(self).spawned@.push(future),
            final(self).base == old(self).base,
            final(self).now == old(self).now,
            r@ == old(self).base + old(self).spawned@.len(),
    {
        let id = self.base + self.spawned.len();
        self.spawned.push(future);
        Coroutine { id }
    }
}

/// One suspendable unit of sequential logic, driven by the registry.
///
/// On each resumption a computation synchronously works until it either
/// reaches its logical completion point (reporting [`Poll::Ready`]) or a
/// suspension point (reporting [`Poll::Pending`] and returning control at
/// once). All state between resumptions is the computation's own; the registry
/// treats it as opaque and resumes it at most once per tick.
///
/// The three spec functions are the computation's mathematical behaviour: on a
/// resumption at time `now`, whether it completes, what state it re-suspends
/// in, and which new computations it spawns through the token. Their defaults
/// describe an inert computation (never completes, never changes, spawns
/// nothing); an implementation overrides whichever differ.
pub trait Computation: Sized {
    /// Whether a resumption at time `now` reaches the completion point.
    open spec fn ready(self, now: u64) -> bool {
        false
    }

    /// The state the computation holds after a resumption at time `now`.
    open spec fn next(self, now: u64) -> Self {
        self
    }

    /// The computations spawned through the token during a resumption at
    /// time `now`, in spawn order.
    open spec fn spawns(self, now: u64) -> Seq<Self> {
        Seq::empty()
    }

    /// Perform one resumption: run synchronously until completion or the next
    /// suspension point. Must return promptly (cooperative scheduling: the
    /// rest of the tick's slots and the frame's rendering wait on it).
    fn resume(&mut self, token: &mut ResumeToken<Self>) -> (r: Poll)
        ensures
            r is Ready <==> old(self).ready(old(token).now),
            *final(self) == old(self).next(old(token).now),
            final(token).spawned@ == old(token).spawned@ + old(self).spawns(old(token).now),
            final(token).base == old(token).base,
            final(token).now == old(token).now,
    ;
}

/// Suspends exactly once: reports `Pending` on its first resumption and
/// `Ready` on its second, whatever the clock says. Used by a computation to
/// give up control for exactly one tick.
#[derive(Clone, Copy, Debug, PartialEq, Eq, Structural)]
pub struct YieldOnce {
    /// Whether the first resumption already happened.
    pub polled: bool,
}

impl YieldOnce {
    /// A yield-once computation that has not been resumed yet.
    pub fn new() -> (r: YieldOnce)
        ensures
            r == (YieldOnce { polled: false }),
    {
        YieldOnce { polled: false }
    }
}

impl Computation for YieldOnce {
    /// Ready exactly from the second resumption on.
    open spec fn ready(self, now: u64) -> bool {
        self.polled
    }

    open spec fn next(self, now: u64) -> YieldOnce {
        YieldOnce { polled: true }
    }

    open spec fn spawns(self, now: u64) -> Seq<YieldOnce> {
        Seq::empty()
    }

    fn resume(&mut self, token: &mut ResumeToken<YieldOnce>) -> (r: Poll) {
        if self.polled {
            Poll::Ready
        } else {
            self.polled = true;
            Poll::Pending
        }
    }
}

/// Suspends until a wall-clock deadline: captures an absolute deadline
/// `start_time + time` at construction and, on each resumption, compares the
/// tick's time reading against it — `Ready` once the deadline is reached,
/// `Pending` before. Only elapsed time matters, never the number of ticks, so
/// how many ticks the wait consumes depends on the frame rate.
///
/// Time is whatever integer unit the host's time source uses (the host passes
/// readings of the same clock to [`CoroutinesContext::update`]).
#[derive(Clone, Copy, Debug, PartialEq, Eq, Structural)]
pub struct TimerDelayFuture {
    /// The time source's reading when the wait was constructed.
    pub start_time: u64,
    /// The duration to wait, in the time source's units.
    pub time: u64,
}

impl TimerDelayFuture {
    /// A wait constructed at time `now` for `time` time units: it reports
    /// done on the first tick whose reading satisfies `reading - now >= time`.
    pub fn new(now: u64, time: u64) -> (r: TimerDelayFuture)
        ensures
            r == (TimerDelayFuture { start_time: now, time }),
    {
        TimerDelayFuture { start_time: now, time }
    }
}

impl Computation for TimerDelayFuture {
    /// Ready exactly when the elapsed time since construction has reached the
    /// requested duration (a reading older than the construction time never
    /// counts as elapsed).
    open spec fn ready(self, now: u64) -> bool {
        now - self.start_time >= self.time
    }

    open spec fn next(self, now: u64) -> TimerDelayFuture {
        self
    }

    open spec fn spawns(self, now: u64) -> Seq<TimerDelayFuture> {
        Seq::empty()
    }

    fn resume(&mut self, token: &mut ResumeToken<TimerDelayFuture>) -> (r: Poll) {
        if token.now >= self.start_time && token.now - self.start_time >= self.time {
            Poll::Ready
        } else {
            Poll::Pending
        }
    }
}

/// What one tick makes of a single slot: an empty slot stays empty; an
/// occupied slot is resumed once and is emptied if the resumption completes,
/// or keeps the re-suspended computation otherwise.
pub open spec fn step_slot<C: Computation>(slot: Option<C>, now: u64) -> Option<C> {
    match slot {
        None => None,
        Some(c) => if c.ready(now) {
            None
        } else {
            Some(c.next(now))
        },
    }
}

/// The computations one slot spawns during a tick: an empty slot is not
/// resumed and spawns nothing.
pub open spec fn slot_spawns<C: Computation>(slot: Option<C>, now: u64) -> Seq<C> {
    match slot {
        None => Seq::empty(),
        Some(c) => c.spawns(now),
    }
}

/// All computations spawned during one tick over the slots `s`, in resumption
/// order (ascending slot index, and spawn order within one resumption).
pub open spec fn spawned_during<C: Computation>(s: Seq<Option<C>>, now: u64) -> Seq<C>
    decreases s.len(),
{
    if s.len() == 0 {
        Seq::empty()
    } else {
        slot_spawns(s[0], now) + spawned_during(s.drop_first(), now)
    }
}

/// A row of freshly scheduled (occupied) slots holding the computations `cs`.
pub open spec fn as_active<C>(cs: Seq<C>) -> Seq<Option<C>> {
    Seq::new(cs.len() as nat, |i: int| Some(cs[i]))
}

/// The registry after one tick at time `now`: every slot present when the tick
/// began is stepped once ([`step_slot`]), and the computations spawned during
/// the tick are appended as new occupied slots — scheduled, but not resumed
/// within this same tick.
pub open spec fn tick<C: Computation>(s: Seq<Option<C>>, now: u64) -> Seq<Option<C>> {
    Seq::new(s.len(), |i: int| step_slot(s[i], now)) + as_active(spawned_during(s, now))
}

proof fn lemma_spawned_during_push<C: Computation>(s: Seq<Option<C>>, x: Option<C>, now: u64)
    ensures
        spawned_during(s.push(x), now) == spawned_during(s, now) + slot_spawns(x, now),
    decreases s.len(),
{
    if s.len() == 0 {
        assert(s.push(x).drop_first() =~= Seq::<Option<C>>::empty());
        assert(spawned_during(Seq::<Option<C>>::empty(), now) =~= Seq::<C>::empty());
        assert(s.push(x)[0] == x);
        assert(spawned_during(s.push(x), now) =~= spawned_during(s, now) + slot_spawns(x, now));
    } else {
        assert(s.push(x).drop_first() =~= s.drop_first().push(x));
        lemma_spawned_during_push(s.drop_first(), x, now);
        assert(spawned_during(s.push(x), now) =~= spawned_during(s, now) + slot_spawns(x, now));
    }
}

proof fn lemma_spawned_during_take_step<C: Computation>(s: Seq<Option<C>>, i: int, now: u64)
    requires
        0 <= i < s.len(),
    ensures
        spawned_during(s.take(i + 1), now) == spawned_during(s.take(i), now) + slot_spawns(
            s[i],
            now,
        ),
{
    assert(s.take(i + 1) =~= s.take(i).push(s[i]));
    lemma_spawned_during_push(s.take(i), s[i], now);
}

impl<C: Computation> CoroutinesContext<C> {
    /// One tick: resumes every occupied slot exactly once, in ascending index
    /// order (which is scheduling order), passing each computation a fresh
    /// resumption token carrying the time reading `now`. A completing
    /// computation's slot is emptied and its resources released; a re-suspended
    /// one keeps its slot unchanged for the next tick. Computations spawned
    /// through the tokens are appended behind the pre-existing slots and are
    /// not resumed within this call.
    ///
    /// The host frame loop calls this exactly once per frame, before
    /// rendering, with a reading of a monotonic clock.
    pub fn update(&mut self, now: u64)
        ensures
            final(self)@ == tick(old(self)@, now),
            final(self)@.len() >= old(self)@.len(),
    {
        let n = self.futures.len();
        let mut i: usize = 0;
        while i < n
            invariant
                i <= n,
                n == old(self)@.len(),
                self.futures@.len() == n + spawned_during(old(self)@.take(i as int), now).len(),
                forall|k: int| 0 <= k < i ==> self.futures@[k] == step_slot(old(self)@[k], now),
                forall|k: int| i <= k < n ==> self.futures@[k] == old(self)@[k],
                self.futures@.skip(n as int) == as_active(
                    spawned_during(old(self)@.take(i as int), now),
                ),
            decreases n - i,
        {
            let ghost w = self.futures@;
            let base = self.futures.len();
            let cur = self.futures.remove(i);
            match cur {
                None => {
                    self.futures.insert(i, None);
                    proof {
                        assert(self.futures@ =~= w);
                        lemma_spawned_during_take_step(old(self)@, i as int, now);
                        assert(spawned_during(old(self)@.take(i as int + 1), now) =~=
                            spawned_during(old(self)@.take(i as int), now));
                    }
                },
                Some(mut f) => {
                    let ghost f0 = f;
                    let mut token = ResumeToken { now, base, spawned: Vec::new() };
                    let r = f.resume(&mut token);
                    match r {
                        Poll::Pending => self.futures.insert(i, Some(f)),
                        Poll::Ready => self.futures.insert(i, None),
                    }
                    proof {
                        assert(self.futures@ =~= w.update(i as int, step_slot(Some(f0), now)));
                    }
                    let mut spawned = token.spawned;
                    let ghost mid = self.futures@;
                    let ghost sp = spawned@;
                    while spawned.len() > 0
                        invariant
                            spawned@.len() <= sp.len(),
                            spawned@ == sp.skip(sp.len() - spawned@.len()),
                            self.futures@ == mid + as_active(
                                sp.take(sp.len() - spawned@.len()),
                            ),
                        decreases spawned@.len(),
                    {
                        let ghost j = sp.len() - spawned@.len();
                        let c = spawned.remove(0);
                        self.futures.push(Some(c));
                        proof {
                            assert(c == sp[j]);
                            assert(spawned@ =~= sp.skip(j + 1));
                            assert(self.futures@ =~= mid + as_active(sp.take(j + 1)));
                        }
                    }
                    proof {
                        assert(sp.take(sp.len() as int) =~= sp);
                        assert(self.futures@ =~= mid + as_active(sp));
                        lemma_spawned_during_take_step(old(self)@, i as int, now);
                        assert(sp =~= f0.spawns(now));
                        assert(slot_spawns(old(self)@[i as int], now) == f0.spawns(now));
                        assert(mid.skip(n as int) =~= w.skip(n as int));
                        assert(self.futures@.skip(n as int) =~= mid.skip(n as int) + as_active(
                            sp,
                        ));
                        assert(self.futures@.skip(n as int) =~= as_active(
                            spawned_during(old(self)@.take(i as int + 1), now),
                        ));
                    }
                },
            }
            i += 1;
        }
        proof {
            assert(old(self)@.take(n as int) =~= old(self)@);
            assert(self.futures@ =~= tick(old(self)@, now));
        }
    }
}

/// Whether the slot a handle with index `id` refers to is empty in `s`:
/// an index past the end (a handle from a larger, unrelated registry) also
/// counts as done rather than failing.
pub open spec fn done_at<C>(s: Seq<Option<C>>, id: int) -> bool {
    id < 0 || id >= s.len() || s[id] is None
}

/// The registry after stopping the slot `id`: that slot is emptied; stopping
/// an already empty or out-of-range slot changes nothing.
pub open spec fn stopped<C>(s: Seq<Option<C>>, id: int) -> Seq<Option<C>> {
    if 0 <= id < s.len() {
        s.update(id, None)
    } else {
        s
    }
}

/// The registry after a full reset: every slot is emptied, but the slots are
/// retained, so previously issued handles still index safely.
pub open spec fn cleared<C>(s: Seq<Option<C>>) -> Seq<Option<C>> {
    Seq::new(s.len(), |i: int| None::<C>)
}

impl<C> CoroutinesContext<C> {
    /// A fresh registry with no slots.
    pub fn new() -> (r: CoroutinesContext<C>)
        ensures
            r@ == Seq::<Option<C>>::empty(),
    {
        CoroutinesContext { futures: Vec::with_capacity(1000) }
    }
}

impl Coroutine {
    /// The stable slot index this handle wraps.
    pub fn index(&self) -> (r: usize)
        ensures
            r as int == self@,
    {
        self.id
    }

    /// True iff the slot this handle refers to is empty: the task completed
    /// naturally, was stopped individually, or was swept away by a full reset.
    /// Never fails, whatever the handle's history.
    pub fn is_done<C>(&self, context: &CoroutinesContext<C>) -> (r: bool)
        ensures
            r == done_at(context@, self@),
    {
        if self.id >= context.futures.len() {
            true
        } else {
            context.futures[self.id].is_none()
        }
    }
}

/// Appends a new active slot holding `future` and returns a handle wrapping
/// the newly assigned index, which equals the slot count before the append.
/// Never fails and never resumes the computation by itself.
pub fn start_coroutine<C>(context: &mut CoroutinesContext<C>, future: C) -> (r: Coroutine)
    ensures
        final(context)@ == old(context)@.push(Some(future)),
        r@ == old(context)@.len(),
{
    let id = context.futures.len();
    context.futures.push(Some(future));
    Coroutine { id }
}

/// Unconditionally empties the handle's slot, releasing the computation even
/// mid-suspension. Stopping an already completed task, or a handle from a
/// larger registry, is a no-op, not an error.
pub fn stop_coroutine<C>(context: &mut CoroutinesContext<C>, coroutine: Coroutine)
    ensures
        final(context)@ == stopped(old(context)@, coroutine@),
{
    if coroutine.id < context.futures.len() {
        context.futures[coroutine.id] = None;
    }
}

/// Empties every slot, releasing all computations at once. The slots are kept
/// (only marked empty), so every previously issued handle remains safely
/// queryable and reports done afterwards.
pub fn stop_all_coroutines<C>(context: &mut CoroutinesContext<C>)
    ensures
        final(context)@ == cleared(old(context)@),
{
    let n = context.futures.len();
    let mut i: usize = 0;
    while i < n
        invariant
            i <= n,
            n == old(context)@.len(),
            context.futures@.len() == n,
            forall|k: int| 0 <= k < i ==> context.futures@[k] is None,
            forall|k: int| i <= k < n ==> context.futures@[k] == old(context)@[k],
        decreases n - i,
    {
        context.futures[i] = None;
        i += 1;
    }
    proof {
        assert(context@ =~= cleared(old(context)@));
    }
}

proof fn lemma_slot_counts_monotone(lens: Seq<nat>, i: int, j: int)
    requires
        forall|k: int| 0 <= k < lens.len() - 1 ==> #[trigger] lens[k] <= lens[k + 1],
        0 <= i <= j < lens.len(),
    ensures
        lens[i] <= lens[j],
    decreases j - i,
{
    if i < j {
        lemma_slot_counts_monotone(lens, i, j - 1);
        assert(lens[j - 1] <= lens[j]);
    }
}

/// Law: handles carry strictly increasing indices. No operation ever shrinks
/// the registry (a tick only appends slots; stopping and resetting keep the
/// length), so the slot counts observed over any run form a monotone sequence
/// `lens`. A scheduling performed at step `i` returns the handle `lens[i]` and
/// grows the count by exactly one; any later scheduling, at step `j`, returns
/// `lens[j]`, which this law shows to be strictly larger. A new registry has
/// zero slots, so the first handle it issues is index 0.
pub proof fn lemma_handles_strictly_increase(lens: Seq<nat>, i: int, j: int)
    requires
        forall|k: int| 0 <= k < lens.len() - 1 ==> #[trigger] lens[k] <= lens[k + 1],
        0 <= i < j < lens.len(),
        lens[i + 1] == lens[i] + 1,
    ensures
        lens[j] > lens[i],
{
    lemma_slot_counts_monotone(lens, i + 1, j);
}

/// Law: immediately after a scheduling, the returned handle (wrapping the
/// index `s.len()`, the slot count before the append) does not report done:
/// its slot is occupied and the computation has not yet been resumed.
pub proof fn lemma_scheduled_task_not_done<C>(s: Seq<Option<C>>, c: C)
    ensures
        !done_at(s.push(Some(c)), s.len() as int),
{
}

/// Law: a yield-once computation never completes on its first resumption and
/// always completes on its second, whatever the clock reads at either tick.
pub proof fn lemma_yield_once_completes_on_second_resumption(y: YieldOnce, now1: u64, now2: u64)
    requires
        !y.polled,
    ensures
        !y.ready(now1),
        y.next(now1).ready(now2),
{
}

/// Law: a timed wait scheduled behind the slots `s` reports done after a tick
/// exactly when that tick's time reading shows an elapsed time of at least the
/// requested duration; on a tick that comes too early the slot still holds the
/// identical wait, so the same holds again, tick after tick, until the
/// deadline is reached.
pub proof fn lemma_wait_done_exactly_when_elapsed(
    s: Seq<Option<TimerDelayFuture>>,
    start: u64,
    d: u64,
    now: u64,
)
    ensures
        done_at(tick(s.push(Some(TimerDelayFuture { start_time: start, time: d })), now), s.len() as int)
            <==> now - start >= d,
        now - start < d ==> tick(s.push(Some(TimerDelayFuture { start_time: start, time: d })), now)[s.len() as int]
            == Some(TimerDelayFuture { start_time: start, time: d }),
{
}

/// Law: stopping a task makes its handle report done in the same tick it is
/// called, even if the underlying computation was still pending.
pub proof fn lemma_stop_makes_done<C>(s: Seq<Option<C>>, id: int)
    ensures
        done_at(stopped(s, id), id),
{
}

/// Law: a full reset makes every handle report done — handles issued before
/// and after other tasks were scheduled alike, in range of the registry or
/// not — and the reset keeps every slot, so no handle can index out of bounds
/// afterwards.
pub proof fn lemma_stop_all_makes_every_handle_done<C>(s: Seq<Option<C>>, id: int)
    ensures
        done_at(cleared(s), id),
{
}

/// Law: a slot that is empty when a tick begins is still empty when it ends,
/// so a completed or stopped task keeps reporting done across ticks.
pub proof fn lemma_done_stays_done_across_tick<C: Computation>(
    s: Seq<Option<C>>,
    now: u64,
    id: int,
)
    requires
        0 <= id < s.len(),
        done_at(s, id),
    ensures
        done_at(tick(s, now), id),
{
}

/// Law: tasks scheduled during a tick are appended behind every slot that
/// existed when the tick began, and are not resumed within that same tick:
/// when the tick ends each of them is still scheduled, occupied and awaiting
/// its first resumption on the next tick.
pub proof fn lemma_spawned_tasks_deferred<C: Computation>(s: Seq<Option<C>>, now: u64, j: int)
    requires
        s.len() <= j < tick(s, now).len(),
    ensures
        tick(s, now)[j] is Some,
{
}

/// Law (round trip): scheduling a computation that signals ready on its very
/// first resumption results in its handle reporting done after exactly one
/// tick.
pub proof fn lemma_immediately_ready_done_after_one_tick<C: Computation>(
    s: Seq<Option<C>>,
    c: C,
    now: u64,
)
    requires
        c.ready(now),
    ensures
        done_at(tick(s.push(Some(c)), now), s.len() as int),
{
}

} // verus!
