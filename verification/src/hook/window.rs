//! Notifications about window changes, at most one per cooldown.
//!
//! Times are nanoseconds on a clock of the caller's choice that never runs
//! backwards.

use vstd::prelude::*;

verus! {

/// The least time between two notifications, in nanoseconds: 200 ms.
pub const WINDOW_HOOK_COOLDOWN: u64 = 200_000_000;

/// Why the window hook could not be launched.
#[derive(Debug, Clone, Copy, PartialEq, Eq, Structural)]
pub enum HookError {
    /// The hook is launched already, and there can be only one.
    AlreadyLaunched,
}

/// What to do about a tick.
#[derive(Debug, Clone, Copy, PartialEq, Eq, Structural)]
pub enum Tick {
    /// Send a notification now.
    Notify,
    /// Send nothing now. After `delay`, tick again, unless another
    /// notification has been sent since the one at `since`.
    Retry { delay: u64, since: u64 },
}

/// The time from `last` to `now`, and zero if `now` is the earlier one.
pub open spec fn elapsed(last: u64, now: u64) -> int {
    if now >= last {
        now - last
    } else {
        0
    }
}

/// Whether a tick at `now` notifies when the last notification was at `last`:
/// more than the cooldown has passed.
pub open spec fn notifies(last: u64, now: u64) -> bool {
    elapsed(last, now) > WINDOW_HOOK_COOLDOWN
}

/// The answer to a tick at `now` when the last notification was at `last`.
/// Where the tick does not notify, the rest of the cooldown is the delay.
pub open spec fn tick_result(last: u64, now: u64) -> Tick {
    if notifies(last, now) {
        Tick::Notify
    } else {
        Tick::Retry { delay: (WINDOW_HOOK_COOLDOWN - elapsed(last, now)) as u64, since: last }
    }
}

/// The time of the last notification after a tick at `now`.
pub open spec fn notified_after(last: u64, now: u64) -> u64 {
    if notifies(last, now) {
        now
    } else {
        last
    }
}

/// The times at which notifications are sent when ticks come at `ticks`, one
/// after the other, and the last notification before them was at `last`.
pub open spec fn notifications(last: u64, ticks: Seq<u64>) -> Seq<u64>
    decreases ticks.len(),
{
    if ticks.len() == 0 {
        Seq::empty()
    } else if notifies(last, ticks.first()) {
        seq![ticks.first()] + notifications(ticks.first(), ticks.drop_first())
    } else {
        notifications(last, ticks.drop_first())
    }
}

/// How many of `times` lie between `from` and `until`, both included.
pub open spec fn count_within(times: Seq<u64>, from: int, until: int) -> nat
    decreases times.len(),
{
    if times.len() == 0 {
        0
    } else if from <= times.last() <= until {
        count_within(times.drop_last(), from, until) + 1
    } else {
        count_within(times.drop_last(), from, until)
    }
}

/// The number of cooldowns that it takes to cover `span`: `span` divided by
/// the cooldown, rounded up.
pub open spec fn cooldowns_in(span: int) -> int {
    (span + WINDOW_HOOK_COOLDOWN - 1) / (WINDOW_HOOK_COOLDOWN as int)
}

/// Whether each of `times` comes more than a cooldown after the one before
/// it, so that any two of them are further apart than as many cooldowns as
/// there are steps between them.
pub open spec fn spaced(times: Seq<u64>) -> bool {
    forall|i: int, j: int|
        0 <= i < j < times.len() ==> #[trigger] times[j] - #[trigger] times[i] > (j - i)
            * WINDOW_HOOK_COOLDOWN
}

/// Notifications are spaced: each comes more than a cooldown after the one
/// before it, and the first more than a cooldown after `last`.
pub proof fn lemma_notifications_spaced(last: u64, ticks: Seq<u64>)
    ensures
        spaced(notifications(last, ticks)),
        forall|i: int|
            0 <= i < notifications(last, ticks).len() ==> #[trigger] notifications(last, ticks)[i]
                - last > (i + 1) * WINDOW_HOOK_COOLDOWN,
    decreases ticks.len(),
{
    let sent = notifications(last, ticks);
    if ticks.len() > 0 {
        let now = ticks.first();
        let rest = ticks.drop_first();
        if notifies(last, now) {
            let later = notifications(now, rest);
            lemma_notifications_spaced(now, rest);
            assert forall|i: int| 0 <= i < sent.len() implies #[trigger] sent[i] - last > (i + 1)
                * WINDOW_HOOK_COOLDOWN by {
                if i > 0 {
                    assert(sent[i] == later[i - 1]);
                }
            }
            assert forall|i: int, j: int| 0 <= i < j < sent.len() implies #[trigger] sent[j]
                - #[trigger] sent[i] > (j - i) * WINDOW_HOOK_COOLDOWN by {
                assert(sent[j] == later[j - 1]);
                if i > 0 {
                    assert(sent[i] == later[i - 1]);
                }
            }
        } else {
            lemma_notifications_spaced(last, rest);
        }
    }
}

/// Where some of `times` lie within a window, two of them do that are at
/// least as many steps apart as one less than their number.
proof fn lemma_count_spans(times: Seq<u64>, from: int, until: int)
    ensures
        count_within(times, from, until) <= times.len(),
        count_within(times, from, until) > 0 ==> exists|i: int, j: int|
            #![trigger times[i], times[j]]
            0 <= i <= j < times.len() && from <= times[i] && times[j] <= until && j - i
                >= count_within(times, from, until) - 1,
    decreases times.len(),
{
    if times.len() > 0 {
        let earlier = times.drop_last();
        let end = times.len() - 1;
        lemma_count_spans(earlier, from, until);
        if from <= times.last() <= until {
            if count_within(earlier, from, until) > 0 {
                let (i, j) = choose|i: int, j: int|
                    #![trigger earlier[i], earlier[j]]
                    0 <= i <= j < earlier.len() && from <= earlier[i] && earlier[j] <= until && j
                        - i >= count_within(earlier, from, until) - 1;
                assert(from <= times[i] && times[end] <= until);
            } else {
                assert(from <= times[end] && times[end] <= until);
            }
        } else if count_within(earlier, from, until) > 0 {
            let (i, j) = choose|i: int, j: int|
                #![trigger earlier[i], earlier[j]]
                0 <= i <= j < earlier.len() && from <= earlier[i] && earlier[j] <= until && j - i
                    >= count_within(earlier, from, until) - 1;
            assert(from <= times[i] && times[j] <= until);
        }
    }
}

/// However the ticks come, a window of time of length `span` holds at most
/// one notification more than the number of cooldowns in `span`, rounded up.
pub proof fn lemma_notifications_bounded(last: u64, ticks: Seq<u64>, from: int, span: int)
    requires
        0 <= span,
    ensures
        count_within(notifications(last, ticks), from, from + span) <= cooldowns_in(span) + 1,
{
    let sent = notifications(last, ticks);
    let count = count_within(sent, from, from + span);
    lemma_notifications_spaced(last, ticks);
    lemma_count_spans(sent, from, from + span);
    if count >= 2 {
        let (i, j) = choose|i: int, j: int|
            #![trigger sent[i], sent[j]]
            0 <= i <= j < sent.len() && from <= sent[i] && sent[j] <= from + span && j - i >= count
                - 1;
        assert(sent[j] - sent[i] > (j - i) * WINDOW_HOOK_COOLDOWN);
        assert((count - 1) * WINDOW_HOOK_COOLDOWN < span);
    }
}

/// A window event is not lost. A tick at `raw`, no earlier than the last
/// notification, notifies at once, or else it asks for a retry that comes due
/// a cooldown after the last notification, which is no later than a cooldown
/// after the tick. When that retry runs at `fired`, after it came due, and no
/// notification has been sent meanwhile, it notifies.
pub proof fn lemma_trailing_edge(last: u64, raw: u64, fired: u64)
    requires
        last <= raw,
        fired > last + WINDOW_HOOK_COOLDOWN,
    ensures
        match tick_result(last, raw) {
            Tick::Notify => notified_after(last, raw) == raw,
            Tick::Retry { delay, since } => {
                &&& since == last
                &&& notified_after(last, raw) == last
                &&& raw + delay == last + WINDOW_HOOK_COOLDOWN
                &&& raw + delay <= raw + WINDOW_HOOK_COOLDOWN
                &&& tick_result(since, fired) == Tick::Notify
                &&& notified_after(since, fired) == fired
            },
        },
{
}

/// The state between ticks: when the last notification was sent.
#[derive(Debug, Clone, Copy, PartialEq, Eq, Structural)]
pub struct WindowHookContext {
    last_time_notified: u64,
}

impl View for WindowHookContext {
    type V = u64;

    /// The time of the last notification.
    closed spec fn view(&self) -> u64 {
        self.last_time_notified
    }
}

impl WindowHookContext {
    /// A context that counts the cooldown from `now`.
    pub fn new(now: u64) -> (context: WindowHookContext)
        ensures
            context@ == now,
    {
        WindowHookContext { last_time_notified: now }
    }

    /// The time of the last notification.
    pub fn last_time_notified(&self) -> (last: u64)
        ensures
            last == self@,
    {
        self.last_time_notified
    }

    /// Handles a tick at `now`: a window event, or a retry that has come due.
    ///
    /// It notifies if more than the cooldown has passed since the last
    /// notification, and then counts the cooldown from `now`. Otherwise it
    /// asks for a retry once the rest of the cooldown is over.
    pub fn tick(&mut self, now: u64) -> (answer: Tick)
        ensures
            answer == tick_result(old(self)@, now),
            final(self)@ == notified_after(old(self)@, now),
    {
        let passed: u64 = if now >= self.last_time_notified {
            now - self.last_time_notified
        } else {
            0
        };
        if passed > WINDOW_HOOK_COOLDOWN {
            self.last_time_notified = now;
            Tick::Notify
        } else {
            Tick::Retry { delay: WINDOW_HOOK_COOLDOWN - passed, since: self.last_time_notified }
        }
    }

    /// Handles a retry that was asked for when the last notification was the
    /// one at `since`. If another notification has been sent meanwhile, the
    /// retry is void and nothing happens. Otherwise it is a tick at `now`.
    pub fn retry(&mut self, since: u64, now: u64) -> (answer: Option<Tick>)
        ensures
            old(self)@ == since ==> answer == Some(tick_result(since, now)) && final(self)@
                == notified_after(since, now),
            old(self)@ != since ==> answer is None && final(self)@ == old(self)@,
    {
        if self.last_time_notified == since {
            Some(self.tick(now))
        } else {
            None
        }
    }
}

/// The one place for a window hook: empty, or holding the context of the hook
/// that is launched.
pub struct WindowHook {
    context: Option<WindowHookContext>,
}

impl View for WindowHook {
    type V = Option<u64>;

    /// The time of the last notification of the launched hook, if there is
    /// one.
    closed spec fn view(&self) -> Option<u64> {
        match self.context {
            Some(context) => Some(context@),
            None => None,
        }
    }
}

impl WindowHook {
    /// The place without a hook.
    pub fn new() -> (hook: WindowHook)
        ensures
            hook@ is None,
    {
        WindowHook { context: None }
    }

    /// Whether a hook is launched.
    pub fn is_launched(&self) -> (launched: bool)
        ensures
            launched == (self@ is Some),
    {
        self.context.is_some()
    }

    /// A window event at `now`: a tick of the launched hook. Without a hook
    /// nothing happens.
    pub fn on_event(&mut self, now: u64) -> (answer: Option<Tick>)
        ensures
            match old(self)@ {
                Some(last) => answer == Some(tick_result(last, now)) && final(self)@ == Some(
                    notified_after(last, now),
                ),
                None => answer is None && final(self)@ is None,
            },
    {
        match self.context {
            Some(mut context) => {
                let answer = context.tick(now);
                self.context = Some(context);
                Some(answer)
            },
            None => None,
        }
    }

    /// A retry that has come due at `now`, asked for when the last
    /// notification was the one at `since`. It is a tick of the launched hook
    /// if no other notification has been sent meanwhile. Else, and without a
    /// hook, nothing happens.
    pub fn on_retry(&mut self, since: u64, now: u64) -> (answer: Option<Tick>)
        ensures
            old(self)@ == Some(since) ==> answer == Some(tick_result(since, now)) && final(self)@
                == Some(notified_after(since, now)),
            old(self)@ != Some(since) ==> answer is None && final(self)@ == old(self)@,
    {
        match self.context {
            Some(mut context) => {
                let answer = context.retry(since, now);
                self.context = Some(context);
                answer
            },
            None => None,
        }
    }

    /// Takes the hook away, so that one can be launched again.
    pub fn release(&mut self)
        ensures
            final(self)@ is None,
    {
        self.context = None;
    }
}

/// Launches the window hook at `now`. There is room for one: while a hook is
/// launched, another launch is refused and changes nothing.
pub fn launch_window_hook(hook: &mut WindowHook, now: u64) -> (result: Result<(), HookError>)
    ensures
        old(hook)@ is None ==> result is Ok && final(hook)@ == Some(now),
        old(hook)@ is Some ==> result == Err::<(), HookError>(HookError::AlreadyLaunched)
            && final(hook)@ == old(hook)@,
{
    if hook.context.is_some() {
        Err(HookError::AlreadyLaunched)
    } else {
        hook.context = Some(WindowHookContext::new(now));
        Ok(())
    }
}

} // verus!
