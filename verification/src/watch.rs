//! The watch loop's decision logic: debouncing of filesystem events and
//! the build-in-flight bookkeeping. The loop itself — sleeping, running
//! the build, sending the reload signal — is driven from outside; every
//! decision of when to rebuild is made and verified here.

use vstd::prelude::*;

verus! {

/// A filesystem event kind: only content modifications qualify as
/// rebuild triggers.
#[derive(Copy, Clone, PartialEq, Eq, Structural, Debug)]
pub enum FsEventKind {
    Modify,
    Other,
}

/// The deadline after noting one event: a qualifying event opens a
/// batch when none is pending; everything else is absorbed.
pub open spec fn note_post(deadline: Option<u64>, window: u64, now: u64, kind: FsEventKind) -> Option<
    u64,
> {
    match deadline {
        Some(d) => Some(d),
        None => if kind is Modify {
            Some((now + window) as u64)
        } else {
            None
        },
    }
}

/// Whether a pending batch is due.
pub open spec fn due_at(deadline: Option<u64>, now: u64) -> bool {
    deadline matches Some(d) && now >= d
}

/// The deadline after noting a sequence of timed events.
pub open spec fn note_all(
    deadline: Option<u64>,
    window: u64,
    events: Seq<(u64, FsEventKind)>,
) -> Option<u64>
    decreases events.len(),
{
    if events.len() == 0 {
        deadline
    } else {
        note_all(note_post(deadline, window, events[0].0, events[0].1), window, events.skip(1))
    }
}

/// Debounce coalescing: starting from an idle debouncer, a qualifying
/// event at `first` opens one batch due at `first + window`, and any
/// further events before the batch is drained are absorbed into it — so
/// they trigger exactly one rebuild. Once that batch has fired, a later
/// qualifying event at `next` opens a second, separate batch.
pub proof fn lemma_debounce_coalescing(
    window: u64,
    first: u64,
    rest: Seq<(u64, FsEventKind)>,
    next: u64,
)
    requires
        first + window <= u64::MAX,
        next + window <= u64::MAX,
    ensures
        note_all(note_post(None, window, first, FsEventKind::Modify), window, rest) == Some(
            (first + window) as u64,
        ),
        due_at(Some((first + window) as u64), (first + window) as u64),
        note_post(None, window, next, FsEventKind::Modify) == Some((next + window) as u64),
{
    lemma_note_all_absorbs(Some((first + window) as u64), window, rest);
}

/// A pending batch absorbs every later event.
pub proof fn lemma_note_all_absorbs(deadline: Option<u64>, window: u64, events: Seq<(u64, FsEventKind)>)
    requires
        deadline is Some,
    ensures
        note_all(deadline, window, events) == deadline,
    decreases events.len(),
{
    if events.len() > 0 {
        lemma_note_all_absorbs(deadline, window, events.skip(1));
    }
}

/// The debouncer: collapses bursts of filesystem events into single
/// rebuild triggers, over a fixed window.
pub struct Debouncer {
    window_ms: u64,
    deadline: Option<u64>,
}

impl Debouncer {
    pub closed spec fn spec_window(self) -> u64 {
        self.window_ms
    }

    pub closed spec fn spec_deadline(self) -> Option<u64> {
        self.deadline
    }

    /// A debouncer over the given window, with no pending batch.
    pub fn new(window_ms: u64) -> (d: Debouncer)
        ensures
            d.spec_window() == window_ms,
            d.spec_deadline() is None,
    {
        Debouncer { window_ms, deadline: None }
    }

    /// Note one filesystem event at `now`.
    pub fn note_event(&mut self, now: u64, kind: FsEventKind)
        requires
            now + old(self).spec_window() <= u64::MAX,
        ensures
            final(self).spec_window() == old(self).spec_window(),
            final(self).spec_deadline() == note_post(
                old(self).spec_deadline(),
                old(self).spec_window(),
                now,
                kind,
            ),
    {
        if self.deadline.is_none() && matches!(kind, FsEventKind::Modify) {
            self.deadline = Some(now + self.window_ms);
        }
    }

    /// Whether the pending batch is due at `now`; a due batch is
    /// drained, triggering exactly one rebuild.
    pub fn poll_due(&mut self, now: u64) -> (fire: bool)
        ensures
            final(self).spec_window() == old(self).spec_window(),
            fire == due_at(old(self).spec_deadline(), now),
            final(self).spec_deadline() == (if fire {
                Option::<u64>::None
            } else {
                old(self).spec_deadline()
            }),
    {
        match self.deadline {
            Some(d) => {
                if now >= d {
                    self.deadline = None;
                    true
                } else {
                    false
                }
            },
            None => false,
        }
    }
}

/// What the watch loop should do next.
#[derive(Copy, Clone, PartialEq, Eq, Structural, Debug)]
pub enum WatchAction {
    /// Run a rebuild (always a reload).
    StartBuild,
    /// After a successful build: broadcast the build-complete signal and
    /// persist the cache if dirty.
    NotifyAndExport,
    /// After a failed build: report the error and keep watching.
    ReportError,
    /// Nothing to do.
    Idle,
}

/// The watch loop's state: the debouncer and whether a build is in
/// flight. At most one build is ever in flight; a batch that fires
/// during a build is held and started when the build finishes.
pub struct WatchController {
    debouncer: Debouncer,
    building: bool,
    rebuild_pending: bool,
}

impl WatchController {
    pub closed spec fn spec_building(self) -> bool {
        self.building
    }

    pub closed spec fn spec_rebuild_pending(self) -> bool {
        self.rebuild_pending
    }

    pub closed spec fn spec_debouncer(self) -> Debouncer {
        self.debouncer
    }

    /// A controller with the given debounce window, idle.
    pub fn new(window_ms: u64) -> (c: WatchController)
        ensures
            !c.spec_building(),
            !c.spec_rebuild_pending(),
            c.spec_debouncer().spec_window() == window_ms,
            c.spec_debouncer().spec_deadline() is None,
    {
        WatchController { debouncer: Debouncer::new(window_ms), building: false, rebuild_pending: false }
    }

    /// Note a batch of filesystem events at `now`.
    pub fn on_fs_events(&mut self, now: u64, kinds: &Vec<FsEventKind>)
        requires
            now + old(self).spec_debouncer().spec_window() <= u64::MAX,
        ensures
            final(self).spec_building() == old(self).spec_building(),
            final(self).spec_rebuild_pending() == old(self).spec_rebuild_pending(),
            final(self).spec_debouncer().spec_window() == old(self).spec_debouncer().spec_window(),
            final(self).spec_debouncer().spec_deadline() == note_all(
                old(self).spec_debouncer().spec_deadline(),
                old(self).spec_debouncer().spec_window(),
                kinds@.map_values(|k: FsEventKind| (now, k)),
            ),
    {
        let ghost timed = kinds@.map_values(|k: FsEventKind| (now, k));
        let n = kinds.len();
        let mut i: usize = 0;
        proof {
            assert(timed.skip(0) =~= timed);
        }
        while i < n
            invariant
                i <= n,
                n == kinds@.len(),
                timed == kinds@.map_values(|k: FsEventKind| (now, k)),
                timed.len() == n,
                now + self.spec_debouncer().spec_window() <= u64::MAX,
                self.spec_building() == old(self).spec_building(),
                self.spec_rebuild_pending() == old(self).spec_rebuild_pending(),
                self.spec_debouncer().spec_window() == old(self).spec_debouncer().spec_window(),
                note_all(
                    old(self).spec_debouncer().spec_deadline(),
                    old(self).spec_debouncer().spec_window(),
                    timed,
                ) == note_all(
                    self.spec_debouncer().spec_deadline(),
                    self.spec_debouncer().spec_window(),
                    timed.skip(i as int),
                ),
            decreases n - i,
        {
            proof {
                assert(timed.skip(i as int)[0] == timed[i as int]);
                assert(timed[i as int] == (now, kinds@[i as int]));
                assert(timed.skip(i as int).skip(1) =~= timed.skip(i + 1));
            }
            self.debouncer.note_event(now, kinds[i]);
            i = i + 1;
        }
        proof {
            assert(timed.skip(n as int).len() == 0);
        }
    }

    /// Poll at `now`: start a build when the pending batch is due and
    /// no build is in flight; hold the trigger when one is.
    pub fn on_tick(&mut self, now: u64) -> (action: WatchAction)
        ensures
            final(self).spec_debouncer().spec_window() == old(self).spec_debouncer().spec_window(),
            action == WatchAction::StartBuild ==> !old(self).spec_building() && final(self)
                .spec_building(),
            ({
                let fired = due_at(old(self).spec_debouncer().spec_deadline(), now);
                &&& (fired ==> final(self).spec_debouncer().spec_deadline() is None)
                &&& (!fired ==> *final(self) == *old(self) && action == WatchAction::Idle)
                &&& (fired && !old(self).spec_building() ==> action == WatchAction::StartBuild
                    && final(self).spec_building() && !final(self).spec_rebuild_pending())
                &&& (fired && old(self).spec_building() ==> action == WatchAction::Idle && final(
                    self).spec_building() && final(self).spec_rebuild_pending())
            }),
    {
        let fired = self.debouncer.poll_due(now);
        if fired {
            if !self.building {
                self.building = true;
                self.rebuild_pending = false;
                WatchAction::StartBuild
            } else {
                self.rebuild_pending = true;
                WatchAction::Idle
            }
        } else {
            WatchAction::Idle
        }
    }

    /// A build finished: report or notify-and-export, and start the
    /// held rebuild if one accumulated meanwhile.
    pub fn on_build_done(&mut self, ok: bool) -> (r: (WatchAction, bool))
        requires
            old(self).spec_building(),
        ensures
            final(self).spec_debouncer() == old(self).spec_debouncer(),
            r.0 == (if ok {
                WatchAction::NotifyAndExport
            } else {
                WatchAction::ReportError
            }),
            r.1 == old(self).spec_rebuild_pending(),
            final(self).spec_building() == old(self).spec_rebuild_pending(),
            !final(self).spec_rebuild_pending(),
    {
        let restart = self.rebuild_pending;
        self.building = restart;
        self.rebuild_pending = false;
        let action = if ok {
            WatchAction::NotifyAndExport
        } else {
            WatchAction::ReportError
        };
        (action, restart)
    }
}

} // verus!
