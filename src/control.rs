//! The decisions of the input watcher and of the frame driver. Reading,
//! sleeping, drawing and the shared flag itself are left to the caller, which
//! performs each action and reports what happened.
use vstd::prelude::*;
use crate::compositor::SPEED;

verus! {

/// What one attempt to read a line of standard input gave.
#[derive(Clone, Copy, Debug, PartialEq, Eq, Structural)]
pub enum ReadOutcome {
    /// This many bytes were read; none means the end of the input.
    Read(usize),
    /// The read failed.
    Failed,
}

/// What the watcher does next.
#[derive(Clone, Copy, Debug, PartialEq, Eq, Structural)]
pub enum WatchAction {
    /// Read another line.
    ReadAgain,
    /// Report the failure, then read another line.
    ReportAndReadAgain,
    /// Set the cancellation flag and stop watching.
    SetFlag,
    /// Nothing: the watcher has already stopped.
    Stopped,
}

/// The input watcher, which sets the cancellation flag once a line arrives.
#[derive(Clone, Copy, Debug, PartialEq, Eq, Structural)]
pub struct Watcher {
    /// The flag has been set; the watcher has stopped.
    pub signalled: bool,
}

/// One step of the watcher: a line sets the flag, the end of the input and
/// a failure are retried, and a watcher that has set the flag does nothing.
pub open spec fn watch_step(w: Watcher, o: ReadOutcome) -> (Watcher, WatchAction) {
    if w.signalled {
        (w, WatchAction::Stopped)
    } else {
        match o {
            ReadOutcome::Read(n) => if n == 0 {
                (w, WatchAction::ReadAgain)
            } else {
                (Watcher { signalled: true }, WatchAction::SetFlag)
            },
            ReadOutcome::Failed => (w, WatchAction::ReportAndReadAgain),
        }
    }
}

impl Watcher {
    /// A watcher that has not seen a line yet.
    pub fn new() -> (r: Watcher)
        ensures
            !r.signalled,
    {
        Watcher { signalled: false }
    }

    /// Takes the outcome of one read and says what to do next.
    pub fn on_read(&mut self, o: ReadOutcome) -> (a: WatchAction)
        ensures
            (*final(self), a) == watch_step(*old(self), o),
    {
        if self.signalled {
            WatchAction::Stopped
        } else {
            match o {
                ReadOutcome::Read(n) => if n == 0 {
                    WatchAction::ReadAgain
                } else {
                    self.signalled = true;
                    WatchAction::SetFlag
                },
                ReadOutcome::Failed => WatchAction::ReportAndReadAgain,
            }
        }
    }
}

/// How many times the watcher sets the flag over a run of read outcomes.
pub open spec fn flag_sets(w: Watcher, events: Seq<ReadOutcome>) -> nat
    decreases events.len(),
{
    if events.len() == 0 {
        0
    } else {
        let (next, a) = watch_step(w, events[0]);
        (if a == WatchAction::SetFlag {
            1nat
        } else {
            0nat
        }) + flag_sets(next, events.drop_first())
    }
}

/// The read gave a line: at least one byte, a lone newline too.
pub open spec fn is_line(o: ReadOutcome) -> bool {
    match o {
        ReadOutcome::Read(n) => n > 0,
        ReadOutcome::Failed => false,
    }
}

/// Some read in `events` gave a line (at least one byte, a lone newline too).
pub open spec fn has_line(events: Seq<ReadOutcome>) -> bool {
    exists|i: int| 0 <= i < events.len() && is_line(#[trigger] events[i])
}

proof fn lemma_signalled_sets_nothing(events: Seq<ReadOutcome>)
    ensures
        flag_sets(Watcher { signalled: true }, events) == 0,
    decreases events.len(),
{
    if events.len() > 0 {
        lemma_signalled_sets_nothing(events.drop_first());
    }
}

/// Whatever standard input delivers, the watcher sets the flag at most once:
/// exactly once if some read gives a line, however many lines follow, and
/// never otherwise. It never clears the flag, having no action that does.
pub proof fn lemma_flag_set_once(events: Seq<ReadOutcome>)
    ensures
        flag_sets(Watcher { signalled: false }, events) == (if has_line(events) {
            1nat
        } else {
            0nat
        }),
    decreases events.len(),
{
    if events.len() > 0 {
        let rest = events.drop_first();
        lemma_flag_set_once(rest);
        match events[0] {
            ReadOutcome::Read(n) => {
                if n > 0 {
                    lemma_signalled_sets_nothing(rest);
                    assert(has_line(events));
                } else {
                    lemma_has_line_rest(events);
                }
            },
            ReadOutcome::Failed => {
                lemma_has_line_rest(events);
            },
        }
    }
}

proof fn lemma_has_line_rest(events: Seq<ReadOutcome>)
    requires
        events.len() > 0,
        !is_line(events[0]),
    ensures
        has_line(events) == has_line(events.drop_first()),
{
    let rest = events.drop_first();
    if has_line(events) {
        let i = choose|i: int| 0 <= i < events.len() && is_line(#[trigger] events[i]);
        assert(rest[i - 1] == events[i]);
    }
    if has_line(rest) {
        let i = choose|i: int| 0 <= i < rest.len() && is_line(#[trigger] rest[i]);
        assert(events[i + 1] == rest[i]);
    }
}

/// What the driver does after a frame has been drawn and the pause after it
/// has passed.
#[derive(Clone, Copy, Debug, PartialEq, Eq, Structural)]
pub enum Tick {
    /// Clear the screen and draw the next frame.
    Continue,
    /// Reset the style, clear the screen once more, and stop.
    Finish,
}

/// The frame driver: the frame index to draw next, and whether it still runs.
#[derive(Clone, Copy, Debug, PartialEq, Eq, Structural)]
pub struct Driver {
    pub frame: u64,
    pub running: bool,
}

/// One tick: the frame index moves on by `SPEED`, and the driver stops
/// exactly when the cancellation flag was seen set.
pub open spec fn drive_step(d: Driver, cancelled: bool) -> (Driver, Tick) {
    (
        Driver { frame: (d.frame + SPEED) as u64, running: !cancelled },
        if cancelled {
            Tick::Finish
        } else {
            Tick::Continue
        },
    )
}

impl Driver {
    /// A running driver at frame zero.
    pub fn new() -> (r: Driver)
        ensures
            r.frame == 0,
            r.running,
    {
        Driver { frame: 0, running: true }
    }

    /// The frame index to draw now.
    pub fn frame(&self) -> (r: u64)
        ensures
            r == self.frame,
    {
        self.frame
    }

    /// Takes whether the cancellation flag was set when polled after the
    /// pause, and says whether to go on.
    pub fn after_frame(&mut self, cancelled: bool) -> (t: Tick)
        requires
            old(self).running,
            old(self).frame + SPEED <= u64::MAX,
        ensures
            (*final(self), t) == drive_step(*old(self), cancelled),
    {
        self.frame = self.frame + SPEED;
        if cancelled {
            self.running = false;
            Tick::Finish
        } else {
            Tick::Continue
        }
    }
}

/// The ticks of a driver that polls the flag and sees `polls` in turn, up to
/// the one on which it stops.
pub open spec fn run_ticks(d: Driver, polls: Seq<bool>) -> Seq<Tick>
    decreases polls.len(),
{
    if !d.running || polls.len() == 0 {
        Seq::empty()
    } else {
        let (next, t) = drive_step(d, polls[0]);
        seq![t] + run_ticks(next, polls.drop_first())
    }
}

/// Once the flag is seen set, at poll `k`, the running driver has stopped:
/// it drew at most `k + 1` frames, one per pause, every tick but the last
/// went on, and the last one, the only one, resets and clears the screen.
pub proof fn lemma_stops_once_cancelled(d: Driver, polls: Seq<bool>, k: int)
    requires
        d.running,
        0 <= k < polls.len(),
        polls[k],
    ensures
        ({
            let t = run_ticks(d, polls);
            &&& 1 <= t.len() <= k + 1
            &&& t.last() == Tick::Finish
            &&& forall|i: int| 0 <= i < t.len() - 1 ==> #[trigger] t[i] == Tick::Continue
        }),
    decreases polls.len(),
{
    let (next, first) = drive_step(d, polls[0]);
    let rest = polls.drop_first();
    assert(run_ticks(next, rest).len() == 0 ==> !next.running || rest.len() == 0);
    if polls[0] {
        assert(!next.running);
        assert(run_ticks(d, polls) =~= seq![Tick::Finish]);
    } else {
        lemma_stops_once_cancelled(next, rest, k - 1);
        let t = run_ticks(d, polls);
        let u = run_ticks(next, rest);
        assert(t =~= seq![Tick::Continue] + u);
        assert forall|i: int| 0 <= i < t.len() - 1 implies #[trigger] t[i] == Tick::Continue by {
            if i > 0 {
                assert(t[i] == u[i - 1]);
            }
        }
    }
}

/// The frame indices that a driver seeing `polls` draws, one per tick.
pub open spec fn drawn_frames(d: Driver, polls: Seq<bool>) -> Seq<int>
    decreases polls.len(),
{
    if !d.running || polls.len() == 0 {
        Seq::empty()
    } else {
        let (next, _t) = drive_step(d, polls[0]);
        seq![d.frame as int] + drawn_frames(next, polls.drop_first())
    }
}

/// The driver draws one frame per tick, starting from its own frame index and
/// moving on by `SPEED` each time, never going back.
pub proof fn lemma_frames_advance_by_speed(d: Driver, polls: Seq<bool>)
    requires
        d.frame + SPEED * polls.len() <= u64::MAX,
    ensures
        drawn_frames(d, polls).len() == run_ticks(d, polls).len(),
        forall|i: int|
            0 <= i < drawn_frames(d, polls).len() ==> #[trigger] drawn_frames(d, polls)[i] == d.frame
                + SPEED * i,
    decreases polls.len(),
{
    if d.running && polls.len() > 0 {
        let (next, _t) = drive_step(d, polls[0]);
        let rest = polls.drop_first();
        assert(next.frame == d.frame + SPEED);
        lemma_frames_advance_by_speed(next, rest);
        let f = drawn_frames(d, polls);
        let g = drawn_frames(next, rest);
        assert(f =~= seq![d.frame as int] + g);
        assert forall|i: int| 0 <= i < f.len() implies #[trigger] f[i] == d.frame + SPEED * i by {
            if i > 0 {
                assert(f[i] == g[i - 1]);
            }
        }
    }
}

/// A driver that has stopped does nothing more, whatever the flag shows.
pub proof fn lemma_stopped_stays_stopped(d: Driver, polls: Seq<bool>)
    requires
        !d.running,
    ensures
        run_ticks(d, polls).len() == 0,
{
}

} // verus!
