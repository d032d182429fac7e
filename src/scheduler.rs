//! The publisher's group scheduler. Each subscription serves at most two
//! groups at once, an older and a newer one; a group older than every group
//! being served is dropped, and serving a new group cancels the older one
//! that was running.

use vstd::prelude::*;

verus! {

/// The sequences of the groups being served, in the older and newer slot.
pub struct WindowView {
    pub old: Option<u64>,
    pub new: Option<u64>,
}

/// The older slot is only filled while the newer one is, with an older group.
pub open spec fn window_wf(w: WindowView) -> bool {
    match w.old {
        Some(o) => w.new is Some && o <= w.new->0,
        None => true,
    }
}

/// What to do with a group that the track produced.
#[derive(Debug, Clone, Copy, PartialEq, Eq, Structural)]
pub enum Decision {
    /// The group is older than every group being served: drop it.
    Skip,
    /// Open a stream for the group with this priority, and stop serving the
    /// group `cancel`, if there is one.
    Serve { priority: i32, cancel: Option<u64> },
}

/// Which served group finished.
#[derive(Debug, Clone, Copy, PartialEq, Eq, Structural)]
pub enum Slot {
    Old,
    New,
}

/// The QUIC priority of a group's stream: the track priority in the high
/// 8 bits, and the low 24 bits of the sequence below, so that a newer group
/// of a track comes first. Sequences wrap at 2^24.
pub open spec fn priority_of(track_priority: u8, group_sequence: u64) -> i32 {
    ((((track_priority as u32) << 24u32) | ((group_sequence as u32) & 0xFF_FFFFu32)) as i32)
}

/// The scheduler's answer to a group with sequence `s`, and its next window.
pub open spec fn window_step(w: WindowView, track_priority: u8, s: u64) -> (Decision, WindowView) {
    let latest = match w.new {
        Some(n) => n,
        None => 0,
    };
    let oldest = match w.old {
        Some(o) => o,
        None => latest,
    };
    if s < oldest {
        (Decision::Skip, w)
    } else {
        let d = Decision::Serve { priority: priority_of(track_priority, s), cancel: w.old };
        if s >= latest {
            (d, WindowView { old: w.new, new: Some(s) })
        } else {
            (d, WindowView { old: Some(s), new: w.new })
        }
    }
}

/// The window after the group in `slot` finished: a finished newer group
/// hands its slot to the older one.
pub open spec fn window_finish(w: WindowView, slot: Slot) -> WindowView {
    match slot {
        Slot::Old => WindowView { old: None, new: w.new },
        Slot::New => WindowView { old: None, new: w.old },
    }
}

/// The groups one subscription is serving.
pub struct GroupWindow {
    old: Option<u64>,
    new: Option<u64>,
}

impl View for GroupWindow {
    type V = WindowView;

    closed spec fn view(&self) -> WindowView {
        WindowView { old: self.old, new: self.new }
    }
}

impl GroupWindow {
    pub fn new() -> (r: GroupWindow)
        ensures
            r@ == (WindowView { old: None, new: None }),
    {
        GroupWindow { old: None, new: None }
    }

    /// Decides what to do with the next group of the track.
    pub fn on_group(&mut self, track_priority: u8, sequence: u64) -> (r: Decision)
        ensures
            (r, final(self)@) == window_step(old(self)@, track_priority, sequence),
    {
        let latest = match self.new {
            Some(n) => n,
            None => 0,
        };
        let oldest = match self.old {
            Some(o) => o,
            None => latest,
        };
        if sequence < oldest {
            return Decision::Skip;
        }
        let d = Decision::Serve { priority: stream_priority(track_priority, sequence), cancel: self.old };
        if sequence >= latest {
            self.old = self.new;
            self.new = Some(sequence);
        } else {
            self.old = Some(sequence);
        }
        d
    }

    /// Records that the group in `slot` finished.
    pub fn on_finished(&mut self, slot: Slot)
        ensures
            final(self)@ == window_finish(old(self)@, slot),
    {
        match slot {
            Slot::Old => {
                self.old = None;
            },
            Slot::New => {
                self.new = self.old;
                self.old = None;
            },
        }
    }
}

/// The QUIC priority of a group's stream; see `priority_of`.
pub fn stream_priority(track_priority: u8, group_sequence: u64) -> (r: i32)
    ensures
        r == priority_of(track_priority, group_sequence),
{
    let low: u32 = #[verifier::truncate] (group_sequence as u32);
    let sequence: u32 = low & 0xFF_FFFFu32;
    #[verifier::truncate] ((((track_priority as u32) << 24u32) | sequence) as i32)
}

/// Every step keeps the window well formed: the older slot holds a group
/// only while the newer slot holds a newer or equal one.
pub proof fn lemma_window_wf(w: WindowView, track_priority: u8, s: u64, slot: Slot)
    requires
        window_wf(w),
    ensures
        window_wf(window_step(w, track_priority, s).1),
        window_wf(window_finish(w, slot)),
{
}

/// After a group arrives, the newest group served is at least as new as
/// it, and a group is dropped exactly when it is older than every group
/// being served.
pub proof fn lemma_newest_served(w: WindowView, track_priority: u8, s: u64)
    requires
        window_wf(w),
    ensures
        ({
            let (d, w2) = window_step(w, track_priority, s);
            &&& w2.new is Some && s <= w2.new->0
            &&& (w.new is Some ==> w.new->0 <= w2.new->0)
            &&& (d is Skip ==> w2 == w)
            &&& (d is Skip <==> (w.old is Some && s < w.old->0) || (w.old is None && w.new is Some
                && s < w.new->0))
        }),
{
}

/// Serving a group cancels exactly the group that was in the older slot,
/// so no more than two groups are ever served at once.
pub proof fn lemma_cancels_older(w: WindowView, track_priority: u8, s: u64)
    requires
        window_wf(w),
    ensures
        ({
            let (d, w2) = window_step(w, track_priority, s);
            d is Serve ==> d->cancel == w.old && (w2.old == w.new || w2.old == Some(s))
        }),
{
}

/// Within one track and below 2^24, a later group gets a strictly higher
/// stream priority.
pub proof fn lemma_priority_order(p: u8, s1: u64, s2: u64)
    requires
        s1 < s2 < 0x100_0000,
    ensures
        priority_of(p, s2) > priority_of(p, s1),
{
    assert(priority_of(p, s2) > priority_of(p, s1)) by (bit_vector)
        requires
            s1 < s2 < 0x100_0000,
    ;
}

/// A higher track priority wins over any group sequence when both track
/// priorities are below 128, where the sign bit stays clear.
pub proof fn lemma_priority_by_track(p1: u8, p2: u8, s1: u64, s2: u64)
    requires
        p1 < p2 < 128,
    ensures
        priority_of(p1, s1) < priority_of(p2, s2),
{
    assert(priority_of(p1, s1) < priority_of(p2, s2)) by (bit_vector)
        requires
            p1 < p2 < 128,
    ;
}

} // verus!
