//! The live window of a track: the groups a track holds at once. A track
//! keeps at most `MAX_GROUPS` groups; creating one more drops the oldest,
//! and a group older than a full window is refused.

use vstd::prelude::*;

verus! {

/// How many groups a track holds at once: the current and the previous.
pub const MAX_GROUPS: usize = 2;

/// Why a track refused a group.
#[derive(Debug, Clone, Copy, PartialEq, Eq, Structural)]
pub enum WindowError {
    /// Older than every group of a full window.
    Old,
    /// A group with this sequence is already live.
    Duplicate,
}

/// Live sequences in increasing order, no more than `MAX_GROUPS`.
pub open spec fn window_ok(live: Seq<u64>) -> bool {
    &&& live.len() <= MAX_GROUPS
    &&& forall|i: int, j: int| 0 <= i < j < live.len() ==> live[i] < live[j]
}

/// The window after creating group `s`, and the group it dropped.
pub open spec fn create_step(live: Seq<u64>, s: u64) -> Result<(Seq<u64>, Option<u64>), WindowError> {
    if live.contains(s) {
        Err(WindowError::Duplicate)
    } else if live.len() == MAX_GROUPS && s < live[0] {
        Err(WindowError::Old)
    } else {
        let inserted = if live.len() == 0 {
            seq![s]
        } else if live.len() == 1 {
            if s < live[0] {
                seq![s, live[0]]
            } else {
                seq![live[0], s]
            }
        } else if s < live[1] {
            seq![live[0], s, live[1]]
        } else {
            seq![live[0], live[1], s]
        };
        if inserted.len() > MAX_GROUPS {
            Ok((inserted.drop_first(), Some(inserted[0])))
        } else {
            Ok((inserted, None))
        }
    }
}

/// Where a written frame goes.
#[derive(Debug, Clone, Copy, PartialEq, Eq, Structural)]
pub enum FrameWrite {
    /// A keyframe opened this group; the window dropped the other one, if any.
    NewGroup { sequence: u64, dropped: Option<u64> },
    /// The frame joins the newest group.
    Append(u64),
    /// No group is open yet: a frame before the first keyframe is dropped.
    Skip,
}

/// The groups a track holds.
pub struct TrackWindow {
    live: Vec<u64>,
}

impl View for TrackWindow {
    type V = Seq<u64>;

    closed spec fn view(&self) -> Seq<u64> {
        self.live@
    }
}

impl TrackWindow {
    pub fn new() -> (r: TrackWindow)
        ensures
            r@ == Seq::<u64>::empty(),
    {
        TrackWindow { live: Vec::new() }
    }

    /// The sequence the next group opened by a keyframe takes: one past the
    /// newest, or zero.
    pub fn next_sequence(&self) -> (r: Option<u64>)
        requires
            window_ok(self@),
        ensures
            self@.len() == 0 ==> r == Some(0u64),
            self@.len() > 0 && self@.last() < u64::MAX ==> r == Some((self@.last() + 1) as u64),
            self@.len() > 0 && self@.last() == u64::MAX ==> r is None,
    {
        let n = self.live.len();
        if n == 0 {
            Some(0)
        } else if self.live[n - 1] < u64::MAX {
            Some(self.live[n - 1] + 1)
        } else {
            None
        }
    }

    /// Creates group `sequence`; returns the group it dropped, if any.
    pub fn create_group(&mut self, sequence: u64) -> (r: Result<Option<u64>, WindowError>)
        requires
            window_ok(old(self)@),
        ensures
            match create_step(old(self)@, sequence) {
                Ok((live, dropped)) => r == Ok::<Option<u64>, WindowError>(dropped) && final(self)@
                    == live,
                Err(e) => r == Err::<Option<u64>, WindowError>(e) && final(self)@ == old(self)@,
            },
            window_ok(final(self)@),
    {
        let n = self.live.len();
        let mut i: usize = 0;
        while i < n
            invariant
                n == self.live@.len(),
                i <= n,
                self == old(self),
                window_ok(old(self)@),
                forall|j: int| 0 <= j < i ==> self.live@[j] != sequence,
            decreases n - i,
        {
            if self.live[i] == sequence {
                assert(self@.contains(sequence)) by {
                    assert(self@[i as int] == sequence);
                }
                return Err(WindowError::Duplicate);
            }
            i = i + 1;
        }
        assert(!self@.contains(sequence));
        if n == MAX_GROUPS && sequence < self.live[0] {
            return Err(WindowError::Old);
        }
        let mut live: Vec<u64> = Vec::new();
        if n == 0 {
            live.push(sequence);
        } else if n == 1 {
            if sequence < self.live[0] {
                live.push(sequence);
                live.push(self.live[0]);
            } else {
                live.push(self.live[0]);
                live.push(sequence);
            }
        } else if sequence < self.live[1] {
            live.push(sequence);
            live.push(self.live[1]);
        } else {
            live.push(self.live[1]);
            live.push(sequence);
        }
        let dropped = if n == MAX_GROUPS {
            Some(self.live[0])
        } else {
            None
        };
        let ghost expected = create_step(old(self)@, sequence);
        self.live = live;
        assert(expected matches Ok((l, d)) && self@ =~= l && d == dropped);
        Ok(dropped)
    }
}

impl TrackWindow {
    /// Places a frame: a keyframe opens the group after the newest one,
    /// any other frame joins the newest group.
    pub fn write(&mut self, keyframe: bool) -> (r: Result<FrameWrite, WindowError>)
        requires
            window_ok(old(self)@),
        ensures
            window_ok(final(self)@),
            !keyframe && old(self)@.len() > 0 ==> r == Ok::<FrameWrite, WindowError>(
                FrameWrite::Append(old(self)@.last()),
            ) && final(self)@ == old(self)@,
            !keyframe && old(self)@.len() == 0 ==> r == Ok::<FrameWrite, WindowError>(
                FrameWrite::Skip,
            ) && final(self)@ == old(self)@,
            keyframe && old(self)@.len() > 0 && old(self)@.last() == u64::MAX ==> r == Err::<
                FrameWrite,
                WindowError,
            >(WindowError::Old) && final(self)@ == old(self)@,
            keyframe && !(old(self)@.len() > 0 && old(self)@.last() == u64::MAX) ==> ({
                let s: u64 = if old(self)@.len() == 0 {
                    0
                } else {
                    (old(self)@.last() + 1) as u64
                };
                &&& create_step(old(self)@, s) matches Ok((live, dropped))
                &&& r == Ok::<FrameWrite, WindowError>(FrameWrite::NewGroup { sequence: s, dropped })
                &&& final(self)@ == live
            }),
    {
        if !keyframe {
            let n = self.live.len();
            if n == 0 {
                return Ok(FrameWrite::Skip);
            }
            return Ok(FrameWrite::Append(self.live[n - 1]));
        }
        let sequence = match self.next_sequence() {
            Some(s) => s,
            None => return Err(WindowError::Old),
        };
        proof {
            if old(self)@.len() > 0 {
                assert(!old(self)@.contains(sequence)) by {
                    assert forall|i: int| 0 <= i < old(self)@.len() implies old(self)@[i] != sequence by {
                        if i < old(self)@.len() - 1 {
                            assert(old(self)@[i] < old(self)@.last());
                        }
                    }
                }
                assert(sequence >= old(self)@[0]) by {
                    if old(self)@.len() > 1 {
                        assert(old(self)@[0] < old(self)@.last());
                    }
                }
            }
        }
        match self.create_group(sequence) {
            Ok(dropped) => Ok(FrameWrite::NewGroup { sequence, dropped }),
            Err(e) => Err(e),
        }
    }
}

/// The window stays ordered and bounded, the newest group is never the
/// one dropped, and a created group is live afterwards.
pub proof fn lemma_window(live: Seq<u64>, s: u64)
    requires
        window_ok(live),
    ensures
        create_step(live, s) matches Ok((l, d)) ==> window_ok(l) && l.contains(s) && l.last() >= s
            && (d matches Some(x) ==> x < s && x == live[0]),
        create_step(live, s) is Err ==> live.contains(s) || (live.len() == MAX_GROUPS && s < live[0]),
{
    if let Ok((l, _)) = create_step(live, s) {
        if live.len() == 0 {
            assert(l[0] == s);
        } else if live.len() == 1 {
            assert(l.contains(s)) by {
                if s < live[0] {
                    assert(l[0] == s);
                } else {
                    assert(l[1] == s);
                }
            }
        } else {
            assert(l.contains(s)) by {
                if s < live[1] {
                    assert(l[0] == s);
                } else {
                    assert(l[1] == s);
                }
            }
        }
    }
}

} // verus!
