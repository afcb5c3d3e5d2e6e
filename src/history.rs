//! Play history: the tracks played so far and a rewind pointer into them.
use crate::catalog::Track;
use vstd::prelude::*;

verus! {

/// Why a track is being played; it decides how the history changes.
#[derive(Clone, Copy, Debug, PartialEq, Eq, Structural)]
pub enum TriggerSource {
    UserSelected,
    SteppedForward,
    SteppedBack,
}

/// The tracks played so far, oldest first, and how many steps back from
/// the newest one playback currently stands (0: at the live edge).
#[derive(Debug)]
pub struct History {
    pub entries: Vec<Track>,
    pub rewind: usize,
}

/// The entry `back` steps behind the newest one.
pub open spec fn entry_back(entries: Seq<Track>, back: int) -> Track {
    entries[entries.len() - 1 - back]
}

/// The pointer stays inside the history once it holds anything.
pub open spec fn pointer_ok(entries: Seq<Track>, rewind: int) -> bool {
    if entries.len() == 0 {
        rewind == 0
    } else {
        0 <= rewind < entries.len()
    }
}

/// The history after `track` was played for reason `trigger`. With
/// `repeat_one`, a step forward from the live edge replays and does not grow
/// the history.
pub open spec fn history_after(
    entries: Seq<Track>,
    rewind: int,
    track: Track,
    trigger: TriggerSource,
    repeat_one: bool,
) -> (Seq<Track>, int) {
    match trigger {
        TriggerSource::UserSelected => (entries.push(track), 0),
        TriggerSource::SteppedBack => (
            entries,
            if entries.len() == 0 {
                0
            } else if rewind + 1 < entries.len() {
                rewind + 1
            } else {
                entries.len() - 1
            },
        ),
        TriggerSource::SteppedForward => if rewind > 0 {
            (entries, rewind - 1)
        } else if repeat_one {
            (entries, 0)
        } else {
            (entries.push(track), 0)
        },
    }
}

/// Every transition keeps the pointer inside the history, and none makes
/// the history shorter.
pub proof fn lemma_history_after_keeps_pointer(
    entries: Seq<Track>,
    rewind: int,
    track: Track,
    trigger: TriggerSource,
    repeat_one: bool,
)
    requires
        pointer_ok(entries, rewind),
    ensures
        pointer_ok(
            history_after(entries, rewind, track, trigger, repeat_one).0,
            history_after(entries, rewind, track, trigger, repeat_one).1,
        ),
        history_after(entries, rewind, track, trigger, repeat_one).0.len() >= entries.len(),
{
}

impl History {
    pub open spec fn wf(&self) -> bool {
        pointer_ok(self.entries@, self.rewind as int)
    }

    /// An empty history at the live edge.
    pub fn new() -> (r: History)
        ensures
            r.wf(),
            r.entries@.len() == 0,
            r.rewind == 0,
    {
        History { entries: Vec::new(), rewind: 0 }
    }

    /// A history holding `t` alone.
    pub fn starting_with(t: Track) -> (r: History)
        ensures
            r.wf(),
            r.entries@ == seq![t],
            r.rewind == 0,
    {
        let mut entries = Vec::new();
        entries.push(t);
        History { entries, rewind: 0 }
    }

    pub fn len(&self) -> (r: usize)
        ensures
            r == self.entries@.len(),
    {
        self.entries.len()
    }

    /// The entry one step further back than the pointer, if there is one.
    pub fn back_target(&self) -> (r: Option<Track>)
        requires
            self.wf(),
        ensures
            r == (if self.rewind + 1 < self.entries@.len() {
                Some(entry_back(self.entries@, self.rewind + 1))
            } else {
                None
            }),
    {
        let n = self.entries.len();
        if self.rewind < n && n - self.rewind >= 2 {
            Some(self.entries[n - 2 - self.rewind].clone())
        } else {
            None
        }
    }

    /// The entry one step nearer the live edge, while rewound.
    pub fn forward_target(&self) -> (r: Option<Track>)
        requires
            self.wf(),
        ensures
            r == (if self.rewind > 0 {
                Some(entry_back(self.entries@, self.rewind - 1))
            } else {
                None
            }),
    {
        if self.rewind > 0 {
            let n = self.entries.len();
            Some(self.entries[n - self.rewind].clone())
        } else {
            None
        }
    }

    /// Records that `track` was played for reason `trigger`.
    pub fn record(&mut self, track: Track, trigger: TriggerSource, repeat_one: bool)
        requires
            old(self).wf(),
        ensures
            final(self).wf(),
            (final(self).entries@, final(self).rewind as int) == history_after(
                old(self).entries@,
                old(self).rewind as int,
                track,
                trigger,
                repeat_one,
            ),
    {
        match trigger {
            TriggerSource::UserSelected => {
                self.entries.push(track);
                self.rewind = 0;
            },
            TriggerSource::SteppedBack => {
                let n = self.entries.len();
                if n == 0 {
                    self.rewind = 0;
                } else if self.rewind + 1 < n {
                    self.rewind = self.rewind + 1;
                } else {
                    self.rewind = n - 1;
                }
            },
            TriggerSource::SteppedForward => {
                if self.rewind > 0 {
                    self.rewind = self.rewind - 1;
                } else if repeat_one {
                    self.rewind = 0;
                } else {
                    self.entries.push(track);
                    self.rewind = 0;
                }
            },
        }
    }
}

} // verus!
