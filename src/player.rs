//! The command processor: one owner of the playback state that turns each
//! command into a new state and one effect on the audio sink.
use crate::catalog::{
    lemma_resolve_member, paths_distinct, build_catalog, find_by_path, ids_positional, lemma_resolve_idempotent, made_from, path_index,
    playable_files, resolve, resolve_track, sort_catalog, sorted_catalog_of, ScannedFile, SortKey,
    Track,
};
use crate::text::{clock_text, push_char, push_clock};
use crate::history::{
    entry_back, history_after, lemma_history_after_keeps_pointer, pointer_ok, History,
    TriggerSource,
};
use crate::lyrics::LyricLine;
use vstd::prelude::*;

verus! {

/// What happens when playback runs off the live edge of the history.
#[derive(Clone, Copy, Debug, PartialEq, Eq, Structural)]
pub enum PlayMode {
    InOrder,
    Random,
    /// Repeat the current track.
    Recursive,
}

/// What the sink has to do after a command. Times are in hundredths of a
/// second.
#[derive(Debug, PartialEq, Eq)]
pub enum Effect {
    Nothing,
    /// Drop what is queued, then decode the file and play it from the start.
    Load(String),
    /// Drop what is queued, decode the file, stay paused, and seek.
    Cue(String, u64),
    Pause,
    Resume,
    Seek(u64),
    /// Drop what is queued.
    Clear,
}

/// The backend refused to move to another position.
#[derive(Debug, PartialEq, Eq)]
pub struct SeekError {
    pub reason: String,
}

/// The whole playback state that commands read and change.
#[derive(Debug)]
pub struct Player {
    pub catalog: Vec<Track>,
    pub history: History,
    pub current: Option<Track>,
    pub mode: PlayMode,
    pub sort_key: SortKey,
    pub ascending: bool,
    pub paused: bool,
    /// Set once the user has started listening; auto-advance needs it.
    pub listening: bool,
    /// The progress bar is being dragged: the poller leaves `elapsed` alone.
    pub dragging: bool,
    /// Hundredths of a second.
    pub elapsed: u64,
    /// Hundredths of a second.
    pub duration: u64,
    pub lyrics: Vec<LyricLine>,
    pub locale: String,
}

/// The state of a [`Player`] as plain values.
pub ghost struct PlayerView {
    pub catalog: Seq<Track>,
    pub entries: Seq<Track>,
    pub rewind: int,
    pub current: Option<Track>,
    pub mode: PlayMode,
    pub sort_key: SortKey,
    pub ascending: bool,
    pub paused: bool,
    pub listening: bool,
    pub dragging: bool,
    pub elapsed: int,
    pub duration: int,
    pub lyrics: Seq<LyricLine>,
    pub locale: Seq<char>,
}

impl View for Player {
    type V = PlayerView;

    open spec fn view(&self) -> PlayerView {
        PlayerView {
            catalog: self.catalog@,
            entries: self.history.entries@,
            rewind: self.history.rewind as int,
            current: self.current,
            mode: self.mode,
            sort_key: self.sort_key,
            ascending: self.ascending,
            paused: self.paused,
            listening: self.listening,
            dragging: self.dragging,
            elapsed: self.elapsed as int,
            duration: self.duration as int,
            lyrics: self.lyrics@,
            locale: self.locale@,
        }
    }
}

/// Hundredths of a second in `secs` seconds.
pub open spec fn centis(secs: u32) -> int {
    100 * secs
}

/// A well-formed state: the history pointer is in range, ids are
/// positions, and nothing plays when no track is loaded.
pub open spec fn state_ok(v: PlayerView) -> bool {
    &&& pointer_ok(v.entries, v.rewind)
    &&& ids_positional(v.catalog)
    &&& (v.current is None ==> v.paused)
    &&& v.elapsed <= v.duration
}

/// The state after `t` starts playing for reason `trigger`.
pub open spec fn played(v: PlayerView, t: Track, trigger: TriggerSource) -> PlayerView {
    let h = history_after(v.entries, v.rewind, t, trigger, v.mode == PlayMode::Recursive);
    PlayerView {
        entries: h.0,
        rewind: h.1,
        current: Some(resolve(v.catalog, t)),
        paused: false,
        listening: true,
        elapsed: 0,
        duration: centis(t.duration_secs),
        lyrics: Seq::empty(),
        ..v
    }
}

/// The track that the play mode picks at the live edge; `pick` is the
/// random draw, used by `Random` alone.
pub open spec fn live_edge_target(v: PlayerView, pick: int) -> Option<Track> {
    if v.catalog.len() == 0 {
        None
    } else {
        match v.mode {
            PlayMode::InOrder => Some(
                v.catalog[match v.current {
                    Some(c) => if c.id + 1 < v.catalog.len() {
                        c.id + 1
                    } else {
                        0
                    },
                    None => 0,
                }],
            ),
            PlayMode::Random => Some(v.catalog[pick]),
            PlayMode::Recursive => v.current,
        }
    }
}

/// The track that `Next` plays: the next one of the history while rewound,
/// else the play mode's pick.
pub open spec fn next_target(v: PlayerView, pick: int) -> Option<Track> {
    if v.rewind > 0 {
        Some(entry_back(v.entries, v.rewind - 1))
    } else {
        live_edge_target(v, pick)
    }
}

pub open spec fn after_next(v: PlayerView, pick: int) -> PlayerView {
    match next_target(v, pick) {
        Some(t) => played(v, t, TriggerSource::SteppedForward),
        None => v,
    }
}

/// The sink's effect of playing `t`, or nothing.
pub open spec fn load_effect(t: Option<Track>) -> Effect {
    match t {
        Some(t) => Effect::Load(t.path),
        None => Effect::Nothing,
    }
}

/// The track that `Prev` plays: the one before the pointer, or the current
/// one again at the oldest entry. Nothing with an empty catalog.
pub open spec fn prev_target(v: PlayerView) -> Option<Track> {
    if v.catalog.len() == 0 {
        None
    } else if v.rewind + 1 < v.entries.len() {
        Some(entry_back(v.entries, v.rewind + 1))
    } else {
        v.current
    }
}

pub open spec fn after_prev(v: PlayerView) -> PlayerView {
    match prev_target(v) {
        Some(t) => played(v, t, TriggerSource::SteppedBack),
        None => v,
    }
}

/// Whether a pause toggle has nothing to toggle and starts the catalog.
pub open spec fn toggle_starts(v: PlayerView, sink_empty: bool) -> bool {
    sink_empty || v.current is None
}

pub open spec fn after_toggle(v: PlayerView, sink_empty: bool) -> PlayerView {
    if toggle_starts(v, sink_empty) {
        if v.catalog.len() > 0 {
            played(v, v.catalog[0], TriggerSource::UserSelected)
        } else {
            v
        }
    } else {
        PlayerView { paused: !v.paused, listening: true, ..v }
    }
}

pub open spec fn toggle_effect(v: PlayerView, sink_empty: bool) -> Effect {
    if toggle_starts(v, sink_empty) {
        if v.catalog.len() > 0 {
            Effect::Load(v.catalog[0].path)
        } else {
            Effect::Nothing
        }
    } else if v.paused {
        Effect::Resume
    } else {
        Effect::Pause
    }
}

/// Where a seek to `target` lands: clamped to the track's length.
pub open spec fn seek_effect(v: PlayerView, target: int) -> Effect {
    match v.current {
        None => Effect::Nothing,
        Some(_) => Effect::Seek(
            (if target <= v.duration {
                target
            } else {
                v.duration
            }) as u64,
        ),
    }
}

/// `k` steps back in a row.
pub open spec fn steps_back(v: PlayerView, k: nat) -> PlayerView
    decreases k,
{
    if k == 0 {
        v
    } else {
        after_prev(steps_back(v, (k - 1) as nat))
    }
}

/// `k` steps forward in a row, each with random draw `pick`.
pub open spec fn steps_forward(v: PlayerView, k: nat, pick: int) -> PlayerView
    decreases k,
{
    if k == 0 {
        v
    } else {
        after_next(steps_forward(v, (k - 1) as nat, pick), pick)
    }
}

/// `Prev` keeps the state well formed, the pointer inside the history,
/// and the history as it was: it never gets shorter.
pub proof fn lemma_prev_keeps_history(v: PlayerView)
    requires
        state_ok(v),
    ensures
        state_ok(after_prev(v)),
        after_prev(v).entries == v.entries,
        after_prev(v).entries.len() >= v.entries.len(),
        after_prev(v).entries.len() > 0 ==> 0 <= after_prev(v).rewind < after_prev(v).entries.len(),
{
}

/// The playing track is the history entry under the pointer, as the catalog
/// knows it.
pub open spec fn on_pointer(v: PlayerView) -> bool {
    &&& v.entries.len() > 0
    &&& v.current == Some(resolve(v.catalog, entry_back(v.entries, v.rewind)))
}

proof fn lemma_steps_back(v: PlayerView, j: nat)
    requires
        state_ok(v),
        v.rewind == 0,
        j < v.entries.len(),
        on_pointer(v),
    ensures
        state_ok(steps_back(v, j)),
        steps_back(v, j).catalog == v.catalog,
        steps_back(v, j).entries == v.entries,
        steps_back(v, j).mode == v.mode,
        steps_back(v, j).rewind == (if v.catalog.len() == 0 {
            0
        } else {
            j as int
        }),
        v.catalog.len() == 0 ==> steps_back(v, j) == v,
        on_pointer(steps_back(v, j)),
    decreases j,
{
    if j > 0 {
        lemma_steps_back(v, (j - 1) as nat);
    }
}

proof fn lemma_steps_forward(u: PlayerView, j: nat, pick: int)
    requires
        state_ok(u),
        j <= u.rewind,
        on_pointer(u),
    ensures
        steps_forward(u, j, pick).catalog == u.catalog,
        steps_forward(u, j, pick).entries == u.entries,
        steps_forward(u, j, pick).mode == u.mode,
        steps_forward(u, j, pick).rewind == u.rewind - j,
        on_pointer(steps_forward(u, j, pick)),
    decreases j,
{
    if j > 0 {
        lemma_steps_forward(u, (j - 1) as nat, pick);
    }
}

/// Stepping back `k` times and then forward `k` times, for any `k` below
/// the history's length, comes back to the live edge and to the track that
/// was playing there, with the history unchanged.
pub proof fn lemma_back_then_forward(v: PlayerView, k: nat, pick: int)
    requires
        state_ok(v),
        v.rewind == 0,
        k < v.entries.len(),
        on_pointer(v),
    ensures
        steps_forward(steps_back(v, k), k, pick).current == v.current,
        steps_forward(steps_back(v, k), k, pick).entries == v.entries,
        steps_forward(steps_back(v, k), k, pick).rewind == 0,
{
    lemma_steps_back(v, k);
    let u = steps_back(v, k);
    if v.catalog.len() == 0 {
        assert(u == v);
        lemma_steps_forward_idle(v, k, pick);
    } else {
        lemma_steps_forward(u, k, pick);
    }
}

proof fn lemma_steps_forward_idle(v: PlayerView, j: nat, pick: int)
    requires
        v.catalog.len() == 0,
        v.rewind == 0,
    ensures
        steps_forward(v, j, pick) == v,
    decreases j,
{
    if j > 0 {
        lemma_steps_forward_idle(v, (j - 1) as nat, pick);
    }
}

/// Under `Recursive`, `Next` at the live edge replays the current track:
/// the history does not grow, the pointer stays at the edge, and a second
/// `Next` plays the very same track (same id) again.
pub proof fn lemma_repeat_one(v: PlayerView, pick1: int, pick2: int)
    requires
        state_ok(v),
        v.mode == PlayMode::Recursive,
        v.rewind == 0,
        v.current is Some,
    ensures
        after_next(v, pick1).entries == v.entries,
        after_next(v, pick1).rewind == 0,
        after_next(after_next(v, pick1), pick2).entries == v.entries,
        after_next(after_next(v, pick1), pick2).current == after_next(v, pick1).current,
        after_next(after_next(v, pick1), pick2).current->0.id == after_next(v, pick1).current->0.id,
        v.current == Some(resolve(v.catalog, v.current->0)) ==> after_next(v, pick1).current
            == v.current,
{
    lemma_resolve_idempotent(v.catalog, v.current->0);
}

/// What the poller reports after one look at the sink.
#[derive(Debug, PartialEq, Eq)]
pub struct PollReport {
    /// `MM:SS / MM:SS`: elapsed and total time.
    pub progress_text: String,
    /// The lyric line being sung, while playing.
    pub active_line: Option<usize>,
    /// Lines to scroll the lyric view by, so that the active line keeps
    /// [`LYRIC_CONTEXT`] lines above it.
    pub scroll_lines: usize,
    /// The track ran out while being listened to: `Next` is due.
    pub advance: bool,
}

/// Lyric lines kept in view above the active one.
pub const LYRIC_CONTEXT: usize = 5;

/// Whether lyric line `l` is on at time `e`.
pub open spec fn line_on(l: LyricLine, e: int) -> bool {
    l.time <= e && e - l.time < l.span
}

/// The first lyric line on at time `e`.
pub open spec fn first_on(lines: Seq<LyricLine>, e: int) -> Option<int>
    decreases lines.len(),
{
    if lines.len() == 0 {
        None
    } else if line_on(lines[0], e) {
        Some(0)
    } else {
        match first_on(lines.drop_first(), e) {
            Some(i) => Some(i + 1),
            None => None,
        }
    }
}

proof fn lemma_first_on(lines: Seq<LyricLine>, e: int)
    ensures
        match first_on(lines, e) {
            Some(i) => 0 <= i < lines.len() && line_on(lines[i], e) && forall|j: int|
                0 <= j < i ==> !line_on(#[trigger] lines[j], e),
            None => forall|j: int| 0 <= j < lines.len() ==> !line_on(#[trigger] lines[j], e),
        },
    decreases lines.len(),
{
    if lines.len() > 0 {
        lemma_first_on(lines.drop_first(), e);
        assert forall|j: int| 1 <= j < lines.len() implies lines[j] == lines.drop_first()[j - 1] by {}
    }
}

/// The state after a poll that read sink position `position`.
pub open spec fn after_poll(v: PlayerView, position: int) -> PlayerView {
    if v.dragging {
        v
    } else {
        PlayerView { elapsed: clamp(position, v.duration), ..v }
    }
}

/// The report of a poll that read `position` and found the sink empty or
/// not.
pub open spec fn poll_report_ok(v: PlayerView, position: int, sink_empty: bool, r: PollReport) -> bool {
    let w = after_poll(v, position);
    &&& r.progress_text@ == clock_text((w.elapsed / 100) as nat) + seq![' ', '/', ' '] + clock_text(
        (w.duration / 100) as nat,
    )
    &&& r.active_line == (if w.paused {
        None
    } else {
        match first_on(w.lyrics, w.elapsed) {
            Some(k) => Some(k as usize),
            None => None,
        }
    })
    &&& r.scroll_lines == (match r.active_line {
        Some(k) => if k > LYRIC_CONTEXT {
            (k - LYRIC_CONTEXT) as usize
        } else {
            0
        },
        None => 0,
    })
    &&& r.advance == (sink_empty && w.listening && !w.paused)
}

/// The state after the catalog was replaced by `cat`.
pub open spec fn after_rescan(v: PlayerView, cat: Seq<Track>) -> PlayerView {
    let w = PlayerView { catalog: cat, sort_key: SortKey::Title, ascending: true, ..v };
    if cat.len() > 0 {
        played(w, cat[0], TriggerSource::UserSelected)
    } else {
        PlayerView {
            current: None,
            paused: true,
            listening: false,
            elapsed: 0,
            duration: 0,
            dragging: false,
            lyrics: Seq::empty(),
            ..w
        }
    }
}

pub open spec fn rescan_effect(cat: Seq<Track>) -> Effect {
    if cat.len() > 0 {
        Effect::Load(cat[0].path)
    } else {
        Effect::Clear
    }
}

/// The track a session resumes with: the saved one where the catalog has
/// it, else the first.
pub open spec fn resume_track(cat: Seq<Track>, last: Option<String>) -> Track {
    match last {
        Some(p) => match path_index(cat, p@) {
            Some(i) => cat[i],
            None => cat[0],
        },
        None => cat[0],
    }
}

/// `progress` clamped to `limit`.
pub open spec fn clamp(progress: int, limit: int) -> int {
    if progress <= limit {
        progress
    } else {
        limit
    }
}

/// The catalog position that `InOrder` plays after position `i`.
pub open spec fn in_order_after(i: int, n: int) -> int {
    if i + 1 < n {
        i + 1
    } else {
        0
    }
}

/// Under `InOrder` at the live edge, with the catalog's entry `i` playing,
/// `Next` plays entry `i + 1`, wrapping to 0 after the last, appends it to
/// the history and stays at the live edge.
pub proof fn lemma_in_order_next(v: PlayerView, i: int, pick: int)
    requires
        state_ok(v),
        v.mode == PlayMode::InOrder,
        v.rewind == 0,
        paths_distinct(v.catalog),
        0 <= i < v.catalog.len(),
        v.current == Some(v.catalog[i]),
    ensures
        state_ok(after_next(v, pick)),
        after_next(v, pick).current == Some(v.catalog[in_order_after(i, v.catalog.len() as int)]),
        after_next(v, pick).entries == v.entries.push(
            v.catalog[in_order_after(i, v.catalog.len() as int)],
        ),
        after_next(v, pick).rewind == 0,
        after_next(v, pick).catalog == v.catalog,
        after_next(v, pick).mode == v.mode,
{
    let j = in_order_after(i, v.catalog.len() as int);
    assert(v.catalog[i].id == i);
    lemma_resolve_member(v.catalog, j);
    lemma_history_after_keeps_pointer(
        v.entries,
        v.rewind,
        v.catalog[j],
        TriggerSource::SteppedForward,
        false,
    );
}

/// A three-track `InOrder` catalog played from its first track: three
/// `Next` commands at the live edge play positions 1, 2 and 0, and the
/// history grows by exactly those tracks.
pub proof fn lemma_in_order_wraps(v: PlayerView, p1: int, p2: int, p3: int)
    requires
        state_ok(v),
        v.mode == PlayMode::InOrder,
        v.rewind == 0,
        paths_distinct(v.catalog),
        v.catalog.len() == 3,
        v.current == Some(v.catalog[0]),
    ensures
        after_next(v, p1).current->0.id == 1,
        after_next(after_next(v, p1), p2).current->0.id == 2,
        after_next(after_next(after_next(v, p1), p2), p3).current->0.id == 0,
        after_next(after_next(after_next(v, p1), p2), p3).entries == v.entries + seq![
            v.catalog[1],
            v.catalog[2],
            v.catalog[0],
        ],
{
    let c = v.catalog;
    lemma_in_order_next(v, 0, p1);
    let w1 = after_next(v, p1);
    lemma_in_order_next(w1, 1, p2);
    let w2 = after_next(w1, p2);
    lemma_in_order_next(w2, 2, p3);
    assert(c[0].id == 0 && c[1].id == 1 && c[2].id == 2);
    assert(v.entries.push(c[1]).push(c[2]).push(c[0]) =~= v.entries + seq![c[1], c[2], c[0]]);
}

/// Relies on `rand::rng` and `rand::Rng::random_range`: a number drawn from
/// `0..n`. The call panics on an empty range, which `requires` leaves out.
#[verifier::external_body]
fn draw_below(n: usize) -> (r: usize)
    requires
        n > 0,
    ensures
        r < n,
{
    rand::Rng::random_range(&mut rand::rng(), ..n)
}

impl Player {
    pub open spec fn wf(&self) -> bool {
        state_ok(self@)
    }

    /// The state with no catalog and no track.
    pub fn idle(locale: String) -> (r: Player)
        ensures
            r.wf(),
            r@.catalog.len() == 0,
            r@.entries.len() == 0,
            r@.rewind == 0,
            r@.current is None,
            r@.mode == PlayMode::InOrder,
            r@.sort_key == SortKey::Title,
            r@.ascending,
            r@.paused,
            !r@.listening,
            !r@.dragging,
            r@.elapsed == 0,
            r@.duration == 0,
            r@.lyrics.len() == 0,
            r@.locale == locale@,
    {
        Player {
            catalog: Vec::new(),
            history: History::new(),
            current: None,
            mode: PlayMode::InOrder,
            sort_key: SortKey::Title,
            ascending: true,
            paused: true,
            listening: false,
            dragging: false,
            elapsed: 0,
            duration: 0,
            lyrics: Vec::new(),
            locale,
        }
    }

    /// The state a session starts in: the catalog of `files` sorted by
    /// `key`, and the saved track (else the first) cued, paused, at the
    /// saved progress clamped to its length. With nothing playable, the idle
    /// state.
    pub fn start(
        files: &Vec<ScannedFile>,
        key: SortKey,
        ascending: bool,
        mode: PlayMode,
        last_path: Option<String>,
        progress: u64,
        locale: String,
    ) -> (r: (Player, Effect))
        ensures
            r.0.wf(),
            r.0@.catalog.len() == playable_files(files@).len(),
            exists|m: Seq<Track>|
                made_from(m, playable_files(files@)) && sorted_catalog_of(
                    m,
                    r.0@.catalog,
                    key,
                    ascending,
                ),
            r.0@.locale == locale@,
            r.0@.paused,
            !r.0@.listening,
            !r.0@.dragging,
            r.0@.lyrics.len() == 0,
            r.0@.rewind == 0,
            r.0@.catalog.len() == 0 ==> {
                &&& r.0@.current is None
                &&& r.0@.entries.len() == 0
                &&& r.0@.mode == PlayMode::InOrder
                &&& r.0@.elapsed == 0
                &&& r.0@.duration == 0
                &&& r.1 == Effect::Nothing
            },
            r.0@.catalog.len() > 0 ==> {
                let t = resume_track(r.0@.catalog, last_path);
                &&& r.0@.current == Some(t)
                &&& r.0@.entries == seq![t]
                &&& r.0@.mode == mode
                &&& r.0@.sort_key == key
                &&& r.0@.ascending == ascending
                &&& r.0@.duration == centis(t.duration_secs)
                &&& r.0@.elapsed == clamp(progress as int, centis(t.duration_secs))
                &&& r.1 == Effect::Cue(t.path, r.0@.elapsed as u64)
            },
    {
        let catalog = build_catalog(files, key, ascending);
        if catalog.len() == 0 {
            let mut p = Player::idle(locale);
            p.catalog = catalog;
            return (p, Effect::Nothing);
        }
        let i = match &last_path {
            Some(path) => match find_by_path(&catalog, path) {
                Some(i) => i,
                None => 0,
            },
            None => 0,
        };
        let t = catalog[i].clone();
        let duration = 100 * (t.duration_secs as u64);
        let elapsed = if progress <= duration {
            progress
        } else {
            duration
        };
        let effect = Effect::Cue(t.path.clone(), elapsed);
        let p = Player {
            catalog,
            history: History::starting_with(t.clone()),
            current: Some(t),
            mode,
            sort_key: key,
            ascending,
            paused: true,
            listening: false,
            dragging: false,
            elapsed,
            duration,
            lyrics: Vec::new(),
            locale,
        };
        (p, effect)
    }

    /// Plays `track` for reason `trigger`.
    pub fn play(&mut self, track: Track, trigger: TriggerSource) -> (r: Effect)
        requires
            old(self).wf(),
        ensures
            final(self).wf(),
            final(self)@ == played(old(self)@, track, trigger),
            r == Effect::Load(track.path),
    {
        let path = track.path.clone();
        let secs = track.duration_secs;
        let resolved = resolve_track(&self.catalog, track.clone());
        let repeat_one = match self.mode {
            PlayMode::Recursive => true,
            _ => false,
        };
        self.history.record(track, trigger, repeat_one);
        self.current = Some(resolved);
        self.paused = false;
        self.listening = true;
        self.elapsed = 0;
        self.duration = 100 * (secs as u64);
        self.lyrics = Vec::new();
        Effect::Load(path)
    }

    /// `Next` with the random draw given: see [`next_target`].
    pub fn next_with_pick(&mut self, pick: usize) -> (r: Effect)
        requires
            old(self).wf(),
            old(self).catalog@.len() == 0 || pick < old(self).catalog@.len(),
        ensures
            final(self).wf(),
            final(self)@ == after_next(old(self)@, pick as int),
            r == load_effect(next_target(old(self)@, pick as int)),
    {
        let target = if self.history.rewind > 0 {
            self.history.forward_target()
        } else if self.catalog.len() == 0 {
            None
        } else {
            match self.mode {
                PlayMode::InOrder => {
                    let i = match &self.current {
                        Some(c) => if c.id < self.catalog.len() - 1 {
                            c.id + 1
                        } else {
                            0
                        },
                        None => 0,
                    };
                    Some(self.catalog[i].clone())
                },
                PlayMode::Random => Some(self.catalog[pick].clone()),
                PlayMode::Recursive => match &self.current {
                    Some(c) => Some(c.clone()),
                    None => None,
                },
            }
        };
        match target {
            Some(t) => self.play(t, TriggerSource::SteppedForward),
            None => Effect::Nothing,
        }
    }

    /// `Next`: draws the random pick where the play mode needs one. Whatever
    /// is drawn, the state moves as [`after_next`] says for some pick in the
    /// catalog's range.
    pub fn next(&mut self) -> (r: Effect)
        requires
            old(self).wf(),
        ensures
            final(self).wf(),
            exists|pick: int|
                (old(self)@.catalog.len() == 0 || 0 <= pick < old(self)@.catalog.len())
                    && final(self)@ == after_next(old(self)@, pick) && r == load_effect(
                    next_target(old(self)@, pick),
                ),
            (old(self)@.mode != PlayMode::Random || old(self)@.rewind > 0) ==> final(self)@
                == after_next(old(self)@, 0),
    {
        let n = self.catalog.len();
        let pick = match self.mode {
            PlayMode::Random => if self.history.rewind == 0 && n > 0 {
                draw_below(n)
            } else {
                0
            },
            _ => 0,
        };
        self.next_with_pick(pick)
    }

    /// `Prev`: see [`prev_target`].
    pub fn prev(&mut self) -> (r: Effect)
        requires
            old(self).wf(),
        ensures
            final(self).wf(),
            final(self)@ == after_prev(old(self)@),
            r == load_effect(prev_target(old(self)@)),
    {
        let target = if self.catalog.len() == 0 {
            None
        } else {
            match self.history.back_target() {
                Some(t) => Some(t),
                None => match &self.current {
                    Some(c) => Some(c.clone()),
                    None => None,
                },
            }
        };
        match target {
            Some(t) => self.play(t, TriggerSource::SteppedBack),
            None => Effect::Nothing,
        }
    }

    /// Pause or resume; with nothing loaded, start the first catalog entry.
    pub fn toggle_pause(&mut self, sink_empty: bool) -> (r: Effect)
        requires
            old(self).wf(),
        ensures
            final(self).wf(),
            final(self)@ == after_toggle(old(self)@, sink_empty),
            r == toggle_effect(old(self)@, sink_empty),
    {
        if sink_empty || self.current.is_none() {
            if self.catalog.len() > 0 {
                let first = self.catalog[0].clone();
                self.play(first, TriggerSource::UserSelected)
            } else {
                Effect::Nothing
            }
        } else {
            let was_paused = self.paused;
            self.paused = !was_paused;
            self.listening = true;
            if was_paused {
                Effect::Resume
            } else {
                Effect::Pause
            }
        }
    }

    /// Asks for a seek to `target`, clamped to the track's length. The state
    /// changes only once the backend has answered (see [`Player::finish_seek`]).
    pub fn seek(&self, target: u64) -> (r: Effect)
        ensures
            r == seek_effect(self@, target as int),
    {
        match &self.current {
            None => Effect::Nothing,
            Some(_) => if target <= self.duration {
                Effect::Seek(target)
            } else {
                Effect::Seek(self.duration)
            },
        }
    }

    /// Takes the backend's answer to a seek to `at`: on success the position
    /// moves there, clamped to the track's length; on failure it stays and
    /// the error is handed back.
    pub fn finish_seek(&mut self, at: u64, outcome: Result<(), SeekError>) -> (r: Result<
        (),
        SeekError,
    >)
        requires
            old(self).wf(),
        ensures
            final(self).wf(),
            r == outcome,
            outcome is Ok ==> final(self)@ == (PlayerView {
                elapsed: clamp(at as int, old(self)@.duration),
                ..old(self)@
            }),
            outcome is Err ==> final(self)@ == old(self)@,
    {
        if outcome.is_ok() {
            self.elapsed = if at <= self.duration {
                at
            } else {
                self.duration
            };
        }
        outcome
    }

    pub fn set_mode(&mut self, mode: PlayMode)
        requires
            old(self).wf(),
        ensures
            final(self).wf(),
            final(self)@ == (PlayerView { mode, ..old(self)@ }),
    {
        self.mode = mode;
    }

    pub fn set_locale(&mut self, tag: String)
        requires
            old(self).wf(),
        ensures
            final(self).wf(),
            final(self)@ == (PlayerView { locale: tag@, ..old(self)@ }),
    {
        self.locale = tag;
    }

    pub fn set_dragging(&mut self, dragging: bool)
        requires
            old(self).wf(),
        ensures
            final(self).wf(),
            final(self)@ == (PlayerView { dragging, ..old(self)@ }),
    {
        self.dragging = dragging;
    }

    /// Takes one look at the sink: its position (hundredths of a second) and
    /// whether it has run dry. Moves `elapsed` there, clamped to the track's
    /// length, unless the user is dragging; reports progress, the active
    /// lyric line and whether to advance.
    pub fn poll(&mut self, position: u64, sink_empty: bool) -> (r: PollReport)
        requires
            old(self).wf(),
        ensures
            final(self).wf(),
            final(self)@ == after_poll(old(self)@, position as int),
            poll_report_ok(old(self)@, position as int, sink_empty, r),
    {
        if !self.dragging {
            self.elapsed = if position <= self.duration {
                position
            } else {
                self.duration
            };
        }
        let mut progress_text = String::new();
        push_clock(&mut progress_text, self.elapsed / 100);
        push_char(&mut progress_text, ' ');
        push_char(&mut progress_text, '/');
        push_char(&mut progress_text, ' ');
        push_clock(&mut progress_text, self.duration / 100);
        assert(progress_text@ =~= clock_text((self.elapsed / 100) as nat) + seq![' ', '/', ' ']
            + clock_text((self.duration / 100) as nat));
        let active_line = if self.paused {
            None
        } else {
            self.line_on_now()
        };
        let scroll_lines = match active_line {
            Some(k) => if k > LYRIC_CONTEXT {
                k - LYRIC_CONTEXT
            } else {
                0
            },
            None => 0,
        };
        let advance = sink_empty && self.listening && !self.paused;
        PollReport { progress_text, active_line, scroll_lines, advance }
    }

    /// The first lyric line on at `elapsed`.
    fn line_on_now(&self) -> (r: Option<usize>)
        ensures
            r == (match first_on(self.lyrics@, self.elapsed as int) {
                Some(k) => Some(k as usize),
                None => None,
            }),
    {
        proof {
            lemma_first_on(self.lyrics@, self.elapsed as int);
        }
        let e = self.elapsed;
        let mut i: usize = 0;
        while i < self.lyrics.len()
            invariant
                i <= self.lyrics@.len(),
                e == self.elapsed,
                forall|j: int| 0 <= j < i ==> !line_on(#[trigger] self.lyrics@[j], e as int),
                match first_on(self.lyrics@, e as int) {
                    Some(k) => 0 <= k < self.lyrics@.len() && line_on(self.lyrics@[k], e as int)
                        && forall|j: int|
                        0 <= j < k ==> !line_on(#[trigger] self.lyrics@[j], e as int),
                    None => forall|j: int|
                        0 <= j < self.lyrics@.len() ==> !line_on(#[trigger] self.lyrics@[j], e as int),
                },
            decreases self.lyrics.len() - i,
        {
            let l = &self.lyrics[i];
            if l.time <= e && e - l.time < l.span {
                return Some(i);
            }
            i = i + 1;
        }
        None
    }

    /// Replaces the catalog with the playable files of `files`, sorted by
    /// title, and starts its first track; an empty catalog stops playback
    /// and clears the state.
    pub fn rescan(&mut self, files: &Vec<ScannedFile>) -> (r: Effect)
        requires
            old(self).wf(),
        ensures
            final(self).wf(),
            final(self)@.catalog.len() == playable_files(files@).len(),
            exists|m: Seq<Track>|
                made_from(m, playable_files(files@)) && sorted_catalog_of(
                    m,
                    final(self)@.catalog,
                    SortKey::Title,
                    true,
                ),
            final(self)@ == after_rescan(old(self)@, final(self)@.catalog),
            r == rescan_effect(final(self)@.catalog),
    {
        let cat = build_catalog(files, SortKey::Title, true);
        self.catalog = cat;
        self.sort_key = SortKey::Title;
        self.ascending = true;
        if self.catalog.len() > 0 {
            let first = self.catalog[0].clone();
            self.play(first, TriggerSource::UserSelected)
        } else {
            self.current = None;
            self.paused = true;
            self.listening = false;
            self.elapsed = 0;
            self.duration = 0;
            self.dragging = false;
            self.lyrics = Vec::new();
            Effect::Clear
        }
    }

    /// Re-sorts the catalog by `key` and renumbers it; the current track is
    /// looked up again by path. An empty catalog is left as it is.
    pub fn sort(&mut self, key: SortKey, ascending: bool)
        requires
            old(self).wf(),
        ensures
            final(self).wf(),
            old(self)@.catalog.len() == 0 ==> final(self)@ == old(self)@,
            old(self)@.catalog.len() > 0 ==> {
                &&& sorted_catalog_of(old(self)@.catalog, final(self)@.catalog, key, ascending)
                &&& final(self)@ == (PlayerView {
                    catalog: final(self)@.catalog,
                    current: match old(self)@.current {
                        Some(c) => Some(resolve(final(self)@.catalog, c)),
                        None => None,
                    },
                    sort_key: key,
                    ascending,
                    ..old(self)@
                })
            },
    {
        if self.catalog.len() == 0 {
            return;
        }
        let mut taken: Vec<Track> = Vec::new();
        std::mem::swap(&mut taken, &mut self.catalog);
        self.catalog = sort_catalog(taken, key, ascending);
        self.current = match self.current.take() {
            Some(c) => Some(resolve_track(&self.catalog, c)),
            None => None,
        };
        self.sort_key = key;
        self.ascending = ascending;
    }

    /// Installs the lyrics of the track just loaded.
    pub fn set_lyrics(&mut self, lines: Vec<LyricLine>)
        requires
            old(self).wf(),
        ensures
            final(self).wf(),
            final(self)@ == (PlayerView { lyrics: lines@, ..old(self)@ }),
    {
        self.lyrics = lines;
    }
}

} // verus!
