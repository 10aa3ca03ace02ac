//! The engine: the timeline of tracks, each with its synth, its notes and
//! its plugin chain, and the transport (play, record, playhead). Live notes
//! go to the active track's synth; while recording, each note held between
//! a note-on and its note-off is captured, and stopping the recording adds
//! the captured notes to the active track. Each audio block moves the
//! playhead and fires the sequenced notes that fall inside it.

use vstd::prelude::*;

use crate::midi::{block_events, fill_block_events, Frame, Note, NoteMsg, MAX_NOTES_PER_BLOCK};
use crate::plugin::Plugin;
use crate::synth::{NoteState, Uni, UniState, NUM_VOICES};

verus! {

/// Largest number of tracks a timeline holds.
pub const MAX_TRACKS: usize = 8;

/// Largest number of plugins in one track's chain.
pub const MAX_PLUGINS: usize = 8;

/// How many MIDI notes there are.
pub const NUM_MIDI_NOTES: usize = 128;

/// A track seen as values.
pub struct TrackView {
    pub synth: UniState,
    pub notes: Seq<Note>,
    pub plugins: Seq<Plugin>,
}

impl TrackView {
    /// The synth is well formed.
    pub open spec fn wf(self) -> bool {
        self.synth.wf()
    }

    /// The track with its synth replaced.
    pub open spec fn with_synth(self, synth: UniState) -> TrackView {
        TrackView { synth, ..self }
    }
}

/// The synth's state after the messages `msgs`, taken in order.
pub open spec fn apply_msgs(s: UniState, msgs: Seq<NoteMsg>) -> UniState
    decreases msgs.len(),
{
    if msgs.len() == 0 {
        s
    } else {
        match msgs.last() {
            NoteMsg::On(n) => apply_msgs(s, msgs.drop_last()).note_on(n),
            NoteMsg::Off(n) => apply_msgs(s, msgs.drop_last()).note_off(n),
        }
    }
}

/// The messages that a track's notes fire in `[start, end)`, as many as a
/// block carries.
pub open spec fn fired_msgs(notes: Seq<Note>, start: int, end: int) -> Seq<NoteMsg> {
    let all = block_events(notes, start, end);
    if all.len() <= MAX_NOTES_PER_BLOCK {
        all
    } else {
        all.take(MAX_NOTES_PER_BLOCK as int)
    }
}

/// Every track with all its notes released.
pub open spec fn all_off(tracks: Seq<TrackView>) -> Seq<TrackView> {
    tracks.map_values(|t: TrackView| t.with_synth(t.synth.all_notes_off()))
}

/// Every track after the notes of `[start, end)` have fired.
pub open spec fn fire_all(tracks: Seq<TrackView>, start: int, end: int) -> Seq<TrackView> {
    tracks.map_values(
        |t: TrackView| t.with_synth(apply_msgs(t.synth, fired_msgs(t.notes, start, end))),
    )
}

/// A new track: a silent synth, no notes, no plugins.
pub open spec fn fresh_track() -> TrackView {
    TrackView {
        synth: UniState { voices: Seq::new(NUM_VOICES as nat, |i: int| NoteState::Off), next_idx: 0 },
        notes: Seq::empty(),
        plugins: Seq::empty(),
    }
}

/// No note is held.
pub open spec fn no_held_notes() -> Seq<Option<Frame>> {
    Seq::new(NUM_MIDI_NOTES as nat, |i: int| None::<Frame>)
}

/// The engine seen as values.
pub struct EngineView {
    pub tracks: Seq<TrackView>,
    pub active_track: nat,
    pub playhead: nat,
    pub playing: bool,
    pub recording: bool,
    /// For each MIDI note, the frame at which it went down while recording.
    pub held: Seq<Option<Frame>>,
    /// Notes captured by the recording in progress.
    pub record_buffer: Seq<Note>,
}

impl EngineView {
    /// At most `MAX_TRACKS` well-formed tracks; the active track is one of
    /// them (or 0 while there are none); one held-note slot per MIDI note;
    /// the playhead fits a frame; nothing recorded without a track.
    pub open spec fn wf(self) -> bool {
        &&& self.tracks.len() <= MAX_TRACKS
        &&& (forall|i: int| 0 <= i < self.tracks.len() ==> (#[trigger] self.tracks[i]).wf())
        &&& if self.tracks.len() == 0 {
            self.active_track == 0 && self.record_buffer.len() == 0
        } else {
            self.active_track < self.tracks.len()
        }
        &&& self.held.len() == NUM_MIDI_NOTES
        &&& self.playhead <= u64::MAX
    }

    /// A recording only runs while playing.
    pub open spec fn transport_ok(self) -> bool {
        self.recording ==> self.playing
    }

    /// Live note-on: the active track's synth starts the note; while
    /// recording and playing, the playhead is noted as the note's start.
    pub open spec fn note_on(self, note: u8) -> EngineView {
        let at = self.active_track as int;
        EngineView {
            tracks: self.tracks.update(at, self.tracks[at].with_synth(self.tracks[at].synth.note_on(note))),
            held: if self.recording && self.playing {
                self.held.update(note as int, Some(self.playhead as Frame))
            } else {
                self.held
            },
            ..self
        }
    }

    /// Live note-off: the active track's synth releases the note; while
    /// recording and playing, a note held since frame `s` is captured as
    /// `s..playhead`.
    pub open spec fn note_off(self, note: u8) -> EngineView {
        let at = self.active_track as int;
        let tracks = self.tracks.update(
            at,
            self.tracks[at].with_synth(self.tracks[at].synth.note_off(note)),
        );
        if self.recording && self.playing && self.held[note as int] is Some {
            EngineView {
                tracks,
                record_buffer: self.record_buffer.push(
                    Note { start: self.held[note as int]->0, end: self.playhead as Frame, note },
                ),
                held: self.held.update(note as int, None),
                ..self
            }
        } else {
            EngineView { tracks, ..self }
        }
    }

    /// Play/stop: every note is released; stopping a recording discards
    /// what it captured; otherwise playing flips.
    pub open spec fn toggle_play(self) -> EngineView {
        let tracks = all_off(self.tracks);
        if self.recording && self.playing {
            EngineView {
                tracks,
                recording: false,
                playing: false,
                held: no_held_notes(),
                record_buffer: Seq::empty(),
                ..self
            }
        } else {
            EngineView { tracks, playing: !self.playing, ..self }
        }
    }

    /// The playhead moved to `frame`.
    pub open spec fn set_playhead(self, frame: u64) -> EngineView {
        EngineView { playhead: frame as nat, ..self }
    }

    /// Every note released and the playhead back at 0.
    pub open spec fn reset(self) -> EngineView {
        EngineView { tracks: all_off(self.tracks), playhead: 0, ..self }
    }

    /// Record/stop recording. Stopping appends the captured notes to the
    /// active track, forgets held notes, releases every note and stops
    /// playback; starting also starts playback.
    pub open spec fn toggle_record(self) -> EngineView {
        if self.recording {
            let at = self.active_track as int;
            let tracks = if self.record_buffer.len() > 0 {
                self.tracks.update(
                    at,
                    TrackView { notes: self.tracks[at].notes + self.record_buffer, ..self.tracks[at] },
                )
            } else {
                self.tracks
            };
            EngineView {
                tracks: all_off(tracks),
                held: no_held_notes(),
                record_buffer: Seq::empty(),
                recording: false,
                playing: false,
                ..self
            }
        } else {
            EngineView { playing: true, recording: true, ..self }
        }
    }

    /// One audio block of `n` frames: while playing, the playhead moves on
    /// by `n` and every track fires its notes of the block's span.
    pub open spec fn process_block(self, n: nat) -> EngineView {
        if self.playing {
            EngineView {
                tracks: fire_all(self.tracks, self.playhead as int, (self.playhead + n) as int),
                playhead: self.playhead + n,
                ..self
            }
        } else {
            self
        }
    }

    /// A track added after the others, unless there are `MAX_TRACKS`.
    pub open spec fn add_track(self, t: TrackView) -> EngineView {
        if self.tracks.len() < MAX_TRACKS {
            EngineView { tracks: self.tracks.push(t), ..self }
        } else {
            self
        }
    }

    /// The track at `idx` removed, unless there is none or it is the last
    /// one; an active track that fell off the end moves back to the last.
    pub open spec fn remove_track(self, idx: nat) -> EngineView {
        if idx < self.tracks.len() && self.tracks.len() > 1 {
            EngineView {
                tracks: self.tracks.remove(idx as int),
                active_track: if self.active_track >= self.tracks.len() - 1 {
                    (self.tracks.len() - 2) as nat
                } else {
                    self.active_track
                },
                ..self
            }
        } else {
            self
        }
    }

    /// Track `idx` made active, clamped to the last track.
    pub open spec fn set_active_track(self, idx: nat) -> EngineView {
        EngineView { active_track: self.clamp_active(idx), ..self }
    }

    /// `p` appended to the chain of track `ti`, unless there is no such
    /// track or its chain is full.
    pub open spec fn add_plugin(self, ti: nat, p: Plugin) -> EngineView {
        if ti < self.tracks.len() && self.tracks[ti as int].plugins.len() < MAX_PLUGINS {
            EngineView {
                tracks: self.tracks.update(
                    ti as int,
                    TrackView { plugins: self.tracks[ti as int].plugins.push(p), ..self.tracks[ti as int] },
                ),
                ..self
            }
        } else {
            self
        }
    }

    /// Plugin `pi` removed from the chain of track `ti`, unless there is no
    /// such track or plugin.
    pub open spec fn remove_plugin(self, ti: nat, pi: nat) -> EngineView {
        if ti < self.tracks.len() && pi < self.tracks[ti as int].plugins.len() {
            EngineView {
                tracks: self.tracks.update(
                    ti as int,
                    TrackView { plugins: self.tracks[ti as int].plugins.remove(pi as int), ..self.tracks[ti as int] },
                ),
                ..self
            }
        } else {
            self
        }
    }

    /// The active track after `set_active_track(idx)`.
    pub open spec fn clamp_active(self, idx: nat) -> nat {
        if self.tracks.len() == 0 {
            0
        } else if idx < self.tracks.len() {
            idx
        } else {
            (self.tracks.len() - 1) as nat
        }
    }
}

/// A track: its synth, its notes on the timeline, and its plugin chain.
pub struct Track {
    pub synth: Uni,
    pub notes: Vec<Note>,
    pub plugins: Vec<Plugin>,
}

impl View for Track {
    type V = TrackView;

    open spec fn view(&self) -> TrackView {
        TrackView { synth: self.synth@, notes: self.notes@, plugins: self.plugins@ }
    }
}

impl Track {
    /// A track that owns a copy of `notes`, with a silent synth and no
    /// plugins.
    pub fn new(notes: &[Note]) -> (t: Self)
        ensures
            t@.wf(),
            notes@.len() == 0 ==> t@ == fresh_track(),
            t@.notes == notes@,
            t@.plugins == Seq::<Plugin>::empty(),
            t@.synth.voices == Seq::new(NUM_VOICES as nat, |i: int| NoteState::Off),
            t@.synth.next_idx == 0,
    {
        let mut v: Vec<Note> = Vec::new();
        let mut i: usize = 0;
        while i < notes.len()
            invariant
                i <= notes@.len(),
                v@ == notes@.take(i as int),
            decreases notes@.len() - i,
        {
            v.push(notes[i]);
            i += 1;
            assert(v@ =~= notes@.take(i as int));
        }
        assert(notes@.take(notes@.len() as int) =~= notes@);
        let mut plugins: Vec<Plugin> = Vec::new();
        plugins.reserve(MAX_PLUGINS);
        Track { synth: Uni::new(), notes: v, plugins }
    }

    /// Appends `p` to the chain and returns `true`, unless the chain is
    /// full.
    pub fn add_plugin(&mut self, p: Plugin) -> (ok: bool)
        ensures
            ok == (old(self)@.plugins.len() < MAX_PLUGINS),
            final(self)@ == (if ok {
                TrackView { plugins: old(self)@.plugins.push(p), ..old(self)@ }
            } else {
                old(self)@
            }),
    {
        if self.plugins.len() < MAX_PLUGINS {
            self.plugins.push(p);
            true
        } else {
            false
        }
    }

    /// Removes the plugin at `idx` and returns `true`, unless there is none.
    pub fn remove_plugin(&mut self, idx: usize) -> (ok: bool)
        ensures
            ok == (idx < old(self)@.plugins.len()),
            final(self)@ == (if ok {
                TrackView { plugins: old(self)@.plugins.remove(idx as int), ..old(self)@ }
            } else {
                old(self)@
            }),
    {
        if idx < self.plugins.len() {
            self.plugins.remove(idx);
            true
        } else {
            false
        }
    }
}

/// The tracks and the transport position.
pub struct Timeline {
    tracks: Vec<Track>,
    pub active_track: usize,
    pub playhead: u64,
}

impl Timeline {
    /// The tracks as values.
    pub closed spec fn track_views(&self) -> Seq<TrackView> {
        self.tracks@.map_values(|t: Track| t@)
    }

    fn new() -> (t: Self)
        ensures
            t.track_views() == Seq::<TrackView>::empty(),
            t.active_track == 0,
            t.playhead == 0,
    {
        let mut tracks: Vec<Track> = Vec::new();
        tracks.reserve(MAX_TRACKS);
        let t = Timeline { tracks, active_track: 0, playhead: 0 };
        assert(t.track_views() =~= Seq::<TrackView>::empty());
        t
    }

    /// How many tracks there are.
    pub fn track_count(&self) -> (n: usize)
        ensures
            n == self.track_views().len(),
    {
        self.tracks.len()
    }

    /// All tracks, in order.
    pub fn tracks(&self) -> (s: &[Track])
        ensures
            s@.map_values(|t: Track| t@) == self.track_views(),
    {
        self.tracks.as_slice()
    }

    /// The track at `i`.
    pub fn track(&self, i: usize) -> (t: &Track)
        requires
            i < self.track_views().len(),
        ensures
            t@ == self.track_views()[i as int],
    {
        &self.tracks[i]
    }
}

/// The engine.
pub struct Engine {
    pub timeline: Timeline,
    pub playing: bool,
    pub recording: bool,
    held_notes: Vec<Option<Frame>>,
    record_buffer: Vec<Note>,
}

impl View for Engine {
    type V = EngineView;

    closed spec fn view(&self) -> EngineView {
        EngineView {
            tracks: self.timeline.track_views(),
            active_track: self.timeline.active_track as nat,
            playhead: self.timeline.playhead as nat,
            playing: self.playing,
            recording: self.recording,
            held: self.held_notes@,
            record_buffer: self.record_buffer@,
        }
    }
}

impl Engine {
    /// A stopped engine with no tracks, the playhead at 0 and nothing held
    /// or recorded.
    pub fn new() -> (e: Self)
        ensures
            e@.wf(),
            e@.tracks == Seq::<TrackView>::empty(),
            e@.active_track == 0,
            e@.playhead == 0,
            !e@.playing,
            !e@.recording,
            e@.held == no_held_notes(),
            e@.record_buffer == Seq::<Note>::empty(),
    {
        let mut held_notes: Vec<Option<Frame>> = Vec::new();
        let mut i: usize = 0;
        while i < NUM_MIDI_NOTES
            invariant
                i <= NUM_MIDI_NOTES,
                held_notes@ == Seq::new(i as nat, |k: int| None::<Frame>),
            decreases NUM_MIDI_NOTES - i,
        {
            held_notes.push(None);
            i += 1;
            assert(held_notes@ =~= Seq::new(i as nat, |k: int| None::<Frame>));
        }
        let e = Engine {
            timeline: Timeline::new(),
            playing: false,
            recording: false,
            held_notes,
            record_buffer: Vec::new(),
        };
        assert(e@.held =~= no_held_notes());
        e
    }

    /// The index of the active track.
    pub fn active_track(&self) -> (i: usize)
        ensures
            i == self@.active_track,
    {
        self.timeline.active_track
    }

    /// Whether the transport is playing.
    pub fn is_playing(&self) -> (b: bool)
        ensures
            b == self@.playing,
    {
        self.playing
    }

    /// Whether a recording is in progress.
    pub fn is_recording(&self) -> (b: bool)
        ensures
            b == self@.recording,
    {
        self.recording
    }

    /// The playhead, in frames.
    pub fn playhead(&self) -> (f: u64)
        ensures
            f == self@.playhead,
    {
        self.timeline.playhead
    }

    /// How many tracks there are.
    pub fn track_count(&self) -> (n: usize)
        ensures
            n == self@.tracks.len(),
    {
        self.timeline.tracks.len()
    }

    /// All tracks, in order.
    pub fn tracks(&self) -> (s: &[Track])
        ensures
            s@.map_values(|t: Track| t@) == self@.tracks,
    {
        self.timeline.tracks.as_slice()
    }

    /// The track at `i`.
    pub fn track(&self, i: usize) -> (t: &Track)
        requires
            i < self@.tracks.len(),
        ensures
            t@ == self@.tracks[i as int],
    {
        &self.timeline.tracks[i]
    }

    /// The track at `i`, for changing it in place.
    pub fn track_mut(&mut self, i: usize) -> (t: &mut Track)
        requires
            i < old(self)@.tracks.len(),
        ensures
            t@ == old(self)@.tracks[i as int],
            final(self)@.tracks == old(self)@.tracks.update(i as int, final(t)@),
            final(self)@ == (EngineView { tracks: final(self)@.tracks, ..old(self)@ }),
    {
        &mut self.timeline.tracks[i]
    }

    /// Adds `track` after the others and returns `true`, unless the
    /// timeline already holds `MAX_TRACKS` tracks.
    pub fn add_track(&mut self, track: Track) -> (ok: bool)
        requires
            old(self)@.wf(),
        ensures
            final(self)@.wf(),
            ok == (old(self)@.tracks.len() < MAX_TRACKS),
            final(self)@ == old(self)@.add_track(track@),
    {
        if self.timeline.tracks.len() < MAX_TRACKS {
            proof {
                use_type_invariant(&track.synth);
                Uni::lemma_inv_wf(track.synth);
            }
            let ghost tv = track@;
            self.timeline.tracks.push(track);
            assert(self@.tracks =~= old(self)@.tracks.push(tv));
            true
        } else {
            false
        }
    }

    /// Removes the track at `idx` and returns `true`, unless there is no
    /// such track or it is the last one; the active track moves back if it
    /// fell off the end.
    pub fn remove_track(&mut self, idx: usize) -> (ok: bool)
        requires
            old(self)@.wf(),
        ensures
            final(self)@.wf(),
            ok == (idx < old(self)@.tracks.len() && old(self)@.tracks.len() > 1),
            final(self)@ == old(self)@.remove_track(idx as nat),
    {
        if idx < self.timeline.tracks.len() && self.timeline.tracks.len() > 1 {
            self.timeline.tracks.remove(idx);
            if self.timeline.active_track >= self.timeline.tracks.len() {
                self.timeline.active_track = self.timeline.tracks.len() - 1;
            }
            assert(self@.tracks =~= old(self)@.tracks.remove(idx as int));
            true
        } else {
            false
        }
    }

    /// Makes track `idx` the active one, clamped to the last track.
    pub fn set_active_track(&mut self, idx: usize)
        requires
            old(self)@.wf(),
        ensures
            final(self)@.wf(),
            final(self)@ == old(self)@.set_active_track(idx as nat),
    {
        let n = self.timeline.tracks.len();
        self.timeline.active_track = if n > 0 {
            if idx < n - 1 {
                idx
            } else {
                n - 1
            }
        } else {
            0
        };
    }

    /// Adds `plugin` to the chain of track `track_idx`; `false` when there
    /// is no such track or its chain is full.
    pub fn add_plugin(&mut self, track_idx: usize, plugin: Plugin) -> (ok: bool)
        requires
            old(self)@.wf(),
        ensures
            final(self)@.wf(),
            ok == (track_idx < old(self)@.tracks.len() && old(self)@.tracks[track_idx as int].plugins.len()
                < MAX_PLUGINS),
            final(self)@ == old(self)@.add_plugin(track_idx as nat, plugin),
    {
        if track_idx < self.timeline.tracks.len() {
            let ok = self.timeline.tracks[track_idx].add_plugin(plugin);
            assert(self@.tracks =~= (if ok {
                old(self)@.tracks.update(
                    track_idx as int,
                    TrackView {
                        plugins: old(self)@.tracks[track_idx as int].plugins.push(plugin),
                        ..old(self)@.tracks[track_idx as int]
                    },
                )
            } else {
                old(self)@.tracks
            }));
            ok
        } else {
            false
        }
    }

    /// Removes plugin `plugin_idx` from the chain of track `track_idx`;
    /// `false` when there is no such track or plugin.
    pub fn remove_plugin(&mut self, track_idx: usize, plugin_idx: usize) -> (ok: bool)
        requires
            old(self)@.wf(),
        ensures
            final(self)@.wf(),
            ok == (track_idx < old(self)@.tracks.len() && plugin_idx < old(
                self,
            )@.tracks[track_idx as int].plugins.len()),
            final(self)@ == old(self)@.remove_plugin(track_idx as nat, plugin_idx as nat),
    {
        if track_idx < self.timeline.tracks.len() {
            let ok = self.timeline.tracks[track_idx].remove_plugin(plugin_idx);
            assert(self@.tracks =~= (if ok {
                old(self)@.tracks.update(
                    track_idx as int,
                    TrackView {
                        plugins: old(self)@.tracks[track_idx as int].plugins.remove(plugin_idx as int),
                        ..old(self)@.tracks[track_idx as int]
                    },
                )
            } else {
                old(self)@.tracks
            }));
            ok
        } else {
            false
        }
    }

    /// Live note-on on the active track (see `EngineView::note_on`).
    pub fn note_on(&mut self, note: u8)
        requires
            old(self)@.wf(),
            old(self)@.tracks.len() > 0,
            old(self)@.recording && old(self)@.playing ==> note < NUM_MIDI_NOTES,
        ensures
            final(self)@.wf(),
            final(self)@ == old(self)@.note_on(note),
    {
        let at = self.timeline.active_track;
        proof {
            assert(self@.tracks[at as int].wf());
        }
        self.timeline.tracks[at].synth.note_on(note);
        if self.recording && self.playing {
            self.held_notes.set(note as usize, Some(self.timeline.playhead));
        }
        assert(self@.tracks =~= old(self)@.note_on(note).tracks);
    }

    /// Live note-off on the active track (see `EngineView::note_off`).
    pub fn note_off(&mut self, note: u8)
        requires
            old(self)@.wf(),
            old(self)@.tracks.len() > 0,
            old(self)@.recording && old(self)@.playing ==> note < NUM_MIDI_NOTES,
        ensures
            final(self)@.wf(),
            final(self)@ == old(self)@.note_off(note),
    {
        let at = self.timeline.active_track;
        proof {
            assert(self@.tracks[at as int].wf());
        }
        self.timeline.tracks[at].synth.note_off(note);
        if self.recording && self.playing {
            if let Some(start) = self.held_notes[note as usize] {
                self.record_buffer.push(Note { start, end: self.timeline.playhead, note });
                self.held_notes.set(note as usize, None);
            }
        }
        assert(self@.tracks =~= old(self)@.note_off(note).tracks);
    }

    /// Releases every note on every track.
    fn all_notes_off(&mut self)
        requires
            old(self)@.wf(),
        ensures
            final(self)@.wf(),
            final(self)@ == (EngineView { tracks: all_off(old(self)@.tracks), ..old(self)@ }),
    {
        let ghost orig = self@.tracks;
        let mut i: usize = 0;
        while i < self.timeline.tracks.len()
            invariant
                self@ == (EngineView { tracks: self@.tracks, ..old(self)@ }),
                orig == old(self)@.tracks,
                self@.tracks.len() == orig.len(),
                i <= orig.len(),
                forall|k: int| 0 <= k < orig.len() ==> (#[trigger] orig[k]).wf(),
                forall|k: int| 0 <= k < i ==> #[trigger] self@.tracks[k] == orig[k].with_synth(orig[k].synth.all_notes_off()),
                forall|k: int| i <= k < orig.len() ==> #[trigger] self@.tracks[k] == orig[k],
            decreases orig.len() - i,
        {
            let ghost prev = self@.tracks;
            proof {
                assert(prev[i as int] == orig[i as int]);
            }
            self.timeline.tracks[i].synth.all_notes_off();
            assert(self@.tracks =~= prev.update(
                i as int,
                orig[i as int].with_synth(orig[i as int].synth.all_notes_off()),
            ));
            i += 1;
        }
        assert(self@.tracks =~= all_off(orig));
    }

    /// Play/stop (see `EngineView::toggle_play`).
    pub fn toggle_play(&mut self)
        requires
            old(self)@.wf(),
        ensures
            final(self)@.wf(),
            final(self)@ == old(self)@.toggle_play(),
    {
        self.all_notes_off();
        if self.recording && self.playing {
            self.recording = false;
            self.playing = false;
            self.clear_held_notes();
            self.record_buffer.clear();
        } else {
            self.playing = !self.playing;
        }
    }

    /// Forgets every held note.
    fn clear_held_notes(&mut self)
        requires
            old(self).held_notes@.len() == NUM_MIDI_NOTES,
        ensures
            final(self)@ == (EngineView { held: no_held_notes(), ..old(self)@ }),
    {
        let mut i: usize = 0;
        while i < NUM_MIDI_NOTES
            invariant
                self@ == (EngineView { held: self@.held, ..old(self)@ }),
                self.held_notes@.len() == NUM_MIDI_NOTES,
                i <= NUM_MIDI_NOTES,
                forall|k: int| 0 <= k < i ==> #[trigger] self.held_notes@[k] == None::<Frame>,
            decreases NUM_MIDI_NOTES - i,
        {
            self.held_notes.set(i, None);
            i += 1;
        }
        assert(self.held_notes@ =~= no_held_notes());
    }

    /// Releases every note and moves the playhead back to 0.
    pub fn reset(&mut self)
        requires
            old(self)@.wf(),
        ensures
            final(self)@.wf(),
            final(self)@ == old(self)@.reset(),
    {
        self.all_notes_off();
        self.timeline.playhead = 0;
    }

    /// Moves the playhead to `frame`.
    pub fn set_playhead(&mut self, frame: u64)
        requires
            old(self)@.wf(),
        ensures
            final(self)@.wf(),
            final(self)@ == old(self)@.set_playhead(frame),
    {
        self.timeline.playhead = frame;
    }

    /// Record/stop recording (see `EngineView::toggle_record`).
    pub fn toggle_record(&mut self)
        requires
            old(self)@.wf(),
        ensures
            final(self)@.wf(),
            final(self)@ == old(self)@.toggle_record(),
    {
        if self.recording {
            if self.record_buffer.len() > 0 {
                let at = self.timeline.active_track;
                let mut buf: Vec<Note> = Vec::new();
                std::mem::swap(&mut buf, &mut self.record_buffer);
                let ghost before = self.timeline.tracks[at as int].notes@;
                self.timeline.tracks[at].notes.append(&mut buf);
                assert(self@.tracks =~= old(self)@.tracks.update(
                    at as int,
                    TrackView { notes: old(self)@.tracks[at as int].notes + old(self)@.record_buffer, ..old(self)@.tracks[at as int] },
                ));
            }
            assert(self@.record_buffer =~= Seq::<Note>::empty());
            self.clear_held_notes();
            self.recording = false;
            self.all_notes_off();
            self.playing = false;
            assert(self@.tracks == old(self)@.toggle_record().tracks);
            assert(self@.held == old(self)@.toggle_record().held);
        } else if !self.playing {
            self.playing = true;
            self.recording = true;
        } else {
            self.recording = true;
        }
    }

    /// One audio block of `n` frames (see `EngineView::process_block`):
    /// while playing, the playhead moves on by `n` and each track's synth
    /// receives the note messages of its notes in the block's span.
    pub fn process_block(&mut self, n: usize)
        requires
            old(self)@.wf(),
            old(self)@.playing ==> old(self)@.playhead + n <= u64::MAX,
        ensures
            final(self)@.wf(),
            final(self)@ == old(self)@.process_block(n as nat),
    {
        if self.playing {
            let start = self.timeline.playhead;
            self.timeline.playhead = start + n as u64;
            let end = self.timeline.playhead;
            let mut msgs = [NoteMsg::On(0u8); MAX_NOTES_PER_BLOCK];
            let ghost orig = self@.tracks;
            let mut ti: usize = 0;
            while ti < self.timeline.tracks.len()
                invariant
                    self@ == (EngineView { tracks: self@.tracks, ..self@ }),
                    self@.playhead == end,
                    self@.playing == old(self)@.playing,
                    self@.recording == old(self)@.recording,
                    self@.active_track == old(self)@.active_track,
                    self@.held == old(self)@.held,
                    self@.record_buffer == old(self)@.record_buffer,
                    orig == old(self)@.tracks,
                    self@.tracks.len() == orig.len(),
                    msgs@.len() == MAX_NOTES_PER_BLOCK,
                    ti <= orig.len(),
                    forall|k: int| 0 <= k < orig.len() ==> (#[trigger] orig[k]).wf(),
                    forall|k: int|
                        0 <= k < ti ==> #[trigger] self@.tracks[k] == orig[k].with_synth(
                            apply_msgs(orig[k].synth, fired_msgs(orig[k].notes, start as int, end as int)),
                        ),
                    forall|k: int| ti <= k < orig.len() ==> #[trigger] self@.tracks[k] == orig[k],
                decreases orig.len() - ti,
            {
                let ghost prev = self@.tracks;
                proof {
                    assert(prev[ti as int] == orig[ti as int]);
                }
                let count = fill_block_events(
                    self.timeline.tracks[ti].notes.as_slice(),
                    start,
                    end,
                    &mut msgs,
                );
                let ghost fired = fired_msgs(orig[ti as int].notes, start as int, end as int);
                assert(msgs@.take(count as int) =~= fired);
                let mut j: usize = 0;
                while j < count
                    invariant
                        self@ == (EngineView { tracks: self@.tracks, ..self@ }),
                        self@.playhead == end,
                        self@.playing == old(self)@.playing,
                        self@.recording == old(self)@.recording,
                        self@.active_track == old(self)@.active_track,
                        self@.held == old(self)@.held,
                        self@.record_buffer == old(self)@.record_buffer,
                        self.timeline.tracks@.len() == prev.len(),
                        prev.len() == orig.len(),
                        ti < prev.len(),
                        prev[ti as int] == orig[ti as int],
                        orig[ti as int].wf(),
                        j <= count,
                        count <= msgs@.len(),
                        msgs@.take(count as int) == fired,
                        self@.tracks == prev.update(
                            ti as int,
                            orig[ti as int].with_synth(apply_msgs(orig[ti as int].synth, fired.take(j as int))),
                        ),
                    decreases count - j,
                {
                    proof {
                        assert(fired.take(j + 1).drop_last() =~= fired.take(j as int));
                        assert(fired.take(j + 1).last() == msgs@[j as int]);
                        lemma_apply_msgs_wf(orig[ti as int].synth, fired.take(j as int));
                        assert(self@.tracks[ti as int] == self.timeline.tracks@[ti as int]@);
                        let base = apply_msgs(orig[ti as int].synth, fired.take(j as int));
                        assert(apply_msgs(orig[ti as int].synth, fired.take(j + 1)) == match msgs@[j as int] {
                            NoteMsg::On(m) => base.note_on(m),
                            NoteMsg::Off(m) => base.note_off(m),
                        });
                    }
                    let ghost before = self@.tracks;
                    match msgs[j] {
                        NoteMsg::On(note) => self.timeline.tracks[ti].synth.note_on(note),
                        NoteMsg::Off(note) => self.timeline.tracks[ti].synth.note_off(note),
                    }
                    assert(self@.tracks =~= before.update(
                        ti as int,
                        before[ti as int].with_synth(self@.tracks[ti as int].synth),
                    ));
                    j += 1;
                    assert(self@.tracks[ti as int].synth == apply_msgs(orig[ti as int].synth, fired.take(j as int)));
                    assert(self@.tracks =~= prev.update(
                        ti as int,
                        orig[ti as int].with_synth(apply_msgs(orig[ti as int].synth, fired.take(j as int))),
                    ));
                }
                assert(fired.take(count as int) =~= fired);
                ti += 1;
            }
            assert(self@.tracks =~= fire_all(orig, start as int, end as int));
            assert forall|k: int| 0 <= k < self@.tracks.len() implies (#[trigger] self@.tracks[k]).wf() by {
                lemma_apply_msgs_wf(orig[k].synth, fired_msgs(orig[k].notes, start as int, end as int));
            }
        }
    }

}

/// Note messages keep a synth well formed.
pub proof fn lemma_apply_msgs_wf(s: UniState, msgs: Seq<NoteMsg>)
    requires
        s.wf(),
    ensures
        apply_msgs(s, msgs).wf(),
    decreases msgs.len(),
{
    if msgs.len() > 0 {
        lemma_apply_msgs_wf(s, msgs.drop_last());
        crate::synth::lemma_note_on_off_wf(apply_msgs(s, msgs.drop_last()));
    }
}

/// Recording captures what is played: from a stopped engine with nothing
/// captured, starting a recording, pressing `note` at frame `p`, releasing
/// it at frame `q` and stopping the recording adds the note `p..q` to the
/// end of the active track's notes; the engine ends stopped, with nothing
/// held or captured, and every other track keeps its notes.
pub proof fn lemma_record_round_trip(v: EngineView, note: u8, p: u64, q: u64)
    requires
        v.wf(),
        v.tracks.len() > 0,
        !v.recording,
        !v.playing,
        v.record_buffer.len() == 0,
        note < NUM_MIDI_NOTES,
    ensures
        ({
            let v4 = v.toggle_record().set_playhead(p).note_on(note).set_playhead(q).note_off(
                note,
            ).toggle_record();
            &&& v4.tracks.len() == v.tracks.len()
            &&& v4.tracks[v.active_track as int].notes == v.tracks[v.active_track as int].notes.push(
                Note { start: p, end: q, note },
            )
            &&& forall|i: int|
                0 <= i < v.tracks.len() && i != v.active_track ==> #[trigger] v4.tracks[i].notes
                    == v.tracks[i].notes
            &&& !v4.playing
            &&& !v4.recording
            &&& v4.record_buffer.len() == 0
            &&& v4.held == no_held_notes()
            &&& v4.wf()
        }),
{
    let v1 = v.toggle_record();
    let v2 = v1.set_playhead(p).note_on(note);
    let v3 = v2.set_playhead(q).note_off(note);
    let v4 = v3.toggle_record();
    assert(v3.record_buffer =~= seq![Note { start: p, end: q, note }]);
    let at = v.active_track as int;
    assert(v4.tracks[at].notes =~= v.tracks[at].notes.push(Note { start: p, end: q, note }));
    crate::synth::lemma_note_on_off_wf(v.tracks[at].synth);
    crate::synth::lemma_note_on_off_wf(v.tracks[at].synth.note_on(note));
    assert forall|i: int| 0 <= i < v4.tracks.len() implies (#[trigger] v4.tracks[i]).wf() by {
        if i == at {
            crate::synth::lemma_note_on_off_wf(v.tracks[at].synth.note_on(note).note_off(note));
        } else {
            crate::synth::lemma_note_on_off_wf(v.tracks[i].synth);
        }
    }
}

/// Stopping playback while recording throws the take away: no track's
/// notes change and nothing stays held or captured.
pub proof fn lemma_stop_discards_take(v: EngineView)
    requires
        v.recording,
        v.playing,
    ensures
        v.toggle_play().tracks.len() == v.tracks.len(),
        forall|i: int|
            0 <= i < v.tracks.len() ==> #[trigger] v.toggle_play().tracks[i].notes == v.tracks[i].notes,
        !v.toggle_play().playing,
        !v.toggle_play().recording,
        v.toggle_play().record_buffer.len() == 0,
        v.toggle_play().held == no_held_notes(),
{
}

/// Outside a recording, play/stop twice leaves the transport as it was,
/// with every note released.
pub proof fn lemma_toggle_play_twice(v: EngineView, note: u8)
    requires
        !v.recording,
    ensures
        v.toggle_play().toggle_play().playing == v.playing,
        v.toggle_play().toggle_play().playhead == v.playhead,
        forall|i: int|
            0 <= i < v.tracks.len() ==> !(#[trigger] v.toggle_play().tracks[i]).synth.is_sounding(note),
{
    assert forall|i: int| 0 <= i < v.tracks.len() implies !(#[trigger] v.toggle_play().tracks[i]).synth.is_sounding(note) by {
        crate::synth::lemma_all_notes_off_silences(v.tracks[i].synth, note);
    }
}

/// An audio block changes no track's notes or plugins, and moves the
/// playhead by its length exactly while playing; a stopped engine is left
/// as it was.
pub proof fn lemma_block_keeps_timeline(v: EngineView, n: nat)
    ensures
        v.process_block(n).tracks.len() == v.tracks.len(),
        forall|i: int|
            0 <= i < v.tracks.len() ==> (#[trigger] v.process_block(n).tracks[i]).notes == v.tracks[i].notes
                && v.process_block(n).tracks[i].plugins == v.tracks[i].plugins,
        v.process_block(n).playhead == (if v.playing {
            v.playhead + n
        } else {
            v.playhead
        }),
        !v.playing ==> v.process_block(n) == v,
{
}

/// A block fires into a track's synth exactly the messages that a player
/// over the same notes writes into a buffer of `MAX_NOTES_PER_BLOCK` slots
/// for the same span.
pub proof fn lemma_block_fires_player_messages(notes: Seq<Note>, start: int, end: int)
    ensures
        fired_msgs(notes, start, end) == block_events(notes, start, end).take(
            crate::midi::emitted_count(notes, start, end, MAX_NOTES_PER_BLOCK as int),
        ),
{
    let all = block_events(notes, start, end);
    if all.len() <= MAX_NOTES_PER_BLOCK {
        assert(all.take(all.len() as int) =~= all);
    }
}

/// A playing engine sounds a sequenced note from the block that holds its
/// start: on a track whose only note starts inside the block and ends after
/// it, the track's synth plays that note once the block is processed.
pub proof fn lemma_block_starts_note(v: EngineView, n: nat, i: int)
    requires
        v.wf(),
        v.playing,
        0 <= i < v.tracks.len(),
        v.tracks[i].notes.len() == 1,
        v.playhead <= v.tracks[i].notes[0].start < v.playhead + n <= v.tracks[i].notes[0].end,
    ensures
        v.process_block(n).tracks[i].synth.is_sounding(v.tracks[i].notes[0].note),
{
    let t = v.tracks[i];
    let note = t.notes[0];
    let start = v.playhead as int;
    let end = (v.playhead + n) as int;
    assert(t.notes.drop_last() =~= Seq::<Note>::empty());
    assert(block_events(t.notes.drop_last(), start, end) =~= Seq::<NoteMsg>::empty());
    assert(crate::midi::note_events(t.notes.last(), start, end) =~= seq![NoteMsg::On(note.note)]);
    assert(block_events(t.notes, start, end) =~= seq![NoteMsg::On(note.note)]);
    assert(fired_msgs(t.notes, start, end) =~= seq![NoteMsg::On(note.note)]);
    assert(seq![NoteMsg::On(note.note)].drop_last() =~= Seq::<NoteMsg>::empty());
    assert(t.wf());
    let msgs = seq![NoteMsg::On(note.note)];
    assert(apply_msgs(t.synth, msgs.drop_last()) == t.synth);
    assert(apply_msgs(t.synth, msgs) == t.synth.note_on(note.note));
    assert(v.process_block(n).tracks[i] == t.with_synth(apply_msgs(t.synth, fired_msgs(t.notes, start, end))));
    crate::synth::lemma_note_on_then_off(t.synth, note.note, note.note);
}

/// A recording only runs while the engine plays: a new engine is stopped
/// and not recording, and every operation keeps `recording ==> playing`.
pub proof fn lemma_recording_implies_playing(
    v: EngineView,
    note: u8,
    frame: u64,
    n: nat,
    t: TrackView,
    idx: nat,
    pi: nat,
    p: Plugin,
)
    requires
        v.transport_ok(),
    ensures
        v.note_on(note).transport_ok(),
        v.note_off(note).transport_ok(),
        v.toggle_play().transport_ok(),
        v.toggle_record().transport_ok(),
        v.reset().transport_ok(),
        v.set_playhead(frame).transport_ok(),
        v.process_block(n).transport_ok(),
        v.add_track(t).transport_ok(),
        v.remove_track(idx).transport_ok(),
        v.set_active_track(idx).transport_ok(),
        v.add_plugin(idx, p).transport_ok(),
        v.remove_plugin(idx, pi).transport_ok(),
{
}

/// Adding a plugin goes to the named track, whichever track is active: it
/// lands at the end of that track's chain, every other track and the rest
/// of the engine stay as they were, and removing the last plugin of that
/// chain again gives back the engine as it was.
pub proof fn lemma_add_plugin_targets_track(v: EngineView, ti: nat, p: Plugin)
    requires
        ti < v.tracks.len(),
        v.tracks[ti as int].plugins.len() < MAX_PLUGINS,
    ensures
        v.add_plugin(ti, p).tracks.len() == v.tracks.len(),
        v.add_plugin(ti, p).tracks[ti as int].plugins.len() == v.tracks[ti as int].plugins.len() + 1,
        v.add_plugin(ti, p).tracks[ti as int].plugins.last() == p,
        v.add_plugin(ti, p).tracks[ti as int].plugins.drop_last() == v.tracks[ti as int].plugins,
        v.add_plugin(ti, p).tracks[ti as int].notes == v.tracks[ti as int].notes,
        v.add_plugin(ti, p).tracks[ti as int].synth == v.tracks[ti as int].synth,
        forall|i: int| 0 <= i < v.tracks.len() && i != ti ==> #[trigger] v.add_plugin(ti, p).tracks[i] == v.tracks[i],
        v.add_plugin(ti, p).active_track == v.active_track,
        v.add_plugin(ti, p).remove_plugin(ti, v.tracks[ti as int].plugins.len()) == v,
{
    let w = v.add_plugin(ti, p);
    assert(w.tracks[ti as int].plugins.drop_last() =~= v.tracks[ti as int].plugins);
    let u = w.remove_plugin(ti, v.tracks[ti as int].plugins.len());
    assert(w.tracks[ti as int].plugins.remove(v.tracks[ti as int].plugins.len() as int) =~= v.tracks[ti as int].plugins);
    assert(u.tracks =~= v.tracks);
}

/// A note repeated back to back is heard again: on a track holding a note
/// of pitch `p` from `a` to `b` and the same pitch again from `b` to `c`,
/// a block that contains `b` but ends before `c` leaves `p` sounding, even
/// though the first note's note-off falls in the same block.
pub proof fn lemma_repeated_note_restarts(v: EngineView, n: nat, i: int, a: u64, b: u64, c: u64, p: u8)
    requires
        v.wf(),
        v.playing,
        0 <= i < v.tracks.len(),
        v.tracks[i].notes == seq![Note { start: a, end: b, note: p }, Note { start: b, end: c, note: p }],
        v.playhead <= b < v.playhead + n <= c,
    ensures
        v.process_block(n).tracks[i].synth.is_sounding(p),
{
    let t = v.tracks[i];
    let start = v.playhead as int;
    let end = (v.playhead + n) as int;
    let n1 = Note { start: a, end: b, note: p };
    let n2 = Note { start: b, end: c, note: p };
    assert(t.notes.drop_last() =~= seq![n1]);
    assert(seq![n1].drop_last() =~= Seq::<Note>::empty());
    assert(block_events(seq![n1].drop_last(), start, end) =~= Seq::<NoteMsg>::empty());
    assert(block_events(seq![n1], start, end) =~= crate::midi::note_events(n1, start, end));
    assert(crate::midi::note_events(n2, start, end) =~= seq![NoteMsg::On(p)]);
    let fired = block_events(t.notes, start, end);
    assert(fired == crate::midi::note_events(n1, start, end) + seq![NoteMsg::On(p)]);
    assert(fired.len() <= 3);
    assert(fired_msgs(t.notes, start, end) == fired);
    assert(fired.last() == NoteMsg::On(p));
    assert(t.wf());
    lemma_apply_msgs_wf(t.synth, fired.drop_last());
    let before = apply_msgs(t.synth, fired.drop_last());
    assert(apply_msgs(t.synth, fired) == before.note_on(p));
    crate::synth::lemma_note_on_then_off(before, p, p);
    assert(v.process_block(n).tracks[i] == t.with_synth(apply_msgs(t.synth, fired)));
}

/// Playing one note live: the playhead at its start, the key down, the
/// playhead at its end, the key up.
pub open spec fn play_note(v: EngineView, nt: Note) -> EngineView {
    v.set_playhead(nt.start).note_on(nt.note).set_playhead(nt.end).note_off(nt.note)
}

/// Playing the notes `ns` live, one after the other.
pub open spec fn play_notes(v: EngineView, ns: Seq<Note>) -> EngineView
    decreases ns.len(),
{
    if ns.len() == 0 {
        v
    } else {
        play_note(play_notes(v, ns.drop_last()), ns.last())
    }
}

proof fn lemma_play_notes_captures(v: EngineView, ns: Seq<Note>)
    requires
        v.recording,
        v.playing,
        v.active_track < v.tracks.len(),
        v.held.len() == NUM_MIDI_NOTES,
        forall|k: int| 0 <= k < ns.len() ==> (#[trigger] ns[k]).note < NUM_MIDI_NOTES,
    ensures
        play_notes(v, ns).record_buffer == v.record_buffer + ns,
        play_notes(v, ns).recording,
        play_notes(v, ns).playing,
        play_notes(v, ns).active_track == v.active_track,
        play_notes(v, ns).held.len() == NUM_MIDI_NOTES,
        play_notes(v, ns).tracks.len() == v.tracks.len(),
        forall|i: int| 0 <= i < v.tracks.len() ==> (#[trigger] play_notes(v, ns).tracks[i]).notes == v.tracks[i].notes,
    decreases ns.len(),
{
    if ns.len() > 0 {
        let prev = ns.drop_last();
        lemma_play_notes_captures(v, prev);
        let w = play_notes(v, prev);
        let nt = ns.last();
        let w1 = w.set_playhead(nt.start).note_on(nt.note);
        assert(w1.held[nt.note as int] == Some(nt.start));
        let w2 = w1.set_playhead(nt.end).note_off(nt.note);
        assert(w2.record_buffer == w.record_buffer.push(nt));
        assert(v.record_buffer + ns =~= (v.record_buffer + prev).push(nt));
    } else {
        assert(v.record_buffer + ns =~= v.record_buffer);
    }
}

/// A recorded take keeps every note played, in order: starting a recording
/// on a stopped engine, playing the notes `ns` one after the other and
/// stopping the recording appends exactly `ns` to the active track's notes,
/// leaves the other tracks' notes as they were, and stops the engine.
pub proof fn lemma_take_keeps_every_note(v: EngineView, ns: Seq<Note>)
    requires
        v.wf(),
        v.tracks.len() > 0,
        !v.recording,
        !v.playing,
        v.record_buffer.len() == 0,
        forall|k: int| 0 <= k < ns.len() ==> (#[trigger] ns[k]).note < NUM_MIDI_NOTES,
    ensures
        ({
            let r = play_notes(v.toggle_record(), ns).toggle_record();
            &&& r.tracks.len() == v.tracks.len()
            &&& r.tracks[v.active_track as int].notes == v.tracks[v.active_track as int].notes + ns
            &&& forall|i: int|
                0 <= i < v.tracks.len() && i != v.active_track ==> (#[trigger] r.tracks[i]).notes
                    == v.tracks[i].notes
            &&& !r.recording
            &&& !r.playing
            &&& r.record_buffer.len() == 0
        }),
{
    let v1 = v.toggle_record();
    lemma_play_notes_captures(v1, ns);
    let w = play_notes(v1, ns);
    assert(w.record_buffer =~= ns);
    let at = v.active_track as int;
    let r = w.toggle_record();
    if ns.len() == 0 {
        assert(v.tracks[at].notes + ns =~= v.tracks[at].notes);
    }
}

} // verus!
