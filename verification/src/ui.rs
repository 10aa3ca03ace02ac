//! The navigation state machine of the user interface: the normal and the
//! insert mode, the timeline screens, and one track screen per track. Key
//! events change the interface state and drive the engine; what only moves
//! or zooms the drawn timeline is handed back as a `ViewChange` for the
//! drawing layer, which owns that view.

use vstd::prelude::*;

use crate::engine::{fresh_track, Engine, EngineView, Track, MAX_TRACKS};
use crate::input::{Event, EventType, Key};
use crate::midi::{key_to_midi, spec_key_to_midi};
use crate::plugin::{spec_plugin_of, Action, Plugin, Tag, LIST};

verus! {

/// How many keys play notes: their base notes run from 48 to 65.
pub const NUM_NOTE_KEYS: usize = 18;

/// The lowest base note that a key plays.
pub const LOWEST_KEY_NOTE: u8 = 48;

/// How far the insert-mode transposition can go, in semitones.
pub const MAX_NOTE_OFFSET: i16 = 48;

/// Normal mode navigates; insert mode plays notes from the keyboard.
#[derive(Clone, Copy, Debug, PartialEq, Eq, Structural)]
pub enum Mode {
    Normal,
    Insert,
}

/// The screens of the timeline.
#[derive(Clone, Copy, Debug, PartialEq, Eq, Structural)]
pub enum TimelineScreen {
    Overview,
    MidiEditor,
    Track,
}

/// The screens of a track.
#[derive(Clone, Copy, Debug, PartialEq, Eq, Structural)]
pub enum TrackScreen {
    Overview,
    Plugin,
    PluginSelector,
}

/// A change of the drawn timeline that a key asks for.
#[derive(Clone, Copy, Debug, PartialEq, Eq, Structural)]
pub enum ViewChange {
    Nothing,
    /// Move the cursor one step towards the start.
    CursorBack,
    /// Move the cursor one step towards the end.
    CursorForward,
    /// Show half as many beats.
    ZoomIn,
    /// Show twice as many beats.
    ZoomOut,
}

/// The interface state of one track.
#[derive(Clone, Copy, Debug, PartialEq, Eq, Structural)]
pub struct TrackUi {
    pub screen: TrackScreen,
    pub active_plugin: usize,
    pub selector_index: usize,
}

/// The kind of plugin at position `i` of the selector.
pub open spec fn selector_tag(i: int) -> Tag {
    if i == 0 {
        Tag::Lpf
    } else {
        Tag::Delay
    }
}

/// How many kinds of plugin the selector lists.
pub open spec fn num_tags() -> int {
    2
}

/// A track's interface state after the key `key`, for track `ti` of the
/// engine `e`: the new state, the engine after it, and whether the key
/// leaves the track's screens.
pub open spec fn track_ui_step(t: TrackUi, e: EngineView, ti: nat, key: Key) -> (TrackUi, EngineView, bool) {
    let count = e.tracks[ti as int].plugins.len();
    match t.screen {
        TrackScreen::Overview => if key == Key::Backspace {
            (t, e, true)
        } else if key == Key::A {
            (TrackUi { screen: TrackScreen::PluginSelector, ..t }, e, false)
        } else if key == Key::Enter && count > 0 {
            (TrackUi { screen: TrackScreen::Plugin, ..t }, e, false)
        } else if key == Key::L && count > 0 {
            (
                TrackUi {
                    active_plugin: if t.active_plugin + 1 < count {
                        (t.active_plugin + 1) as usize
                    } else {
                        (count - 1) as usize
                    },
                    ..t
                },
                e,
                false,
            )
        } else if key == Key::H && t.active_plugin > 0 {
            (TrackUi { active_plugin: (t.active_plugin - 1) as usize, ..t }, e, false)
        } else {
            (t, e, false)
        },
        TrackScreen::Plugin => if t.active_plugin < count && key == Key::Backspace {
            (TrackUi { screen: TrackScreen::Overview, ..t }, e, false)
        } else {
            (t, e, false)
        },
        TrackScreen::PluginSelector => if key == Key::Backspace {
            (TrackUi { screen: TrackScreen::Overview, ..t }, e, false)
        } else if key == Key::K && t.selector_index > 0 {
            (TrackUi { selector_index: (t.selector_index - 1) as usize, ..t }, e, false)
        } else if key == Key::J && t.selector_index + 1 < num_tags() {
            (TrackUi { selector_index: (t.selector_index + 1) as usize, ..t }, e, false)
        } else if key == Key::Enter && count < crate::engine::MAX_PLUGINS {
            (
                TrackUi { screen: TrackScreen::Overview, ..t },
                e.add_plugin(ti, spec_plugin_of(selector_tag(t.selector_index as int))),
                false,
            )
        } else {
            (t, e, false)
        },
    }
}

/// A track's interface state when the track is made.
pub open spec fn fresh_track_ui() -> TrackUi {
    TrackUi { screen: TrackScreen::Overview, active_plugin: 0, selector_index: 0 }
}

/// The timeline's state after a key press in normal mode: its screen, its
/// track states, the engine, and the change of the drawn view.
pub open spec fn timeline_step(
    screen: TimelineScreen,
    tracks: Seq<TrackUi>,
    e: EngineView,
    key: Key,
) -> (TimelineScreen, Seq<TrackUi>, EngineView, ViewChange) {
    let at = e.active_track;
    match screen {
        TimelineScreen::Overview => if key == Key::Enter {
            (TimelineScreen::Track, tracks, e, ViewChange::Nothing)
        } else if key == Key::E {
            (TimelineScreen::MidiEditor, tracks, e, ViewChange::Nothing)
        } else if key == Key::H {
            (screen, tracks, e, ViewChange::CursorBack)
        } else if key == Key::L {
            (screen, tracks, e, ViewChange::CursorForward)
        } else if key == Key::J {
            (
                screen,
                tracks,
                if at + 1 < e.tracks.len() {
                    e.set_active_track(at + 1)
                } else {
                    e
                },
                ViewChange::Nothing,
            )
        } else if key == Key::K {
            (
                screen,
                tracks,
                if at > 0 {
                    e.set_active_track((at - 1) as nat)
                } else {
                    e
                },
                ViewChange::Nothing,
            )
        } else if key == Key::Space {
            (screen, tracks, e.toggle_play(), ViewChange::Nothing)
        } else if key == Key::Backspace {
            (screen, tracks, e.reset(), ViewChange::Nothing)
        } else if key == Key::R {
            (screen, tracks, e.toggle_record(), ViewChange::Nothing)
        } else if key == Key::Equal && e.tracks.len() < MAX_TRACKS {
            (screen, tracks.push(fresh_track_ui()), e.add_track(fresh_track()), ViewChange::Nothing)
        } else if key == Key::Minus && e.tracks.len() > 1 {
            (screen, tracks.remove(at as int), e.remove_track(at), ViewChange::Nothing)
        } else if key == Key::RightBracket {
            (screen, tracks, e, ViewChange::ZoomIn)
        } else if key == Key::LeftBracket {
            (screen, tracks, e, ViewChange::ZoomOut)
        } else {
            (screen, tracks, e, ViewChange::Nothing)
        },
        TimelineScreen::MidiEditor => if key == Key::Backspace {
            (TimelineScreen::Overview, tracks, e, ViewChange::Nothing)
        } else {
            (screen, tracks, e, ViewChange::Nothing)
        },
        TimelineScreen::Track => {
            let r = track_ui_step(tracks[at as int], e, at, key);
            (
                if r.2 {
                    TimelineScreen::Overview
                } else {
                    TimelineScreen::Track
                },
                tracks.update(at as int, r.0),
                r.1,
                ViewChange::Nothing,
            )
        },
    }
}

/// The engine after releasing, in key order, every note held by a key.
pub open spec fn release_held(e: EngineView, held: Seq<Option<u8>>) -> EngineView
    decreases held.len(),
{
    if held.len() == 0 {
        e
    } else {
        let e1 = release_held(e, held.drop_last());
        match held.last() {
            Some(n) => e1.note_off(n),
            None => e1,
        }
    }
}

/// No key holds a note.
pub open spec fn no_keys_held() -> Seq<Option<u8>> {
    Seq::new(NUM_NOTE_KEYS as nat, |i: int| None::<u8>)
}

/// The interface seen as values.
pub struct AppView {
    pub mode: Mode,
    /// Transposition of the keyboard in insert mode, in semitones.
    pub note_offset: int,
    /// For each note key (by its base note less 48), the note it holds.
    pub held: Seq<Option<u8>>,
    pub screen: TimelineScreen,
    pub tracks: Seq<TrackUi>,
}

impl AppView {
    /// The transposition stays within four octaves; one slot per note key,
    /// each holding a MIDI note; one track state per engine track, each
    /// selecting a listed plugin kind.
    pub open spec fn wf(self, e: EngineView) -> bool {
        &&& -48 <= self.note_offset <= 48
        &&& self.held.len() == NUM_NOTE_KEYS
        &&& forall|i: int| 0 <= i < NUM_NOTE_KEYS ==> (#[trigger] self.held[i] matches Some(n) ==> n < 128)
        &&& e.tracks.len() == 0 ==> forall|i: int| 0 <= i < NUM_NOTE_KEYS ==> (#[trigger] self.held[i]) is None
        &&& self.tracks.len() == e.tracks.len()
        &&& forall|i: int| 0 <= i < self.tracks.len() ==> (#[trigger] self.tracks[i]).selector_index < num_tags()
    }
}

/// The interface and the engine after the event `ev`, and the change of the
/// drawn view that it asks for.
pub open spec fn app_step(a: AppView, e: EngineView, ev: Event) -> (AppView, EngineView, ViewChange) {
    match a.mode {
        Mode::Insert => match spec_key_to_midi(ev.key) {
            Some(base) => {
                let raw = base + a.note_offset;
                let slot = base - 48;
                if raw < 0 || raw > 127 {
                    (a, e, ViewChange::Nothing)
                } else if ev.ty == EventType::KeyPress {
                    (
                        AppView { held: a.held.update(slot, Some(raw as u8)), ..a },
                        e.note_on(raw as u8),
                        ViewChange::Nothing,
                    )
                } else {
                    match a.held[slot] {
                        Some(h) => (
                            AppView { held: a.held.update(slot, None), ..a },
                            e.note_off(h),
                            ViewChange::Nothing,
                        ),
                        None => (a, e, ViewChange::Nothing),
                    }
                }
            },
            None => if ev.ty == EventType::KeyPress {
                if ev.key == Key::Escape {
                    (
                        AppView { mode: Mode::Normal, held: no_keys_held(), ..a },
                        release_held(e, a.held),
                        ViewChange::Nothing,
                    )
                } else if ev.key == Key::Z {
                    (
                        AppView {
                            note_offset: if a.note_offset - 12 < -48 {
                                -48
                            } else {
                                a.note_offset - 12
                            },
                            ..a
                        },
                        e,
                        ViewChange::Nothing,
                    )
                } else if ev.key == Key::X {
                    (
                        AppView {
                            note_offset: if a.note_offset + 12 > 48 {
                                48
                            } else {
                                a.note_offset + 12
                            },
                            ..a
                        },
                        e,
                        ViewChange::Nothing,
                    )
                } else {
                    (a, e, ViewChange::Nothing)
                }
            } else {
                (a, e, ViewChange::Nothing)
            },
        },
        Mode::Normal => if ev.ty != EventType::KeyPress {
            (a, e, ViewChange::Nothing)
        } else if ev.key == Key::I {
            (AppView { mode: Mode::Insert, ..a }, e, ViewChange::Nothing)
        } else {
            let r = timeline_step(a.screen, a.tracks, e, ev.key);
            (AppView { screen: r.0, tracks: r.1, ..a }, r.2, r.3)
        },
    }
}

/// Engine preconditions of the laws on playing notes: well formed, with at
/// least one track.
pub open spec fn engine_ready(e: EngineView) -> bool {
    e.wf() && e.tracks.len() > 0
}

/// Whether the event acts on a track: a note key pressed in insert mode
/// (within the MIDI range once transposed), or a key pressed on the track
/// screens in normal mode.
pub open spec fn needs_track(a: AppView, ev: Event) -> bool {
    match a.mode {
        Mode::Insert => match spec_key_to_midi(ev.key) {
            Some(base) => ev.ty == EventType::KeyPress && 0 <= base + a.note_offset <= 127,
            None => false,
        },
        Mode::Normal => ev.ty == EventType::KeyPress && ev.key != Key::I && a.screen == TimelineScreen::Track,
    }
}

impl TrackUi {
    /// A track's interface state when the track is made.
    pub fn new() -> (t: Self)
        ensures
            t == fresh_track_ui(),
    {
        TrackUi { screen: TrackScreen::Overview, active_plugin: 0, selector_index: 0 }
    }

    /// Handles a key press on the screens of track `track_idx`; returns
    /// whether it leaves them (see `track_ui_step`).
    pub fn handle_event(&mut self, ev: Event, eng: &mut Engine, track_idx: usize) -> (back: bool)
        requires
            old(eng)@.wf(),
            track_idx < old(eng)@.tracks.len(),
            old(self).selector_index < num_tags(),
        ensures
            final(eng)@.wf(),
            final(self).selector_index < num_tags(),
            (*final(self), final(eng)@, back) == track_ui_step(*old(self), old(eng)@, track_idx as nat, ev.key),
    {
        let plugin_count = eng.track(track_idx).plugins.len();
        match self.screen {
            TrackScreen::Overview => {
                match ev.key {
                    Key::Backspace => {
                        return true;
                    },
                    Key::A => {
                        self.screen = TrackScreen::PluginSelector;
                    },
                    Key::Enter => {
                        if plugin_count > 0 {
                            self.screen = TrackScreen::Plugin;
                        }
                    },
                    Key::L => {
                        if plugin_count > 0 {
                            self.active_plugin = if self.active_plugin < plugin_count - 1 {
                                self.active_plugin + 1
                            } else {
                                plugin_count - 1
                            };
                        }
                    },
                    Key::H => {
                        if self.active_plugin > 0 {
                            self.active_plugin -= 1;
                        }
                    },
                    _ => {},
                }
            },
            TrackScreen::Plugin => {
                if self.active_plugin < plugin_count {
                    let mut plugin: Plugin = eng.track(track_idx).plugins[self.active_plugin];
                    if let Action::GoBack = plugin.handle_event(ev) {
                        self.screen = TrackScreen::Overview;
                    }
                }
            },
            TrackScreen::PluginSelector => {
                match ev.key {
                    Key::Backspace => {
                        self.screen = TrackScreen::Overview;
                    },
                    Key::K => {
                        if self.selector_index > 0 {
                            self.selector_index -= 1;
                        }
                    },
                    Key::J => {
                        if self.selector_index + 1 < LIST.len() {
                            self.selector_index += 1;
                        }
                    },
                    Key::Enter => {
                        let tag = LIST[self.selector_index];
                        assert(tag == selector_tag(self.selector_index as int));
                        let plugin = Plugin::new(tag);
                        if eng.add_plugin(track_idx, plugin) {
                            self.screen = TrackScreen::Overview;
                        }
                    },
                    _ => {},
                }
            },
        }
        false
    }
}

/// The timeline's interface state: its screen and one state per track.
struct TimelineUi {
    screen: TimelineScreen,
    tracks: Vec<TrackUi>,
}

impl TimelineUi {
    fn new(track_count: usize) -> (t: Self)
        ensures
            t.screen == TimelineScreen::Overview,
            t.tracks@ == Seq::new(track_count as nat, |i: int| fresh_track_ui()),
    {
        let mut tracks: Vec<TrackUi> = Vec::new();
        let mut i: usize = 0;
        while i < track_count
            invariant
                i <= track_count,
                tracks@ == Seq::new(i as nat, |k: int| fresh_track_ui()),
            decreases track_count - i,
        {
            tracks.push(TrackUi::new());
            i += 1;
            assert(tracks@ =~= Seq::new(i as nat, |k: int| fresh_track_ui()));
        }
        TimelineUi { screen: TimelineScreen::Overview, tracks }
    }

    /// Handles a key press in normal mode (see `timeline_step`).
    fn handle_event(&mut self, ev: Event, eng: &mut Engine) -> (vc: ViewChange)
        requires
            old(eng)@.wf(),
            old(self).screen == TimelineScreen::Track ==> old(eng)@.tracks.len() > 0,
            old(self).tracks@.len() == old(eng)@.tracks.len(),
            forall|i: int|
                0 <= i < old(self).tracks@.len() ==> (#[trigger] old(self).tracks@[i]).selector_index
                    < num_tags(),
        ensures
            final(eng)@.wf(),
            old(eng)@.tracks.len() > 0 ==> final(eng)@.tracks.len() > 0,
            final(self).tracks@.len() == final(eng)@.tracks.len(),
            forall|i: int|
                0 <= i < final(self).tracks@.len() ==> (#[trigger] final(self).tracks@[i]).selector_index
                    < num_tags(),
            (final(self).screen, final(self).tracks@, final(eng)@, vc) == timeline_step(
                old(self).screen,
                old(self).tracks@,
                old(eng)@,
                ev.key,
            ),
    {
        match self.screen {
            TimelineScreen::Overview => {
                match ev.key {
                    Key::Enter => {
                        self.screen = TimelineScreen::Track;
                    },
                    Key::E => {
                        self.screen = TimelineScreen::MidiEditor;
                    },
                    Key::H => {
                        return ViewChange::CursorBack;
                    },
                    Key::L => {
                        return ViewChange::CursorForward;
                    },
                    Key::J => {
                        let at = eng.active_track();
                        if at + 1 < eng.track_count() {
                            eng.set_active_track(at + 1);
                        }
                    },
                    Key::K => {
                        let at = eng.active_track();
                        if at > 0 {
                            eng.set_active_track(at - 1);
                        }
                    },
                    Key::Space => eng.toggle_play(),
                    Key::Backspace => eng.reset(),
                    Key::R => eng.toggle_record(),
                    Key::Equal => {
                        if eng.track_count() < MAX_TRACKS {
                            let empty: Vec<crate::midi::Note> = Vec::new();
                            let track = Track::new(empty.as_slice());
                            if eng.add_track(track) {
                                self.tracks.push(TrackUi::new());
                            }
                        }
                    },
                    Key::Minus => {
                        if eng.track_count() > 1 {
                            let at = eng.active_track();
                            if eng.remove_track(at) {
                                self.tracks.remove(at);
                            }
                        }
                    },
                    Key::RightBracket => {
                        return ViewChange::ZoomIn;
                    },
                    Key::LeftBracket => {
                        return ViewChange::ZoomOut;
                    },
                    _ => {},
                }
            },
            TimelineScreen::MidiEditor => {
                if ev.key == Key::Backspace {
                    self.screen = TimelineScreen::Overview;
                }
            },
            TimelineScreen::Track => {
                let at = eng.active_track();
                let mut t = self.tracks[at];
                let back = t.handle_event(ev, eng, at);
                self.tracks.set(at, t);
                if back {
                    self.screen = TimelineScreen::Overview;
                }
            },
        }
        ViewChange::Nothing
    }
}

/// The interface.
pub struct App {
    mode: Mode,
    note_offset: i16,
    active_notes: Vec<Option<u8>>,
    timeline: TimelineUi,
}

impl View for App {
    type V = AppView;

    closed spec fn view(&self) -> AppView {
        AppView {
            mode: self.mode,
            note_offset: self.note_offset as int,
            held: self.active_notes@,
            screen: self.timeline.screen,
            tracks: self.timeline.tracks@,
        }
    }
}

impl App {
    /// The interface for `eng`: normal mode, no transposition, no key held,
    /// the timeline overview, and a fresh state for each track.
    pub fn new(eng: &Engine) -> (a: Self)
        ensures
            a@.wf(eng@),
            a@.mode == Mode::Normal,
            a@.note_offset == 0,
            a@.held == no_keys_held(),
            a@.screen == TimelineScreen::Overview,
            a@.tracks == Seq::new(eng@.tracks.len(), |i: int| fresh_track_ui()),
    {
        let mut active_notes: Vec<Option<u8>> = Vec::new();
        let mut i: usize = 0;
        while i < NUM_NOTE_KEYS
            invariant
                i <= NUM_NOTE_KEYS,
                active_notes@ == Seq::new(i as nat, |k: int| None::<u8>),
            decreases NUM_NOTE_KEYS - i,
        {
            active_notes.push(None);
            i += 1;
            assert(active_notes@ =~= Seq::new(i as nat, |k: int| None::<u8>));
        }
        App {
            mode: Mode::Normal,
            note_offset: 0,
            active_notes,
            timeline: TimelineUi::new(eng.track_count()),
        }
    }

    /// The current mode.
    pub fn mode(&self) -> (m: Mode)
        ensures
            m == self@.mode,
    {
        self.mode
    }

    /// The current transposition of the keyboard.
    pub fn note_offset(&self) -> (o: i16)
        ensures
            o == self@.note_offset,
    {
        self.note_offset
    }

    /// The timeline screen on show.
    pub fn screen(&self) -> (s: TimelineScreen)
        ensures
            s == self@.screen,
    {
        self.timeline.screen
    }

    /// The interface state of track `i`.
    pub fn track_ui(&self, i: usize) -> (t: TrackUi)
        requires
            i < self@.tracks.len(),
        ensures
            t == self@.tracks[i as int],
    {
        self.timeline.tracks[i]
    }

    /// Releases every note that a key holds, in key order.
    fn release_keys(&mut self, eng: &mut Engine)
        requires
            old(self)@.wf(old(eng)@),
            old(eng)@.wf(),
        ensures
            final(eng)@.wf(),
            final(eng)@ == release_held(old(eng)@, old(self)@.held),
            final(eng)@.tracks.len() == old(eng)@.tracks.len(),
            final(self)@ == (AppView { held: no_keys_held(), ..old(self)@ }),
    {
        let ghost held0 = self@.held;
        let ghost e0 = eng@;
        let mut i: usize = 0;
        while i < NUM_NOTE_KEYS
            invariant
                i <= NUM_NOTE_KEYS,
                held0 == old(self)@.held,
                e0 == old(eng)@,
                held0.len() == NUM_NOTE_KEYS,
                forall|k: int| 0 <= k < NUM_NOTE_KEYS ==> (#[trigger] held0[k] matches Some(n) ==> n < 128),
                e0.tracks.len() == 0 ==> forall|k: int| 0 <= k < NUM_NOTE_KEYS ==> (#[trigger] held0[k]) is None,
                self@ == (AppView { held: self@.held, ..old(self)@ }),
                self@.held.len() == NUM_NOTE_KEYS,
                forall|k: int| 0 <= k < i ==> #[trigger] self@.held[k] == None::<u8>,
                forall|k: int| i <= k < NUM_NOTE_KEYS ==> #[trigger] self@.held[k] == held0[k],
                eng@.wf(),
                eng@.tracks.len() == e0.tracks.len(),
                eng@ == release_held(e0, held0.take(i as int)),
            decreases NUM_NOTE_KEYS - i,
        {
            proof {
                assert(held0.take(i + 1).drop_last() =~= held0.take(i as int));
            }
            if let Some(n) = self.active_notes[i] {
                assert(held0[i as int] == Some(n));
                eng.note_off(n);
            }
            self.active_notes.set(i, None);
            i += 1;
        }
        assert(held0.take(NUM_NOTE_KEYS as int) =~= held0);
        assert(self@.held =~= no_keys_held());
    }

    /// Handles a key event (see `app_step`); returns the change of the
    /// drawn timeline that it asks for.
    pub fn handle_event(&mut self, ev: Event, eng: &mut Engine) -> (vc: ViewChange)
        requires
            old(self)@.wf(old(eng)@),
            old(eng)@.wf(),
            needs_track(old(self)@, ev) ==> old(eng)@.tracks.len() > 0,
        ensures
            final(self)@.wf(final(eng)@),
            final(eng)@.wf(),
            old(eng)@.tracks.len() > 0 ==> final(eng)@.tracks.len() > 0,
            (final(self)@, final(eng)@, vc) == app_step(old(self)@, old(eng)@, ev),
    {
        match self.mode {
            Mode::Insert => {
                if let Some(base) = key_to_midi(ev.key) {
                    let raw: i16 = base as i16 + self.note_offset;
                    if raw < 0 || raw > 127 {
                        return ViewChange::Nothing;
                    }
                    let note = raw as u8;
                    let slot = (base - LOWEST_KEY_NOTE) as usize;
                    match ev.ty {
                        EventType::KeyPress => {
                            self.active_notes.set(slot, Some(note));
                            eng.note_on(note);
                        },
                        EventType::KeyRelease => {
                            if let Some(held) = self.active_notes[slot] {
                                self.active_notes.set(slot, None);
                                eng.note_off(held);
                            }
                        },
                    }
                    return ViewChange::Nothing;
                }
                if ev.ty == EventType::KeyPress {
                    match ev.key {
                        Key::Escape => {
                            self.release_keys(eng);
                            self.mode = Mode::Normal;
                        },
                        Key::Z => {
                            self.note_offset = if self.note_offset - 12 < -MAX_NOTE_OFFSET {
                                -MAX_NOTE_OFFSET
                            } else {
                                self.note_offset - 12
                            };
                        },
                        Key::X => {
                            self.note_offset = if self.note_offset + 12 > MAX_NOTE_OFFSET {
                                MAX_NOTE_OFFSET
                            } else {
                                self.note_offset + 12
                            };
                        },
                        _ => {},
                    }
                }
                ViewChange::Nothing
            },
            Mode::Normal => {
                if ev.ty != EventType::KeyPress {
                    return ViewChange::Nothing;
                }
                if ev.key == Key::I {
                    self.mode = Mode::Insert;
                    return ViewChange::Nothing;
                }
                self.timeline.handle_event(ev, eng)
            },
        }
    }
}

/// Releasing held notes keeps the engine's tracks and active track, keeps
/// the active synth well formed, and leaves none of the released notes
/// sounding on the active track.
proof fn lemma_release_held_silences(e: EngineView, held: Seq<Option<u8>>)
    requires
        e.wf(),
        e.tracks.len() > 0,
    ensures
        release_held(e, held).active_track == e.active_track,
        release_held(e, held).tracks.len() == e.tracks.len(),
        release_held(e, held).tracks[e.active_track as int].synth.wf(),
        forall|k: int|
            0 <= k < held.len() ==> (#[trigger] held[k] matches Some(n) ==> !release_held(
                e,
                held,
            ).tracks[e.active_track as int].synth.is_sounding(n)),
    decreases held.len(),
{
    let at = e.active_track as int;
    assert(e.tracks[at].wf());
    if held.len() > 0 {
        let prev = held.drop_last();
        lemma_release_held_silences(e, prev);
        let e1 = release_held(e, prev);
        match held.last() {
            Some(m) => {
                let s = e1.tracks[at].synth;
                crate::synth::lemma_note_on_off_wf(s);
                assert forall|k: int| 0 <= k < held.len() implies (#[trigger] held[k] matches Some(n)
                    ==> !release_held(e, held).tracks[at].synth.is_sounding(n)) by {
                    if let Some(n) = held[k] {
                        if n == m {
                            crate::synth::lemma_note_on_then_off(s, m, m);
                        } else {
                            assert(prev[k] == held[k]);
                            crate::synth::lemma_note_on_then_off(s, m, n);
                        }
                    }
                }
            },
            None => {
                assert forall|k: int| 0 <= k < held.len() implies (#[trigger] held[k] matches Some(n)
                    ==> !release_held(e, held).tracks[at].synth.is_sounding(n)) by {
                    if k < held.len() - 1 {
                        assert(prev[k] == held[k]);
                    }
                }
            },
        }
    }
}

/// Leaving insert mode with Escape silences the keyboard: afterwards no key
/// holds a note, the mode is normal, and no note that a key held is still
/// sounding on the active track.
pub proof fn lemma_escape_silences(a: AppView, e: EngineView)
    requires
        a.wf(e),
        engine_ready(e),
        a.mode == Mode::Insert,
    ensures
        ({
            let r = app_step(a, e, Event { ty: EventType::KeyPress, key: Key::Escape });
            &&& r.0.mode == Mode::Normal
            &&& r.0.held == no_keys_held()
            &&& forall|k: int|
                0 <= k < a.held.len() ==> (#[trigger] a.held[k] matches Some(n) ==> !r.1.tracks[e.active_track as int].synth.is_sounding(n))
        }),
{
    lemma_release_held_silences(e, a.held);
}

/// In insert mode, pressing a note key and releasing it again stops the
/// note that the press started: the key holds nothing afterwards and the
/// note no longer sounds on the active track.
pub proof fn lemma_press_release(a: AppView, e: EngineView, key: Key)
    requires
        a.wf(e),
        engine_ready(e),
        a.mode == Mode::Insert,
        spec_key_to_midi(key) is Some,
    ensures
        ({
            let r1 = app_step(a, e, Event { ty: EventType::KeyPress, key });
            let r2 = app_step(r1.0, r1.1, Event { ty: EventType::KeyRelease, key });
            let note = (spec_key_to_midi(key)->0 + a.note_offset) as u8;
            &&& r1.1.tracks[e.active_track as int].synth.is_sounding(note)
            &&& r2.0.held[spec_key_to_midi(key)->0 - 48] is None
            &&& !r2.1.tracks[e.active_track as int].synth.is_sounding(note)
            &&& r2.0.wf(r2.1)
        }),
{
    let base = spec_key_to_midi(key)->0;
    crate::midi::lemma_key_to_midi_distinct(key, key);
    let at = e.active_track as int;
    assert(e.tracks[at].wf());
    let note = (base + a.note_offset) as u8;
    let s = e.tracks[at].synth;
    crate::synth::lemma_note_on_then_off(s, note, note);
    crate::synth::lemma_note_on_off_wf(s);
    crate::synth::lemma_note_on_off_wf(s.note_on(note));
    let r1 = app_step(a, e, Event { ty: EventType::KeyPress, key });
    assert(r1.0.held[base - 48] == Some(note));
}

/// On the timeline overview, keys keep one track state per track and at
/// least one track with the active one among them: `=` adds a track and its
/// state exactly when fewer than `MAX_TRACKS` exist, `-` removes the active
/// track and its state exactly when more than one exists, `J` and `K` move
/// the active track by one only while it stays in range, and no other key
/// changes the number of tracks.
pub proof fn lemma_timeline_overview_keys(tracks: Seq<TrackUi>, e: EngineView, key: Key)
    requires
        e.wf(),
        e.tracks.len() >= 1,
        tracks.len() == e.tracks.len(),
    ensures
        ({
            let r = timeline_step(TimelineScreen::Overview, tracks, e, key);
            let n = e.tracks.len();
            let at = e.active_track;
            &&& r.1.len() == r.2.tracks.len()
            &&& r.2.tracks.len() >= 1
            &&& r.2.active_track < r.2.tracks.len()
            &&& key == Key::Equal ==> (r.2.tracks.len() == n + 1 <==> n < MAX_TRACKS)
            &&& key == Key::Equal && n < MAX_TRACKS ==> r.1 == tracks.push(fresh_track_ui())
                && r.2.tracks == e.tracks.push(fresh_track())
            &&& key == Key::Minus ==> (r.2.tracks.len() == n - 1 <==> n > 1)
            &&& key == Key::Minus && n > 1 ==> r.1 == tracks.remove(at as int) && r.2.tracks
                == e.tracks.remove(at as int)
            &&& key == Key::J ==> r.2.active_track == (if at + 1 < n {
                (at + 1) as int
            } else {
                at as int
            })
            &&& key == Key::K ==> r.2.active_track == (if at > 0 {
                (at - 1) as int
            } else {
                at as int
            })
            &&& key != Key::Equal && key != Key::Minus ==> r.2.tracks.len() == n
        }),
{
}

} // verus!
