use ledaw::engine::{Engine, Track, MAX_PLUGINS, MAX_TRACKS};
use ledaw::midi::Note;
use ledaw::plugin::{Plugin, Tag};
use ledaw::synth::NoteState;

#[test]
fn track_owns_its_notes() {
    let notes = [Note {
        start: 10,
        end: 100,
        note: 60,
    }];
    let track = Track::new(&notes);

    assert_eq!(track.notes.len(), 1);
    assert_eq!(track.notes[0].start, 10);
    assert_eq!(track.notes[0].end, 100);
    assert_eq!(track.notes[0].note, 60);
}

#[test]
fn new_engine_is_stopped_and_empty() {
    let eng = Engine::new();
    assert_eq!(eng.track_count(), 0);
    assert!(!eng.playing);
    assert!(!eng.recording);
    assert_eq!(eng.playhead(), 0);
    assert_eq!(eng.active_track(), 0);
}

#[test]
fn add_track_stops_at_capacity() {
    let mut eng = Engine::new();
    for _ in 0..MAX_TRACKS {
        assert!(eng.add_track(Track::new(&[])));
    }
    assert!(!eng.add_track(Track::new(&[])));
    assert_eq!(eng.track_count(), MAX_TRACKS);
}

#[test]
fn remove_track_keeps_the_last_and_clamps_active() {
    let mut eng = Engine::new();
    eng.add_track(Track::new(&[Note { start: 1, end: 2, note: 1 }]));
    eng.add_track(Track::new(&[Note { start: 3, end: 4, note: 2 }]));
    eng.add_track(Track::new(&[Note { start: 5, end: 6, note: 3 }]));
    eng.set_active_track(2);
    assert_eq!(eng.active_track(), 2);
    assert!(!eng.remove_track(3));
    assert!(eng.remove_track(2));
    assert_eq!(eng.track_count(), 2);
    assert_eq!(eng.active_track(), 1);
    assert!(eng.remove_track(0));
    assert_eq!(eng.track(0).notes[0].note, 2);
    assert_eq!(eng.active_track(), 0);
    assert!(!eng.remove_track(0));
    assert_eq!(eng.track_count(), 1);
}

#[test]
fn set_active_track_clamps() {
    let mut eng = Engine::new();
    eng.set_active_track(5);
    assert_eq!(eng.active_track(), 0);
    eng.add_track(Track::new(&[]));
    eng.add_track(Track::new(&[]));
    eng.set_active_track(7);
    assert_eq!(eng.active_track(), 1);
    eng.set_active_track(0);
    assert_eq!(eng.active_track(), 0);
}

#[test]
fn plugins_fill_up_and_come_out() {
    let mut eng = Engine::new();
    assert!(!eng.add_plugin(0, Plugin::new(Tag::Lpf)));
    eng.add_track(Track::new(&[]));
    for i in 0..MAX_PLUGINS {
        let tag = if i % 2 == 0 { Tag::Lpf } else { Tag::Delay };
        assert!(eng.add_plugin(0, Plugin::new(tag)));
    }
    assert!(!eng.add_plugin(0, Plugin::new(Tag::Lpf)));
    assert_eq!(eng.track(0).plugins.len(), MAX_PLUGINS);
    assert!(eng.remove_plugin(0, 0));
    assert_eq!(eng.track(0).plugins[0].tag(), Tag::Delay);
    assert!(!eng.remove_plugin(0, MAX_PLUGINS));
    assert!(!eng.remove_plugin(1, 0));
    assert_eq!(eng.track(0).plugins.len(), MAX_PLUGINS - 1);
}

#[test]
fn toggle_play_twice_restores_transport() {
    let mut eng = Engine::new();
    eng.add_track(Track::new(&[]));
    eng.note_on(60);
    eng.toggle_play();
    assert!(eng.playing);
    assert_eq!(eng.track(0).synth.voice(0), NoteState::Off);
    eng.toggle_play();
    assert!(!eng.playing);
}

#[test]
fn recording_captures_a_played_note() {
    let mut eng = Engine::new();
    eng.add_track(Track::new(&[Note { start: 0, end: 5, note: 40 }]));
    eng.toggle_record();
    assert!(eng.playing);
    assert!(eng.recording);
    eng.set_playhead(100);
    eng.note_on(60);
    eng.set_playhead(250);
    eng.note_off(60);
    eng.toggle_record();
    assert!(!eng.playing);
    assert!(!eng.recording);
    let notes = &eng.track(0).notes;
    assert_eq!(notes.len(), 2);
    assert_eq!(notes[0], Note { start: 0, end: 5, note: 40 });
    assert_eq!(notes[1], Note { start: 100, end: 250, note: 60 });
}

#[test]
fn recording_goes_to_the_active_track() {
    let mut eng = Engine::new();
    eng.add_track(Track::new(&[]));
    eng.add_track(Track::new(&[]));
    eng.set_active_track(1);
    eng.toggle_play();
    eng.toggle_record();
    assert!(eng.recording && eng.playing);
    eng.set_playhead(7);
    eng.note_on(61);
    eng.set_playhead(9);
    eng.note_off(61);
    eng.toggle_record();
    assert_eq!(eng.track(0).notes.len(), 0);
    assert_eq!(eng.track(1).notes.len(), 1);
    assert_eq!(eng.track(1).notes[0], Note { start: 7, end: 9, note: 61 });
}

#[test]
fn stopping_playback_discards_the_take() {
    let mut eng = Engine::new();
    eng.add_track(Track::new(&[]));
    eng.toggle_record();
    eng.note_on(60);
    eng.set_playhead(50);
    eng.note_off(60);
    eng.toggle_play();
    assert!(!eng.playing);
    assert!(!eng.recording);
    eng.toggle_record();
    eng.toggle_record();
    assert_eq!(eng.track(0).notes.len(), 0);
}

#[test]
fn notes_played_while_not_recording_are_not_captured() {
    let mut eng = Engine::new();
    eng.add_track(Track::new(&[]));
    eng.toggle_play();
    eng.note_on(60);
    eng.note_off(60);
    eng.toggle_record();
    eng.toggle_record();
    assert_eq!(eng.track(0).notes.len(), 0);
}

#[test]
fn process_block_fires_sequenced_notes() {
    let mut eng = Engine::new();
    eng.add_track(Track::new(&[Note { start: 10, end: 100, note: 60 }]));
    eng.process_block(64);
    assert_eq!(eng.playhead(), 0);
    assert_eq!(eng.track(0).synth.voice(0), NoteState::Off);
    eng.toggle_play();
    eng.process_block(64);
    assert_eq!(eng.playhead(), 64);
    assert_eq!(eng.track(0).synth.voice(0), NoteState::On(60));
    eng.process_block(64);
    assert_eq!(eng.playhead(), 128);
    assert_eq!(eng.track(0).synth.voice(0), NoteState::Off);
    assert_eq!(eng.track(0).notes.len(), 1);
}

#[test]
fn process_block_span_excludes_its_end() {
    let mut eng = Engine::new();
    eng.add_track(Track::new(&[Note { start: 64, end: 70, note: 50 }]));
    eng.toggle_play();
    eng.process_block(64);
    assert_eq!(eng.track(0).synth.voice(0), NoteState::Off);
    eng.process_block(4);
    assert_eq!(eng.track(0).synth.voice(0), NoteState::On(50));
}

#[test]
fn reset_rewinds_and_silences() {
    let mut eng = Engine::new();
    eng.add_track(Track::new(&[]));
    eng.set_playhead(999);
    eng.note_on(70);
    assert_eq!(eng.track(0).synth.voice(0), NoteState::On(70));
    eng.reset();
    assert_eq!(eng.playhead(), 0);
    assert_eq!(eng.track(0).synth.voice(0), NoteState::Off);
}

#[test]
fn track_mut_changes_one_track() {
    let mut eng = Engine::new();
    eng.add_track(Track::new(&[]));
    eng.add_track(Track::new(&[]));
    eng.track_mut(1).notes.push(Note { start: 1, end: 2, note: 3 });
    assert_eq!(eng.track(1).notes.len(), 1);
    assert_eq!(eng.track(0).notes.len(), 0);
    assert_eq!(eng.tracks().len(), 2);
}

#[test]
fn recording_only_runs_while_playing() {
    let mut eng = Engine::new();
    eng.add_track(Track::new(&[]));
    let check = |e: &Engine| assert!(!e.is_recording() || e.is_playing());
    check(&eng);
    eng.toggle_record();
    check(&eng);
    eng.toggle_play();
    check(&eng);
    eng.toggle_play();
    eng.toggle_record();
    check(&eng);
    eng.toggle_record();
    check(&eng);
    assert!(!eng.is_recording() && !eng.is_playing());
}

#[test]
fn add_track_accepts_a_long_chain() {
    let mut eng = Engine::new();
    let mut t = Track::new(&[]);
    for _ in 0..MAX_PLUGINS + 3 {
        t.plugins.push(Plugin::new(Tag::Lpf));
    }
    assert!(eng.add_track(t));
    assert_eq!(eng.track(0).plugins.len(), MAX_PLUGINS + 3);
    assert!(!eng.add_plugin(0, Plugin::new(Tag::Delay)));
}
