use ledaw::engine::{Engine, Track, MAX_TRACKS};
use ledaw::input::{Event, EventType, Key};
use ledaw::plugin::Tag;
use ledaw::synth::NoteState;
use ledaw::ui::{App, Mode, TimelineScreen, TrackScreen, ViewChange};

fn press(key: Key) -> Event {
    Event { ty: EventType::KeyPress, key }
}

fn release(key: Key) -> Event {
    Event { ty: EventType::KeyRelease, key }
}

fn setup() -> (App, Engine) {
    let mut eng = Engine::new();
    eng.add_track(Track::new(&[]));
    let app = App::new(&eng);
    (app, eng)
}

#[test]
fn insert_mode_plays_and_releases_notes() {
    let (mut app, mut eng) = setup();
    assert_eq!(app.mode(), Mode::Normal);
    app.handle_event(press(Key::A), &mut eng);
    assert_eq!(eng.track(0).synth.voice(0), NoteState::Off);
    app.handle_event(press(Key::I), &mut eng);
    assert_eq!(app.mode(), Mode::Insert);
    app.handle_event(press(Key::A), &mut eng);
    assert_eq!(eng.track(0).synth.voice(0), NoteState::On(48));
    app.handle_event(release(Key::A), &mut eng);
    assert_eq!(eng.track(0).synth.voice(0), NoteState::Off);
}

#[test]
fn transposition_clamps_at_four_octaves() {
    let (mut app, mut eng) = setup();
    app.handle_event(press(Key::I), &mut eng);
    for _ in 0..6 {
        app.handle_event(press(Key::Z), &mut eng);
    }
    assert_eq!(app.note_offset(), -48);
    app.handle_event(press(Key::K), &mut eng);
    assert_eq!(eng.track(0).synth.voice(0), NoteState::On(12));
    for _ in 0..9 {
        app.handle_event(press(Key::X), &mut eng);
    }
    assert_eq!(app.note_offset(), 48);
    app.handle_event(release(Key::K), &mut eng);
    assert_eq!(eng.track(0).synth.voice(0), NoteState::Off);
}

#[test]
fn escape_releases_held_notes() {
    let (mut app, mut eng) = setup();
    app.handle_event(press(Key::I), &mut eng);
    app.handle_event(press(Key::A), &mut eng);
    app.handle_event(press(Key::S), &mut eng);
    assert_eq!(eng.track(0).synth.voice(1), NoteState::On(50));
    app.handle_event(press(Key::Escape), &mut eng);
    assert_eq!(app.mode(), Mode::Normal);
    assert_eq!(eng.track(0).synth.voice(0), NoteState::Off);
    assert_eq!(eng.track(0).synth.voice(1), NoteState::Off);
}

#[test]
fn normal_mode_ignores_releases_and_drives_transport() {
    let (mut app, mut eng) = setup();
    app.handle_event(release(Key::Space), &mut eng);
    assert!(!eng.playing);
    app.handle_event(press(Key::Space), &mut eng);
    assert!(eng.playing);
    app.handle_event(press(Key::R), &mut eng);
    assert!(eng.recording);
    app.handle_event(press(Key::R), &mut eng);
    assert!(!eng.recording && !eng.playing);
    eng.set_playhead(500);
    app.handle_event(press(Key::Backspace), &mut eng);
    assert_eq!(eng.playhead(), 0);
}

#[test]
fn view_changes_are_handed_back() {
    let (mut app, mut eng) = setup();
    assert_eq!(app.handle_event(press(Key::H), &mut eng), ViewChange::CursorBack);
    assert_eq!(app.handle_event(press(Key::L), &mut eng), ViewChange::CursorForward);
    assert_eq!(app.handle_event(press(Key::RightBracket), &mut eng), ViewChange::ZoomIn);
    assert_eq!(app.handle_event(press(Key::LeftBracket), &mut eng), ViewChange::ZoomOut);
    assert_eq!(app.handle_event(press(Key::Space), &mut eng), ViewChange::Nothing);
}

#[test]
fn tracks_are_added_selected_and_removed() {
    let (mut app, mut eng) = setup();
    for _ in 0..MAX_TRACKS + 2 {
        app.handle_event(press(Key::Equal), &mut eng);
    }
    assert_eq!(eng.track_count(), MAX_TRACKS);
    app.handle_event(press(Key::J), &mut eng);
    app.handle_event(press(Key::J), &mut eng);
    assert_eq!(eng.active_track(), 2);
    app.handle_event(press(Key::K), &mut eng);
    assert_eq!(eng.active_track(), 1);
    for _ in 0..MAX_TRACKS + 2 {
        app.handle_event(press(Key::Minus), &mut eng);
    }
    assert_eq!(eng.track_count(), 1);
    assert_eq!(eng.active_track(), 0);
}

#[test]
fn plugins_are_added_from_the_selector() {
    let (mut app, mut eng) = setup();
    app.handle_event(press(Key::E), &mut eng);
    assert_eq!(app.screen(), TimelineScreen::MidiEditor);
    app.handle_event(press(Key::Backspace), &mut eng);
    assert_eq!(app.screen(), TimelineScreen::Overview);
    app.handle_event(press(Key::Enter), &mut eng);
    assert_eq!(app.screen(), TimelineScreen::Track);
    app.handle_event(press(Key::Enter), &mut eng);
    assert_eq!(app.track_ui(0).screen, TrackScreen::Overview);
    app.handle_event(press(Key::A), &mut eng);
    assert_eq!(app.track_ui(0).screen, TrackScreen::PluginSelector);
    app.handle_event(press(Key::J), &mut eng);
    app.handle_event(press(Key::J), &mut eng);
    assert_eq!(app.track_ui(0).selector_index, 1);
    app.handle_event(press(Key::Enter), &mut eng);
    assert_eq!(eng.track(0).plugins.len(), 1);
    assert_eq!(eng.track(0).plugins[0].tag(), Tag::Delay);
    assert_eq!(app.track_ui(0).screen, TrackScreen::Overview);
    app.handle_event(press(Key::A), &mut eng);
    app.handle_event(press(Key::K), &mut eng);
    app.handle_event(press(Key::Enter), &mut eng);
    assert_eq!(eng.track(0).plugins[1].tag(), Tag::Lpf);
    app.handle_event(press(Key::L), &mut eng);
    app.handle_event(press(Key::L), &mut eng);
    assert_eq!(app.track_ui(0).active_plugin, 1);
    app.handle_event(press(Key::H), &mut eng);
    assert_eq!(app.track_ui(0).active_plugin, 0);
    app.handle_event(press(Key::Enter), &mut eng);
    assert_eq!(app.track_ui(0).screen, TrackScreen::Plugin);
    app.handle_event(press(Key::One), &mut eng);
    assert_eq!(app.track_ui(0).screen, TrackScreen::Plugin);
    app.handle_event(press(Key::Backspace), &mut eng);
    assert_eq!(app.track_ui(0).screen, TrackScreen::Overview);
    app.handle_event(press(Key::Backspace), &mut eng);
    assert_eq!(app.screen(), TimelineScreen::Overview);
}

#[test]
fn an_app_over_an_empty_engine_handles_keys() {
    let mut eng = Engine::new();
    let mut app = App::new(&eng);
    app.handle_event(press(Key::I), &mut eng);
    app.handle_event(press(Key::Z), &mut eng);
    assert_eq!(app.note_offset(), -12);
    app.handle_event(press(Key::X), &mut eng);
    assert_eq!(app.note_offset(), 0);
    app.handle_event(release(Key::A), &mut eng);
    app.handle_event(press(Key::Escape), &mut eng);
    assert_eq!(app.mode(), Mode::Normal);
    app.handle_event(press(Key::Space), &mut eng);
    assert!(eng.is_playing());
    app.handle_event(press(Key::Space), &mut eng);
    assert!(!eng.is_playing());
    assert_eq!(eng.track_count(), 0);
    app.handle_event(press(Key::Equal), &mut eng);
    assert_eq!(eng.track_count(), 1);
    app.handle_event(press(Key::I), &mut eng);
    app.handle_event(press(Key::A), &mut eng);
    assert_eq!(eng.track(0).synth.voice(0), NoteState::On(48));
}
