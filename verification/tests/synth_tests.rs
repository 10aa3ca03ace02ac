use ledaw::plugin::{Action, Plugin, Tag, LIST};
use ledaw::input::{Event, EventType, Key};
use ledaw::synth::{NoteState, Uni, NUM_VOICES};

#[test]
fn notes_take_the_first_silent_voice() {
    let mut u = Uni::new();
    assert_eq!(u.voice_count(), NUM_VOICES);
    u.note_on(60);
    u.note_on(62);
    assert_eq!(u.voice(0), NoteState::On(60));
    assert_eq!(u.voice(1), NoteState::On(62));
    u.note_off(60);
    assert_eq!(u.voice(0), NoteState::Off);
    u.note_on(64);
    assert_eq!(u.voice(0), NoteState::On(64));
    assert_eq!(u.voice(1), NoteState::On(62));
}

#[test]
fn full_synth_steals_round_robin() {
    let mut u = Uni::default();
    for n in 0..NUM_VOICES as u8 {
        u.note_on(n);
    }
    u.note_on(100);
    assert_eq!(u.voice(0), NoteState::On(100));
    u.note_on(101);
    assert_eq!(u.voice(1), NoteState::On(101));
    assert_eq!(u.voice(2), NoteState::On(2));
}

#[test]
fn note_off_releases_every_voice_of_the_note() {
    let mut u = Uni::new();
    u.note_on(60);
    u.note_on(60);
    u.note_on(61);
    u.note_off(60);
    assert_eq!(u.voice(0), NoteState::Off);
    assert_eq!(u.voice(1), NoteState::Off);
    assert_eq!(u.voice(2), NoteState::On(61));
    u.all_notes_off();
    for i in 0..NUM_VOICES {
        assert_eq!(u.voice(i), NoteState::Off);
    }
}

#[test]
fn plugin_kinds_and_names() {
    assert_eq!(Tag::Lpf.name(), "lpf");
    assert_eq!(Tag::Delay.name(), "delay");
    assert_eq!(LIST, [Tag::Lpf, Tag::Delay]);
    assert_eq!(Plugin::new(Tag::Delay).tag(), Tag::Delay);
    assert_eq!(Plugin::new(Tag::Lpf), Plugin::Lpf);
}

#[test]
fn plugin_screen_goes_back_on_backspace() {
    let mut p = Plugin::new(Tag::Lpf);
    let back = Event { ty: EventType::KeyPress, key: Key::Backspace };
    let other = Event { ty: EventType::KeyPress, key: Key::One };
    assert_eq!(p.handle_event(back), Action::GoBack);
    assert_eq!(p.handle_event(other), Action::Nothing);
    assert_eq!(p, Plugin::Lpf);
}
