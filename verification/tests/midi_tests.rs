use ledaw::input::Key;
use ledaw::midi::{key_to_midi, Note, NoteMsg, Player};

#[test]
fn key_to_midi_maps_the_keyboard() {
    assert_eq!(key_to_midi(Key::A), Some(48));
    assert_eq!(key_to_midi(Key::W), Some(49));
    assert_eq!(key_to_midi(Key::K), Some(60));
    assert_eq!(key_to_midi(Key::P), Some(63));
    assert_eq!(key_to_midi(Key::Apostrophe), Some(65));
    assert_eq!(key_to_midi(Key::Z), None);
    assert_eq!(key_to_midi(Key::Enter), None);
}

#[test]
fn note_keys_play_distinct_notes_in_range() {
    let keys = [
        Key::A, Key::S, Key::D, Key::F, Key::G, Key::H, Key::J, Key::K, Key::L,
        Key::Semicolon, Key::Apostrophe, Key::W, Key::E, Key::T, Key::Y, Key::U, Key::O, Key::P,
    ];
    let mut seen = Vec::new();
    for k in keys {
        let n = key_to_midi(k).unwrap();
        assert!((48..=65).contains(&n));
        assert!(!seen.contains(&n));
        seen.push(n);
    }
    assert_eq!(seen.len(), 18);
}

#[test]
fn player_owns_and_appends_notes() {
    let a = [Note { start: 1, end: 2, note: 3 }];
    let b = [Note { start: 4, end: 5, note: 6 }, Note { start: 7, end: 8, note: 9 }];
    let mut p = Player::new(&a);
    assert_eq!(p.notes, a.to_vec());
    p.append_notes(&b);
    assert_eq!(p.notes.len(), 3);
    assert_eq!(p.notes[2], b[1]);
    p.clear();
    assert!(p.notes.is_empty());
}

#[test]
fn advance_emits_boundaries_in_span() {
    let p = Player::new(&[
        Note { start: 10, end: 100, note: 60 },
        Note { start: 50, end: 60, note: 62 },
        Note { start: 64, end: 80, note: 64 },
    ]);
    let mut out = [NoteMsg::On(0); 8];
    let n = p.advance(0, 64, &mut out);
    assert_eq!(n, 3);
    assert_eq!(out[0], NoteMsg::On(60));
    assert_eq!(out[1], NoteMsg::On(62));
    assert_eq!(out[2], NoteMsg::Off(62));
    assert_eq!(out[3], NoteMsg::On(0));
    let n = p.advance(64, 128, &mut out);
    assert_eq!(n, 3);
    assert_eq!(out[0], NoteMsg::Off(60));
    assert_eq!(out[1], NoteMsg::On(64));
    assert_eq!(out[2], NoteMsg::Off(64));
}

#[test]
fn advance_stops_when_out_is_full() {
    let p = Player::new(&[
        Note { start: 0, end: 1, note: 1 },
        Note { start: 2, end: 3, note: 2 },
    ]);
    let mut out = [NoteMsg::Off(0); 3];
    let n = p.advance(0, 10, &mut out);
    assert_eq!(n, 3);
    assert_eq!(out, [NoteMsg::On(1), NoteMsg::Off(1), NoteMsg::On(2)]);
    let mut none: [NoteMsg; 0] = [];
    assert_eq!(p.advance(0, 10, &mut none), 0);
}

#[test]
fn split_spans_emit_the_same_messages() {
    let p = Player::new(&[
        Note { start: 10, end: 100, note: 60 },
        Note { start: 64, end: 64, note: 61 },
        Note { start: 100, end: 150, note: 62 },
    ]);
    let mut whole = [NoteMsg::On(0); 6];
    let mut first = [NoteMsg::On(0); 6];
    let mut second = [NoteMsg::On(0); 6];
    let nw = p.advance(0, 128, &mut whole);
    let nf = p.advance(0, 64, &mut first);
    let ns = p.advance(64, 128, &mut second);
    assert_eq!(nw, nf + ns);
    let mut a: Vec<NoteMsg> = whole[..nw].to_vec();
    let mut b: Vec<NoteMsg> = first[..nf].iter().chain(second[..ns].iter()).copied().collect();
    let key = |m: &NoteMsg| match m {
        NoteMsg::On(n) => (0u8, *n),
        NoteMsg::Off(n) => (1u8, *n),
    };
    a.sort_by_key(key);
    b.sort_by_key(key);
    assert_eq!(a, b);
}
