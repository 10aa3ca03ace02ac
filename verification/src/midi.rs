//! Notes on the timeline, note messages, and the note player that turns a
//! span of frames into the note-on / note-off messages that fall inside it.

use vstd::prelude::*;

use crate::input::Key;

verus! {

/// A position on the timeline, in audio frames.
pub type Frame = u64;

/// How many note messages one block can carry.
pub const MAX_NOTES_PER_BLOCK: usize = 1024;

/// A note that sounds from `start` up to `end` (frames).
#[derive(Clone, Copy, Debug, PartialEq, Eq, Structural)]
pub struct Note {
    pub start: Frame,
    pub end: Frame,
    pub note: u8,
}

/// A message for an instrument: start or stop a MIDI note.
#[derive(Clone, Copy, Debug, PartialEq, Eq, Structural)]
pub enum NoteMsg {
    On(u8),
    Off(u8),
}

/// The messages that one note contributes to the span `[start, end)`:
/// its note-on when its start lies in the span, then its note-off when
/// its end lies in the span.
pub open spec fn note_events(n: Note, start: int, end: int) -> Seq<NoteMsg> {
    (if start <= n.start && n.start < end {
        seq![NoteMsg::On(n.note)]
    } else {
        Seq::<NoteMsg>::empty()
    }) + (if start <= n.end && n.end < end {
        seq![NoteMsg::Off(n.note)]
    } else {
        Seq::<NoteMsg>::empty()
    })
}

/// All messages of `notes` in the span `[start, end)`, note by note in order.
pub open spec fn block_events(notes: Seq<Note>, start: int, end: int) -> Seq<NoteMsg>
    decreases notes.len(),
{
    if notes.len() == 0 {
        Seq::<NoteMsg>::empty()
    } else {
        block_events(notes.drop_last(), start, end) + note_events(notes.last(), start, end)
    }
}

/// How many messages a buffer of `cap` slots receives for the span.
pub open spec fn emitted_count(notes: Seq<Note>, start: int, end: int, cap: int) -> int {
    let total = block_events(notes, start, end).len() as int;
    if total < cap {
        total
    } else {
        cap
    }
}

proof fn lemma_block_events_step(notes: Seq<Note>, i: int, start: int, end: int)
    requires
        0 <= i < notes.len(),
    ensures
        block_events(notes.take(i + 1), start, end) == block_events(notes.take(i), start, end)
            + note_events(notes[i], start, end),
{
    assert(notes.take(i + 1).drop_last() =~= notes.take(i));
}

/// Writes the messages of `notes` for the span `[start, end)` into `out`,
/// stopping when `out` is full; returns how many were written.
pub fn fill_block_events(notes: &[Note], start: Frame, end: Frame, out: &mut [NoteMsg]) -> (count:
    usize)
    ensures
        count == emitted_count(notes@, start as int, end as int, old(out)@.len() as int),
        final(out)@.len() == old(out)@.len(),
        final(out)@ == block_events(notes@, start as int, end as int).take(count as int)
            + old(out)@.skip(count as int),
{
    let mut count: usize = 0;
    let mut i: usize = 0;
    let ghost orig = out@;
    assert(notes@.take(0) =~= Seq::<Note>::empty());
    assert(orig.skip(0) =~= orig);
    while i < notes.len()
        invariant
            i <= notes@.len(),
            out@.len() == orig.len(),
            count == emitted_count(notes@.take(i as int), start as int, end as int, orig.len() as int),
            out@ == block_events(notes@.take(i as int), start as int, end as int).take(count as int)
                + orig.skip(count as int),
        decreases notes@.len() - i,
    {
        let n = notes[i];
        let ghost before = block_events(notes@.take(i as int), start as int, end as int);
        proof {
            lemma_block_events_step(notes@, i as int, start as int, end as int);
        }
        let ghost mid_count = count;
        if start <= n.start && n.start < end && count < out.len() {
            out[count] = NoteMsg::On(n.note);
            count += 1;
        }
        let ghost mid = before + (if start <= n.start && n.start < end {
            seq![NoteMsg::On(n.note)]
        } else {
            Seq::<NoteMsg>::empty()
        });
        assert(out@ =~= mid.take(count as int) + orig.skip(count as int)) by {
            if count > mid_count {
                assert(mid_count == before.len());
            }
        }
        let ghost mid_count2 = count;
        if start <= n.end && n.end < end && count < out.len() {
            out[count] = NoteMsg::Off(n.note);
            count += 1;
        }
        let ghost full = block_events(notes@.take(i + 1), start as int, end as int);
        assert(full =~= mid + (if start <= n.end && n.end < end {
            seq![NoteMsg::Off(n.note)]
        } else {
            Seq::<NoteMsg>::empty()
        }));
        assert(out@ =~= full.take(count as int) + orig.skip(count as int)) by {
            if count > mid_count2 {
                assert(mid_count2 == mid.len());
            }
        }
        i += 1;
    }
    assert(notes@.take(notes@.len() as int) =~= notes@);
    count
}

/// The MIDI note that a key of the QWERTY keyboard plays: the home row
/// A..' gives the white keys from C3 to F4, the row above the black keys.
pub open spec fn spec_key_to_midi(key: Key) -> Option<u8> {
    match key {
        Key::A => Some(48u8),
        Key::S => Some(50u8),
        Key::D => Some(52u8),
        Key::F => Some(53u8),
        Key::G => Some(55u8),
        Key::H => Some(57u8),
        Key::J => Some(59u8),
        Key::K => Some(60u8),
        Key::L => Some(62u8),
        Key::Semicolon => Some(64u8),
        Key::Apostrophe => Some(65u8),
        Key::W => Some(49u8),
        Key::E => Some(51u8),
        Key::T => Some(54u8),
        Key::Y => Some(56u8),
        Key::U => Some(58u8),
        Key::O => Some(61u8),
        Key::P => Some(63u8),
        _ => None,
    }
}

/// QWERTY key to MIDI note (one octave and a fourth, with the black keys).
pub fn key_to_midi(key: Key) -> (r: Option<u8>)
    ensures
        r == spec_key_to_midi(key),
{
    match key {
        Key::A => Some(48),
        Key::S => Some(50),
        Key::D => Some(52),
        Key::F => Some(53),
        Key::G => Some(55),
        Key::H => Some(57),
        Key::J => Some(59),
        Key::K => Some(60),
        Key::L => Some(62),
        Key::Semicolon => Some(64),
        Key::Apostrophe => Some(65),
        Key::W => Some(49),
        Key::E => Some(51),
        Key::T => Some(54),
        Key::Y => Some(56),
        Key::U => Some(58),
        Key::O => Some(61),
        Key::P => Some(63),
        _ => None,
    }
}

/// Two different keys never play the same note, and every note played lies
/// between C3 (48) and F4 (65).
pub proof fn lemma_key_to_midi_distinct(a: Key, b: Key)
    ensures
        spec_key_to_midi(a) is Some ==> 48 <= spec_key_to_midi(a)->0 <= 65,
        spec_key_to_midi(a) is Some && spec_key_to_midi(a) == spec_key_to_midi(b) ==> a == b,
{
}

/// Whether a MIDI note is a white key of the piano (C, D, E, F, G, A, B).
pub open spec fn is_white(n: int) -> bool {
    let pc = n % 12;
    pc == 0 || pc == 2 || pc == 4 || pc == 5 || pc == 7 || pc == 9 || pc == 11
}

/// The note of a key that plays one, as an integer.
pub open spec fn key_note(k: Key) -> int {
    spec_key_to_midi(k)->0 as int
}

/// The keyboard is laid out like a piano: the home row `A S D F G H J K L ;
/// '` plays white keys only, starting at C3 (48) and rising step by step to
/// the next white key each time; each key of the row above (`W E T Y U O P`)
/// plays a black key, one semitone above the home-row key below and to its
/// left.
pub proof fn lemma_keyboard_layout()
    ensures
        key_note(Key::A) == 48,
        ({
            let row = seq![
                Key::A, Key::S, Key::D, Key::F, Key::G, Key::H, Key::J, Key::K, Key::L,
                Key::Semicolon, Key::Apostrophe,
            ];
            &&& forall|i: int| 0 <= i < row.len() ==> spec_key_to_midi(#[trigger] row[i]) is Some
                && is_white(key_note(row[i]))
            &&& forall|i: int|
                0 <= i < row.len() - 1 ==> key_note(#[trigger] row[i]) < key_note(row[i + 1])
                    && forall|m: int| key_note(row[i]) < m < key_note(row[i + 1]) ==> !is_white(m)
        }),
        ({
            let upper = seq![Key::W, Key::E, Key::T, Key::Y, Key::U, Key::O, Key::P];
            let lower = seq![Key::A, Key::S, Key::F, Key::G, Key::H, Key::K, Key::L];
            forall|i: int|
                0 <= i < upper.len() ==> spec_key_to_midi(#[trigger] upper[i]) is Some && key_note(upper[i])
                    == key_note(lower[i]) + 1 && !is_white(key_note(upper[i]))
        }),
{
    let row = seq![
        Key::A, Key::S, Key::D, Key::F, Key::G, Key::H, Key::J, Key::K, Key::L,
        Key::Semicolon, Key::Apostrophe,
    ];
    assert(row[0] == Key::A && row[1] == Key::S && row[2] == Key::D && row[3] == Key::F && row[4]
        == Key::G && row[5] == Key::H && row[6] == Key::J && row[7] == Key::K && row[8] == Key::L
        && row[9] == Key::Semicolon && row[10] == Key::Apostrophe);
    let upper = seq![Key::W, Key::E, Key::T, Key::Y, Key::U, Key::O, Key::P];
    let lower = seq![Key::A, Key::S, Key::F, Key::G, Key::H, Key::K, Key::L];
    assert(upper[0] == Key::W && upper[1] == Key::E && upper[2] == Key::T && upper[3] == Key::Y
        && upper[4] == Key::U && upper[5] == Key::O && upper[6] == Key::P);
    assert(lower[0] == Key::A && lower[1] == Key::S && lower[2] == Key::F && lower[3] == Key::G
        && lower[4] == Key::H && lower[5] == Key::K && lower[6] == Key::L);
}

/// At most two messages per note.
pub proof fn lemma_block_events_len(notes: Seq<Note>, start: int, end: int)
    ensures
        block_events(notes, start, end).len() <= 2 * notes.len(),
    decreases notes.len(),
{
    if notes.len() > 0 {
        lemma_block_events_len(notes.drop_last(), start, end);
    }
}

proof fn lemma_note_events_split(n: Note, a: int, b: int, c: int)
    requires
        a <= b <= c,
    ensures
        note_events(n, a, c).len() == note_events(n, a, b).len() + note_events(n, b, c).len(),
        note_events(n, a, c).to_multiset() =~= note_events(n, a, b).to_multiset().add(
            note_events(n, b, c).to_multiset(),
        ),
{
    broadcast use vstd::seq_lib::group_to_multiset_ensures;
    broadcast use vstd::multiset::group_multiset_axioms;

    let on = |s: int, e: int|
        if s <= n.start && n.start < e {
            seq![NoteMsg::On(n.note)]
        } else {
            Seq::<NoteMsg>::empty()
        };
    let off = |s: int, e: int|
        if s <= n.end && n.end < e {
            seq![NoteMsg::Off(n.note)]
        } else {
            Seq::<NoteMsg>::empty()
        };
    let empty = Seq::<NoteMsg>::empty();
    assert(empty.to_multiset() =~= vstd::multiset::Multiset::<NoteMsg>::empty()) by {
        assert forall|m: NoteMsg| empty.to_multiset().count(m) == 0 by {
            assert(!empty.contains(m));
        }
    }
    assert(seq![NoteMsg::On(n.note)] =~= empty.push(NoteMsg::On(n.note)));
    assert(seq![NoteMsg::Off(n.note)] =~= empty.push(NoteMsg::Off(n.note)));
    vstd::seq_lib::lemma_multiset_commutative(on(a, c), off(a, c));
    vstd::seq_lib::lemma_multiset_commutative(on(a, b), off(a, b));
    vstd::seq_lib::lemma_multiset_commutative(on(b, c), off(b, c));
    assert(note_events(n, a, c) == on(a, c) + off(a, c));
    assert(note_events(n, a, b) == on(a, b) + off(a, b));
    assert(note_events(n, b, c) == on(b, c) + off(b, c));
    assert(on(a, c).to_multiset() =~= on(a, b).to_multiset().add(on(b, c).to_multiset()));
    assert(off(a, c).to_multiset() =~= off(a, b).to_multiset().add(off(b, c).to_multiset()));
}

/// Splitting a span at `b` neither drops nor repeats a message: the
/// messages of `[a, c)` are those of `[a, b)` and of `[b, c)` together
/// (as a multiset, and in number).
pub proof fn lemma_block_events_split(notes: Seq<Note>, a: int, b: int, c: int)
    requires
        a <= b <= c,
    ensures
        block_events(notes, a, c).len() == block_events(notes, a, b).len() + block_events(
            notes,
            b,
            c,
        ).len(),
        block_events(notes, a, c).to_multiset() =~= block_events(notes, a, b).to_multiset().add(
            block_events(notes, b, c).to_multiset(),
        ),
    decreases notes.len(),
{
    broadcast use vstd::multiset::group_multiset_axioms;

    if notes.len() == 0 {
        broadcast use vstd::seq_lib::group_to_multiset_ensures;

        let empty = Seq::<NoteMsg>::empty();
        assert forall|m: NoteMsg| empty.to_multiset().count(m) == 0 by {
            assert(!empty.contains(m));
        }
    } else {
        let prev = notes.drop_last();
        let last = notes.last();
        lemma_block_events_split(prev, a, b, c);
        lemma_note_events_split(last, a, b, c);
        vstd::seq_lib::lemma_multiset_commutative(block_events(prev, a, c), note_events(last, a, c));
        vstd::seq_lib::lemma_multiset_commutative(block_events(prev, a, b), note_events(last, a, b));
        vstd::seq_lib::lemma_multiset_commutative(block_events(prev, b, c), note_events(last, b, c));
    }
}

/// With room for two messages per note, advancing over `[a, c)` emits as
/// many messages as advancing over `[a, b)` and then over `[b, c)`.
pub proof fn lemma_advance_split(notes: Seq<Note>, a: int, b: int, c: int, cap: int)
    requires
        a <= b <= c,
        cap >= 2 * notes.len(),
    ensures
        emitted_count(notes, a, c, cap) == emitted_count(notes, a, b, cap) + emitted_count(notes, b, c, cap),
        emitted_count(notes, a, c, cap) == block_events(notes, a, c).len(),
{
    lemma_block_events_split(notes, a, b, c);
    lemma_block_events_len(notes, a, c);
    lemma_block_events_len(notes, a, b);
    lemma_block_events_len(notes, b, c);
}

/// Plays a fixed list of notes.
pub struct Player {
    pub notes: Vec<Note>,
}

impl Player {
    /// A player over a copy of `notes_in`.
    pub fn new(notes_in: &[Note]) -> (p: Self)
        ensures
            p.notes@ == notes_in@,
    {
        let mut notes: Vec<Note> = Vec::new();
        let mut i: usize = 0;
        while i < notes_in.len()
            invariant
                i <= notes_in@.len(),
                notes@ == notes_in@.take(i as int),
            decreases notes_in@.len() - i,
        {
            notes.push(notes_in[i]);
            i += 1;
            assert(notes@ =~= notes_in@.take(i as int));
        }
        assert(notes_in@.take(notes_in@.len() as int) =~= notes_in@);
        Player { notes }
    }

    /// Forgets every note.
    pub fn clear(&mut self)
        ensures
            final(self).notes@ == Seq::<Note>::empty(),
    {
        self.notes.clear();
    }

    /// Adds `new_notes` after the notes already held.
    pub fn append_notes(&mut self, new_notes: &[Note])
        ensures
            final(self).notes@ == old(self).notes@ + new_notes@,
    {
        let ghost orig = self.notes@;
        let mut i: usize = 0;
        while i < new_notes.len()
            invariant
                i <= new_notes@.len(),
                self.notes@ == orig + new_notes@.take(i as int),
            decreases new_notes@.len() - i,
        {
            self.notes.push(new_notes[i]);
            i += 1;
            assert(self.notes@ =~= orig + new_notes@.take(i as int));
        }
        assert(new_notes@.take(new_notes@.len() as int) =~= new_notes@);
    }

    /// Emits the note-on / note-off messages whose boundary falls in
    /// `[start, end)` into `out`, as many as fit; returns their number.
    pub fn advance(&self, start: Frame, end: Frame, out: &mut [NoteMsg]) -> (count: usize)
        requires
            start <= end,
            end - start < 8192,
        ensures
            count == emitted_count(self.notes@, start as int, end as int, old(out)@.len() as int),
            final(out)@ == block_events(self.notes@, start as int, end as int).take(count as int)
                + old(out)@.skip(count as int),
    {
        fill_block_events(self.notes.as_slice(), start, end, out)
    }
}

} // verus!
