//! Voice allocation of the polyphonic synth: which of its voices plays
//! which note. A note goes to the first silent voice; when every voice is
//! busy, voices are stolen round-robin.

use vstd::prelude::*;

verus! {

/// How many voices the synth has.
pub const NUM_VOICES: usize = 16;

/// What one voice is doing.
#[derive(Clone, Copy, Debug, PartialEq, Eq, Structural)]
pub enum NoteState {
    Off,
    On(u8),
}

/// The voice allocation seen as values: each voice's state, and the voice
/// that is stolen next when all are busy.
pub struct UniState {
    pub voices: Seq<NoteState>,
    pub next_idx: nat,
}

/// A voice's state after a note-off for `note`: it stops only if it plays
/// that note.
pub open spec fn voice_after_off(s: NoteState, note: u8) -> NoteState {
    if s == NoteState::On(note) {
        NoteState::Off
    } else {
        s
    }
}

/// Whether no voice before `i` is silent.
pub open spec fn none_off_before(voices: Seq<NoteState>, i: int) -> bool {
    forall|j: int| 0 <= j < i ==> #[trigger] voices[j] != NoteState::Off
}

/// The first silent voice, if any.
pub open spec fn first_off(voices: Seq<NoteState>) -> Option<int> {
    if exists|i: int| 0 <= i < voices.len() && voices[i] == NoteState::Off && none_off_before(voices, i) {
        Some(
            choose|i: int|
                0 <= i < voices.len() && voices[i] == NoteState::Off && none_off_before(voices, i),
        )
    } else {
        None
    }
}

impl UniState {
    /// The state after a note-on: the first silent voice takes the note;
    /// if there is none, the voice `next_idx` is stolen and `next_idx`
    /// moves on by one, wrapping around.
    pub open spec fn note_on(self, note: u8) -> UniState {
        match first_off(self.voices) {
            Some(i) => UniState { voices: self.voices.update(i, NoteState::On(note)), ..self },
            None => UniState {
                voices: self.voices.update(self.next_idx as int, NoteState::On(note)),
                next_idx: ((self.next_idx + 1) % self.voices.len()) as nat,
            },
        }
    }

    /// The state after a note-off: every voice playing `note` stops.
    pub open spec fn note_off(self, note: u8) -> UniState {
        UniState { voices: self.voices.map_values(|s: NoteState| voice_after_off(s, note)), ..self }
    }

    /// The state after all notes are released: every voice is silent.
    pub open spec fn all_notes_off(self) -> UniState {
        UniState { voices: Seq::new(self.voices.len(), |i: int| NoteState::Off), ..self }
    }

    /// Some voice plays `note`.
    pub open spec fn is_sounding(self, note: u8) -> bool {
        exists|i: int| 0 <= i < self.voices.len() && self.voices[i] == NoteState::On(note)
    }

    /// The synth has its voices and the steal index points at one of them.
    pub open spec fn wf(self) -> bool {
        self.voices.len() == NUM_VOICES && self.next_idx < NUM_VOICES
    }
}

/// The polyphonic synth's voice allocator.
pub struct Uni {
    voices: [NoteState; NUM_VOICES],
    next_idx: usize,
}

impl View for Uni {
    type V = UniState;

    closed spec fn view(&self) -> UniState {
        UniState { voices: self.voices@, next_idx: self.next_idx as nat }
    }
}

pub proof fn lemma_first_off_is(voices: Seq<NoteState>, i: int)
    requires
        0 <= i < voices.len(),
        voices[i] == NoteState::Off,
        none_off_before(voices, i),
    ensures
        first_off(voices) == Some(i),
{
    let k = choose|k: int|
        0 <= k < voices.len() && voices[k] == NoteState::Off && none_off_before(voices, k);
    if k < i {
        assert(voices[k] != NoteState::Off);
    }
    if i < k {
        assert(voices[i] != NoteState::Off);
    }
}

pub proof fn lemma_first_off_none(voices: Seq<NoteState>)
    requires
        none_off_before(voices, voices.len() as int),
    ensures
        first_off(voices) is None,
{
    if exists|i: int| 0 <= i < voices.len() && voices[i] == NoteState::Off && none_off_before(voices, i) {
        let k = choose|k: int|
            0 <= k < voices.len() && voices[k] == NoteState::Off && none_off_before(voices, k);
        assert(voices[k] != NoteState::Off);
    }
}

impl Uni {
    /// A synth with all voices silent.
    pub fn new() -> (u: Self)
        ensures
            u@.wf(),
            u@.voices == Seq::new(NUM_VOICES as nat, |i: int| NoteState::Off),
            u@.next_idx == 0,
    {
        let voices = [NoteState::Off; NUM_VOICES];
        assert(voices@ =~= Seq::new(NUM_VOICES as nat, |k: int| NoteState::Off));
        Uni { voices, next_idx: 0 }
    }

    /// What voice `i` is doing.
    pub fn voice(&self, i: usize) -> (s: NoteState)
        requires
            i < self@.voices.len(),
        ensures
            s == self@.voices[i as int],
    {
        self.voices[i]
    }

    /// Every synth has its `NUM_VOICES` voices and a steal index among them.
    #[verifier::type_invariant]
    pub closed spec fn inv(self) -> bool {
        self.voices@.len() == NUM_VOICES && self.next_idx < NUM_VOICES
    }

    /// The type invariant of a synth makes its view well formed.
    pub proof fn lemma_inv_wf(u: Uni)
        requires
            u.inv(),
        ensures
            u@.wf(),
    {
    }

    /// How many voices there are; a synth is always well formed.
    pub fn voice_count(&self) -> (n: usize)
        ensures
            n == self@.voices.len(),
            self@.wf(),
    {
        proof {
            use_type_invariant(self);
        }
        NUM_VOICES
    }

    /// Starts `note` on the first silent voice, or steals a voice
    /// round-robin when none is silent.
    pub fn note_on(&mut self, note: u8)
        ensures
            final(self)@ == old(self)@.note_on(note),
            final(self)@.wf(),
            final(self)@.is_sounding(note),
    {
        proof {
            use_type_invariant(&*self);
        }
        let mut i: usize = 0;
        while i < NUM_VOICES
            invariant
                self@ == old(self)@,
                self@.wf(),
                i <= self.voices@.len(),
                none_off_before(self.voices@, i as int),
            decreases self.voices@.len() - i,
        {
            if self.voices[i] == NoteState::Off {
                proof {
                    lemma_first_off_is(self.voices@, i as int);
                }
                self.voices[i] = NoteState::On(note);
                assert(self.voices@[i as int] == NoteState::On(note));
                return;
            }
            i += 1;
        }
        proof {
            lemma_first_off_none(self.voices@);
        }
        let idx = self.next_idx;
        self.next_idx = (self.next_idx + 1) % NUM_VOICES;
        self.voices[idx] = NoteState::On(note);
        assert(self.voices@[idx as int] == NoteState::On(note));
    }

    /// Releases `note` on every voice that plays it.
    pub fn note_off(&mut self, note: u8)
        ensures
            final(self)@ == old(self)@.note_off(note),
            final(self)@.wf(),
            !final(self)@.is_sounding(note),
    {
        proof {
            use_type_invariant(&*self);
        }
        let ghost orig = self.voices@;
        let mut i: usize = 0;
        while i < NUM_VOICES
            invariant
                self.voices@.len() == orig.len(),
                self.next_idx == old(self).next_idx,
                self.next_idx < NUM_VOICES,
                orig == old(self)@.voices,
                i <= orig.len(),
                forall|k: int| 0 <= k < i ==> #[trigger] self.voices@[k] == voice_after_off(orig[k], note),
                forall|k: int| i <= k < orig.len() ==> #[trigger] self.voices@[k] == orig[k],
            decreases orig.len() - i,
        {
            if self.voices[i] == NoteState::On(note) {
                self.voices[i] = NoteState::Off;
            }
            i += 1;
        }
        assert(self.voices@ =~= orig.map_values(|s: NoteState| voice_after_off(s, note)));
    }

    /// Releases every note.
    pub fn all_notes_off(&mut self)
        ensures
            final(self)@ == old(self)@.all_notes_off(),
            final(self)@.wf(),
    {
        proof {
            use_type_invariant(&*self);
        }
        let ghost orig = self.voices@;
        let mut i: usize = 0;
        while i < NUM_VOICES
            invariant
                self.voices@.len() == orig.len(),
                self.next_idx == old(self).next_idx,
                self.next_idx < NUM_VOICES,
                orig == old(self)@.voices,
                i <= orig.len(),
                forall|k: int| 0 <= k < i ==> #[trigger] self.voices@[k] == NoteState::Off,
            decreases orig.len() - i,
        {
            if let NoteState::On(n) = self.voices[i] {
                self.voices[i] = voice_after_off_exec(self.voices[i], n);
            }
            i += 1;
        }
        assert(self.voices@ =~= Seq::new(orig.len(), |k: int| NoteState::Off));
    }
}

/// A voice's state after a note-off for `note`.
fn voice_after_off_exec(s: NoteState, note: u8) -> (r: NoteState)
    ensures
        r == voice_after_off(s, note),
{
    if s == NoteState::On(note) {
        NoteState::Off
    } else {
        s
    }
}

impl Default for Uni {
    fn default() -> (u: Self)
        ensures
            u@.wf(),
            u@.voices == Seq::new(NUM_VOICES as nat, |i: int| NoteState::Off),
            u@.next_idx == 0,
    {
        Self::new()
    }
}

/// A note that was started and then released is no longer heard, and
/// releasing a note leaves every other note's voices as they were.
pub proof fn lemma_note_on_then_off(s: UniState, note: u8, other: u8)
    requires
        s.wf(),
    ensures
        s.note_on(note).is_sounding(note),
        !s.note_on(note).note_off(note).is_sounding(note),
        !s.note_off(note).is_sounding(note),
        other != note ==> s.note_off(note).is_sounding(other) == s.is_sounding(other),
        s.note_on(note).note_off(note).wf(),
{
    let t = s.note_on(note);
    match first_off(s.voices) {
        Some(i) => {
            let k = choose|k: int|
                0 <= k < s.voices.len() && s.voices[k] == NoteState::Off && none_off_before(s.voices, k);
            assert(t.voices[i] == NoteState::On(note));
        },
        None => {
            assert(t.voices[s.next_idx as int] == NoteState::On(note));
        },
    }
    if other != note && s.is_sounding(other) {
        let i = choose|i: int| 0 <= i < s.voices.len() && s.voices[i] == NoteState::On(other);
        assert(s.note_off(note).voices[i] == NoteState::On(other));
    }
    if other != note && s.note_off(note).is_sounding(other) {
        let i = choose|i: int|
            0 <= i < s.voices.len() && s.note_off(note).voices[i] == NoteState::On(other);
        assert(s.voices[i] == NoteState::On(other));
    }
}

/// Releasing all notes silences every note, and keeps the steal index.
pub proof fn lemma_all_notes_off_silences(s: UniState, note: u8)
    ensures
        !s.all_notes_off().is_sounding(note),
        s.all_notes_off().next_idx == s.next_idx,
{
}

/// Note-on, note-off and releasing all notes keep the allocator well formed.
pub proof fn lemma_note_on_off_wf(s: UniState)
    requires
        s.wf(),
    ensures
        forall|n: u8| #[trigger] s.note_on(n).wf(),
        forall|n: u8| #[trigger] s.note_off(n).wf(),
        s.all_notes_off().wf(),
{
    assert forall|n: u8| #[trigger] s.note_on(n).wf() by {
        match first_off(s.voices) {
            Some(i) => {
                let k = choose|k: int|
                    0 <= k < s.voices.len() && s.voices[k] == NoteState::Off && none_off_before(s.voices, k);
            },
            None => {},
        }
    }
}

} // verus!
