//! The sampler: which of its voices plays which note, and the reader of the
//! 16-bit stereo PCM WAV file that it plays back.

use vstd::prelude::*;

use crate::input::{Event, Key};
use crate::plugin::Action;

verus! {

/// How many voices the sampler has.
pub const NUM_VOICES: usize = 8;

/// Why a WAV file cannot be read.
#[derive(Clone, Copy, Debug, PartialEq, Eq, Structural)]
pub enum WavError {
    /// The file ends inside its header or inside a format chunk.
    Truncated,
    /// The file does not start with `RIFF`.
    NotRiff,
    /// The RIFF form is not `WAVE`.
    NotWave,
    /// The format chunk's audio format is not 1 (integer PCM).
    NotPcm,
    /// The format chunk does not give 2 channels.
    NotStereo,
    /// The format chunk does not give 16 bits per sample.
    Not16Bit,
    /// There is no `data` chunk.
    MissingData,
    /// There is no `fmt ` chunk.
    MissingFormat,
}

/// A decoded WAV file: its sample rate, and for each stereo frame the sum
/// of its left and right samples.
pub struct WavData {
    pub sample_rate: u32,
    pub frames: Vec<i32>,
}

/// The little-endian 16-bit unsigned value at `i`.
pub open spec fn le16(b: Seq<u8>, i: int) -> int {
    b[i] + 256 * b[i + 1]
}

/// The little-endian 32-bit unsigned value at `i`.
pub open spec fn le32(b: Seq<u8>, i: int) -> int {
    b[i] + 256 * b[i + 1] + 65536 * b[i + 2] + 16777216 * b[i + 3]
}

/// A 16-bit two's complement value read as a signed integer.
pub open spec fn signed16(u: int) -> int {
    if u >= 32768 {
        u - 65536
    } else {
        u
    }
}

/// Whether the four bytes at `i` are `tag`.
pub open spec fn tag_at(b: Seq<u8>, i: int, tag: Seq<u8>) -> bool {
    b.subrange(i, i + 4) == tag
}

/// `RIFF`
pub open spec fn riff_tag() -> Seq<u8> {
    seq![0x52u8, 0x49u8, 0x46u8, 0x46u8]
}

/// `WAVE`
pub open spec fn wave_tag() -> Seq<u8> {
    seq![0x57u8, 0x41u8, 0x56u8, 0x45u8]
}

/// `fmt `
pub open spec fn fmt_tag() -> Seq<u8> {
    seq![0x66u8, 0x6du8, 0x74u8, 0x20u8]
}

/// `data`
pub open spec fn data_tag() -> Seq<u8> {
    seq![0x64u8, 0x61u8, 0x74u8, 0x61u8]
}

/// The stereo frames stored in bytes `start..end`, each as the sum of its
/// left and right sample; trailing bytes short of a frame are ignored.
pub open spec fn frames_of(b: Seq<u8>, start: int, end: int) -> Seq<i32> {
    Seq::new(
        ((end - start) / 4) as nat,
        |k: int| (signed16(le16(b, start + 4 * k)) + signed16(le16(b, start + 4 * k + 2))) as i32,
    )
}

/// The sample rate that a format chunk starting at `start` gives, or why
/// it is refused; its fields are checked in the order they are read.
pub open spec fn fmt_rate(b: Seq<u8>, start: int) -> Result<u32, WavError> {
    if start + 2 > b.len() {
        Err(WavError::Truncated)
    } else if le16(b, start) != 1 {
        Err(WavError::NotPcm)
    } else if start + 4 > b.len() {
        Err(WavError::Truncated)
    } else if le16(b, start + 2) != 2 {
        Err(WavError::NotStereo)
    } else if start + 16 > b.len() {
        Err(WavError::Truncated)
    } else if le16(b, start + 14) != 16 {
        Err(WavError::Not16Bit)
    } else {
        Ok(le32(b, start + 4) as u32)
    }
}

/// How far the chunk scan still has to go from `offset`.
pub open spec fn scan_measure(b: Seq<u8>, offset: int) -> int {
    if offset <= b.len() {
        b.len() - offset
    } else {
        0
    }
}

/// The chunk scan from `offset`, given the sample rate and frames found so
/// far: each chunk has a 4-byte id and a 4-byte length, and its body is
/// padded to an even length; the last `fmt ` and the last `data` chunk win;
/// a `data` chunk whose length runs past the file keeps the bytes there are.
pub open spec fn scan(b: Seq<u8>, offset: int, rate: Option<u32>, data: Option<Seq<i32>>) -> Result<
    (Option<u32>, Option<Seq<i32>>),
    WavError,
>
    decreases scan_measure(b, offset),
{
    if offset < 0 || offset + 8 > b.len() {
        Ok((rate, data))
    } else {
        let len = le32(b, offset + 4);
        let start = offset + 8;
        let end = if start + len < b.len() {
            start + len
        } else {
            b.len() as int
        };
        let next = start + len + len % 2;
        if tag_at(b, offset, fmt_tag()) {
            match fmt_rate(b, start) {
                Err(e) => Err(e),
                Ok(r) => scan(b, next, Some(r), data),
            }
        } else if tag_at(b, offset, data_tag()) {
            scan(b, next, rate, Some(frames_of(b, start, end)))
        } else {
            scan(b, next, rate, data)
        }
    }
}

/// What reading the WAV file `b` gives.
pub open spec fn spec_decode_wav(b: Seq<u8>) -> Result<(u32, Seq<i32>), WavError> {
    if b.len() < 4 {
        Err(WavError::Truncated)
    } else if !tag_at(b, 0, riff_tag()) {
        Err(WavError::NotRiff)
    } else if b.len() < 12 {
        Err(WavError::Truncated)
    } else if !tag_at(b, 8, wave_tag()) {
        Err(WavError::NotWave)
    } else {
        match scan(b, 12, None, None) {
            Err(e) => Err(e),
            Ok((rate, data)) => match data {
                None => Err(WavError::MissingData),
                Some(d) => match rate {
                    None => Err(WavError::MissingFormat),
                    Some(r) => Ok((r, d)),
                },
            },
        }
    }
}

fn read_le16(b: &[u8], i: usize) -> (r: u32)
    requires
        i + 2 <= b@.len(),
    ensures
        r == le16(b@, i as int),
{
    b[i] as u32 + 256 * (b[i + 1] as u32)
}

fn read_le32(b: &[u8], i: usize) -> (r: u32)
    requires
        i + 4 <= b@.len(),
    ensures
        r == le32(b@, i as int),
{
    b[i] as u32 + 256 * (b[i + 1] as u32) + 65536 * (b[i + 2] as u32) + 16777216 * (b[i + 3] as u32)
}

fn read_signed16(b: &[u8], i: usize) -> (r: i32)
    requires
        i + 2 <= b@.len(),
    ensures
        r == signed16(le16(b@, i as int)),
{
    let u = read_le16(b, i) as i32;
    if u >= 32768 {
        u - 65536
    } else {
        u
    }
}

fn has_tag(b: &[u8], i: usize, t0: u8, t1: u8, t2: u8, t3: u8) -> (r: bool)
    requires
        i + 4 <= b@.len(),
    ensures
        r == tag_at(b@, i as int, seq![t0, t1, t2, t3]),
{
    let r = b[i] == t0 && b[i + 1] == t1 && b[i + 2] == t2 && b[i + 3] == t3;
    assert(r == (b@.subrange(i as int, i + 4) =~= seq![t0, t1, t2, t3]));
    r
}

fn read_fmt(b: &[u8], start: usize) -> (r: Result<u32, WavError>)
    requires
        start <= b@.len(),
    ensures
        r == fmt_rate(b@, start as int),
{
    if b.len() - start < 2 {
        return Err(WavError::Truncated);
    }
    if read_le16(b, start) != 1 {
        return Err(WavError::NotPcm);
    }
    if b.len() - start < 4 {
        return Err(WavError::Truncated);
    }
    if read_le16(b, start + 2) != 2 {
        return Err(WavError::NotStereo);
    }
    if b.len() - start < 16 {
        return Err(WavError::Truncated);
    }
    if read_le16(b, start + 14) != 16 {
        return Err(WavError::Not16Bit);
    }
    Ok(read_le32(b, start + 4))
}

fn read_frames(b: &[u8], start: usize, end: usize) -> (v: Vec<i32>)
    requires
        start <= end <= b@.len(),
    ensures
        v@ == frames_of(b@, start as int, end as int),
{
    let n = (end - start) / 4;
    let mut v: Vec<i32> = Vec::new();
    let mut k: usize = 0;
    while k < n
        invariant
            n == (end - start) / 4,
            start <= end <= b@.len(),
            k <= n,
            v@ == frames_of(b@, start as int, end as int).take(k as int),
        decreases n - k,
    {
        let at = start + 4 * k;
        let left = read_signed16(b, at);
        let right = read_signed16(b, at + 2);
        v.push(left + right);
        k += 1;
        assert(v@ =~= frames_of(b@, start as int, end as int).take(k as int));
    }
    assert(v@ =~= frames_of(b@, start as int, end as int));
    v
}

/// The frames found so far, as values.
pub open spec fn frames_view(o: Option<Vec<i32>>) -> Option<Seq<i32>> {
    match o {
        Some(v) => Some(v@),
        None => None,
    }
}

/// Reads a 16-bit stereo PCM WAV file: the sample rate of its last `fmt `
/// chunk and the frames of its last `data` chunk, or the first reason it
/// cannot be read (see `spec_decode_wav`).
pub fn try_decode_wav(wav: &[u8]) -> (r: Result<WavData, WavError>)
    ensures
        match spec_decode_wav(wav@) {
            Ok((rate, frames)) => r matches Ok(d) && d.sample_rate == rate && d.frames@ == frames,
            Err(e) => r == Err::<WavData, WavError>(e),
        },
{
    if wav.len() < 4 {
        return Err(WavError::Truncated);
    }
    if !has_tag(wav, 0, 0x52, 0x49, 0x46, 0x46) {
        return Err(WavError::NotRiff);
    }
    if wav.len() < 12 {
        return Err(WavError::Truncated);
    }
    if !has_tag(wav, 8, 0x57, 0x41, 0x56, 0x45) {
        return Err(WavError::NotWave);
    }
    assert(tag_at(wav@, 0, riff_tag()) && tag_at(wav@, 8, wave_tag()));
    let mut offset: usize = 12;
    let mut sample_rate: Option<u32> = None;
    let mut sample: Option<Vec<i32>> = None;
    let ghost target = scan(wav@, 12, None, None);
    while wav.len() >= 8 && offset <= wav.len() - 8
        invariant
            scan(wav@, offset as int, sample_rate, frames_view(sample)) == target,
            target == scan(wav@, 12, None, None),
            wav@.len() >= 12,
            tag_at(wav@, 0, riff_tag()),
            tag_at(wav@, 8, wave_tag()),
        decreases scan_measure(wav@, offset as int),
    {
        let ghost before = scan(wav@, offset as int, sample_rate, frames_view(sample));
        let len = read_le32(wav, offset + 4);
        let start = offset + 8;
        let end = if (len as usize) < wav.len() - start {
            start + len as usize
        } else {
            wav.len()
        };
        let next: u128 = start as u128 + len as u128 + (len % 2) as u128;
        if has_tag(wav, offset, 0x66, 0x6d, 0x74, 0x20) {
            match read_fmt(wav, start) {
                Err(e) => {
                    assert(before == Err::<(Option<u32>, Option<Seq<i32>>), WavError>(e));
                    return Err(e);
                },
                Ok(rate) => {
                    sample_rate = Some(rate);
                },
            }
        } else if has_tag(wav, offset, 0x64, 0x61, 0x74, 0x61) {
            sample = Some(read_frames(wav, start, end));
        }
        assert(before == scan(wav@, next as int, sample_rate, frames_view(sample)));
        if next > (wav.len() - 8) as u128 {
            offset = wav.len() - 7;
        } else {
            offset = next as usize;
        }
    }
    match sample {
        None => Err(WavError::MissingData),
        Some(frames) => match sample_rate {
            None => Err(WavError::MissingFormat),
            Some(rate) => Ok(WavData { sample_rate: rate, frames }),
        },
    }
}

/// The four little-endian bytes of `x`.
pub open spec fn le32_bytes(x: u32) -> Seq<u8> {
    seq![(x % 256) as u8, ((x / 256) % 256) as u8, ((x / 65536) % 256) as u8, (x / 16777216) as u8]
}

proof fn lemma_le32_bytes(x: u32, b: Seq<u8>, i: int)
    requires
        0 <= i,
        i + 4 <= b.len(),
        b.subrange(i, i + 4) == le32_bytes(x),
    ensures
        le32(b, i) == x,
{
    assert(b[i] == b.subrange(i, i + 4)[0]);
    assert(b[i + 1] == b.subrange(i, i + 4)[1]);
    assert(b[i + 2] == b.subrange(i, i + 4)[2]);
    assert(b[i + 3] == b.subrange(i, i + 4)[3]);
    assert((x % 256) + 256 * ((x / 256) % 256) + 65536 * ((x / 65536) % 256) + 16777216 * (x
        / 16777216) == x) by (nonlinear_arith);
}

/// The body of a format chunk for 16-bit stereo PCM at `rate` Hz.
pub open spec fn pcm_fmt_body(rate: u32) -> Seq<u8> {
    seq![1u8, 0u8, 2u8, 0u8] + le32_bytes(rate) + le32_bytes(0) + seq![4u8, 0u8, 16u8, 0u8]
}

/// A WAV file with one format chunk for 16-bit stereo PCM at `rate` Hz and
/// one data chunk holding `data`.
pub open spec fn pcm_wav(rate: u32, data: Seq<u8>) -> Seq<u8> {
    riff_tag() + le32_bytes((36 + data.len()) as u32) + wave_tag() + fmt_tag() + le32_bytes(16)
        + pcm_fmt_body(rate) + data_tag() + le32_bytes(data.len() as u32) + data
}

/// Reading gives back what was written: a 16-bit stereo PCM file written
/// with any sample rate `rate` and any data bytes reads back as that sample
/// rate, and as the frames of those bytes (each the sum of its left and
/// right sample, trailing bytes short of a frame ignored).
pub proof fn lemma_pcm_wav_round_trip(rate: u32, data: Seq<u8>)
    requires
        data.len() + 36 <= u32::MAX,
    ensures
        spec_decode_wav(pcm_wav(rate, data)) == Ok::<(u32, Seq<i32>), WavError>(
            (rate, frames_of(data, 0, data.len() as int)),
        ),
{
    let b = pcm_wav(rate, data);
    let len = data.len() as int;
    assert(b.len() == 44 + len);
    assert(b.subrange(0, 4) =~= riff_tag());
    assert(b.subrange(8, 12) =~= wave_tag());
    assert(b.subrange(12, 16) =~= fmt_tag());
    assert(b.subrange(16, 20) =~= le32_bytes(16));
    lemma_le32_bytes(16, b, 16);
    assert(b[20] == 1 && b[21] == 0 && b[22] == 2 && b[23] == 0);
    assert(b[34] == 16 && b[35] == 0);
    assert(b.subrange(24, 28) =~= le32_bytes(rate));
    lemma_le32_bytes(rate, b, 24);
    assert(fmt_rate(b, 20) == Ok::<u32, WavError>(rate));
    assert(b.subrange(36, 40) =~= data_tag());
    assert(!tag_at(b, 36, fmt_tag())) by {
        assert(b.subrange(36, 40)[0] != fmt_tag()[0]);
    }
    assert(b.subrange(40, 44) =~= le32_bytes(data.len() as u32));
    lemma_le32_bytes(data.len() as u32, b, 40);
    assert(frames_of(b, 44, 44 + len) =~= frames_of(data, 0, len)) by {
        assert forall|j: int| 0 <= j < len implies b[44 + j] == #[trigger] data[j] by {}
    }
    let next = 44 + len + len % 2;
    assert(scan(b, next, Some(rate), Some(frames_of(b, 44, 44 + len))) == Ok::<
        (Option<u32>, Option<Seq<i32>>),
        WavError,
    >((Some(rate), Some(frames_of(b, 44, 44 + len)))));
    assert(scan(b, 36, Some(rate), None) == scan(b, next, Some(rate), Some(frames_of(b, 44, 44 + len))));
    assert(scan(b, 12, None, None) == scan(b, 36, Some(rate), None));
}

/// Reads a 16-bit stereo PCM WAV file, which must be readable: the sample
/// rate of its last `fmt ` chunk and the frames of its last `data` chunk.
pub fn decode_wav(wav: &[u8]) -> (d: WavData)
    requires
        spec_decode_wav(wav@) is Ok,
    ensures
        d.sample_rate == spec_decode_wav(wav@)->Ok_0.0,
        d.frames@ == spec_decode_wav(wav@)->Ok_0.1,
{
    match try_decode_wav(wav) {
        Ok(d) => d,
        Err(e) => {
            proof {
                assert(false);
            }
            WavData { sample_rate: 0, frames: Vec::new() }
        },
    }
}

/// The sampler's voice allocation: the note each voice plays, if any.
pub struct Sampler {
    root_note: u8,
    voices: Vec<Option<u8>>,
}

/// A voice's note after a note-off for `note`.
pub open spec fn sampler_voice_after_off(v: Option<u8>, note: u8) -> Option<u8> {
    if v == Some(note) {
        None
    } else {
        v
    }
}

impl Sampler {
    /// The note each voice plays, if any.
    pub closed spec fn notes(&self) -> Seq<Option<u8>> {
        self.voices@
    }

    /// The note at which the sample plays at its recorded pitch.
    pub closed spec fn spec_root_note(&self) -> u8 {
        self.root_note
    }

    /// A sampler with silent voices, rooted at C3 (MIDI 60).
    pub fn new() -> (s: Self)
        ensures
            s.notes() == Seq::new(NUM_VOICES as nat, |i: int| None::<u8>),
            s.spec_root_note() == 60,
    {
        let mut voices: Vec<Option<u8>> = Vec::new();
        let mut i: usize = 0;
        while i < NUM_VOICES
            invariant
                i <= NUM_VOICES,
                voices@ == Seq::new(i as nat, |k: int| None::<u8>),
            decreases NUM_VOICES - i,
        {
            voices.push(None);
            i += 1;
            assert(voices@ =~= Seq::new(i as nat, |k: int| None::<u8>));
        }
        Sampler { root_note: 60, voices }
    }

    /// The note at which the sample plays at its recorded pitch.
    pub fn root_note(&self) -> (n: u8)
        ensures
            n == self.spec_root_note(),
    {
        self.root_note
    }

    /// The note voice `i` plays, if any.
    pub fn voice_note(&self, i: usize) -> (n: Option<u8>)
        requires
            i < self.notes().len(),
        ensures
            n == self.notes()[i as int],
    {
        self.voices[i]
    }

    /// How many voices there are.
    pub fn voice_count(&self) -> (n: usize)
        ensures
            n == self.notes().len(),
    {
        self.voices.len()
    }

    /// Starts `note` on the first silent voice and returns that voice; when
    /// every voice is busy the note is dropped and `None` comes back.
    pub fn note_on(&mut self, note: u8) -> (v: Option<usize>)
        ensures
            final(self).spec_root_note() == old(self).spec_root_note(),
            match v {
                Some(i) => {
                    &&& i < old(self).notes().len()
                    &&& old(self).notes()[i as int] is None
                    &&& forall|j: int| 0 <= j < i ==> (#[trigger] old(self).notes()[j]) is Some
                    &&& final(self).notes() == old(self).notes().update(i as int, Some(note))
                },
                None => {
                    &&& forall|j: int|
                        0 <= j < old(self).notes().len() ==> (#[trigger] old(self).notes()[j]) is Some
                    &&& final(self).notes() == old(self).notes()
                },
            },
    {
        let mut i: usize = 0;
        while i < self.voices.len()
            invariant
                self.voices@ == old(self).voices@,
                self.root_note == old(self).root_note,
                i <= self.voices@.len(),
                forall|j: int| 0 <= j < i ==> (#[trigger] self.voices@[j]) is Some,
            decreases self.voices@.len() - i,
        {
            if self.voices[i].is_none() {
                self.voices.set(i, Some(note));
                return Some(i);
            }
            i += 1;
        }
        None
    }

    /// Stops every voice that plays `note`.
    pub fn note_off(&mut self, note: u8)
        ensures
            final(self).spec_root_note() == old(self).spec_root_note(),
            final(self).notes() == old(self).notes().map_values(
                |v: Option<u8>| sampler_voice_after_off(v, note),
            ),
    {
        let ghost orig = self.voices@;
        let mut i: usize = 0;
        while i < self.voices.len()
            invariant
                self.voices@.len() == orig.len(),
                orig == old(self).voices@,
                self.root_note == old(self).root_note,
                i <= orig.len(),
                forall|k: int|
                    0 <= k < i ==> #[trigger] self.voices@[k] == sampler_voice_after_off(orig[k], note),
                forall|k: int| i <= k < orig.len() ==> #[trigger] self.voices@[k] == orig[k],
            decreases orig.len() - i,
        {
            if self.voices[i] == Some(note) {
                self.voices.set(i, None);
            }
            i += 1;
        }
        assert(self.voices@ =~= orig.map_values(|v: Option<u8>| sampler_voice_after_off(v, note)));
    }

    /// Stops every voice.
    pub fn all_notes_off(&mut self)
        ensures
            final(self).spec_root_note() == old(self).spec_root_note(),
            final(self).notes() == Seq::new(old(self).notes().len(), |i: int| None::<u8>),
    {
        let ghost orig = self.voices@;
        let mut i: usize = 0;
        while i < self.voices.len()
            invariant
                self.voices@.len() == orig.len(),
                orig == old(self).voices@,
                self.root_note == old(self).root_note,
                i <= orig.len(),
                forall|k: int| 0 <= k < i ==> #[trigger] self.voices@[k] == None::<u8>,
            decreases orig.len() - i,
        {
            self.voices.set(i, None);
            i += 1;
        }
        assert(self.voices@ =~= Seq::new(orig.len(), |k: int| None::<u8>));
    }

    /// Stops voice `i`, which has played its sample to the end.
    pub fn stop_voice(&mut self, i: usize)
        requires
            i < old(self).notes().len(),
        ensures
            final(self).spec_root_note() == old(self).spec_root_note(),
            final(self).notes() == old(self).notes().update(i as int, None),
    {
        self.voices.set(i, None);
    }
}

impl Default for Sampler {
    fn default() -> (s: Self)
        ensures
            s.notes() == Seq::new(NUM_VOICES as nat, |i: int| None::<u8>),
            s.spec_root_note() == 60,
    {
        Self::new()
    }
}

/// The sampler's screen.
pub struct SamplerUi;

impl SamplerUi {
    pub fn new() -> (u: Self) {
        SamplerUi
    }
}

impl Default for SamplerUi {
    fn default() -> (u: Self) {
        Self::new()
    }
}

impl SamplerUi {

    /// Backspace leaves the sampler's screen; other keys do nothing.
    pub fn handle_event(&mut self, sampler: &mut Sampler, event: Event) -> (a: Action)
        ensures
            *final(sampler) == *old(sampler),
            a == (if event.key == Key::Backspace {
                Action::GoBack
            } else {
                Action::Nothing
            }),
    {
        match event.key {
            Key::Backspace => Action::GoBack,
            _ => Action::Nothing,
        }
    }
}

} // verus!
