use ledaw::input::{Event, EventType, Key};
use ledaw::instrument::sampler::{decode_wav, try_decode_wav, Sampler, SamplerUi, WavError, NUM_VOICES};
use ledaw::plugin::Action;

fn chunk(id: &[u8; 4], body: &[u8]) -> Vec<u8> {
    let mut v = id.to_vec();
    v.extend_from_slice(&(body.len() as u32).to_le_bytes());
    v.extend_from_slice(body);
    if body.len() % 2 == 1 {
        v.push(0);
    }
    v
}

fn fmt_body(format: u16, channels: u16, rate: u32, bits: u16) -> Vec<u8> {
    let mut b = Vec::new();
    b.extend_from_slice(&format.to_le_bytes());
    b.extend_from_slice(&channels.to_le_bytes());
    b.extend_from_slice(&rate.to_le_bytes());
    b.extend_from_slice(&(rate * 4).to_le_bytes());
    b.extend_from_slice(&4u16.to_le_bytes());
    b.extend_from_slice(&bits.to_le_bytes());
    b
}

fn frames_body(frames: &[(i16, i16)]) -> Vec<u8> {
    let mut b = Vec::new();
    for (l, r) in frames {
        b.extend_from_slice(&l.to_le_bytes());
        b.extend_from_slice(&r.to_le_bytes());
    }
    b
}

fn wav(chunks: &[Vec<u8>]) -> Vec<u8> {
    let mut body = b"WAVE".to_vec();
    for c in chunks {
        body.extend_from_slice(c);
    }
    let mut v = b"RIFF".to_vec();
    v.extend_from_slice(&(body.len() as u32).to_le_bytes());
    v.extend_from_slice(&body);
    v
}

#[test]
fn decodes_stereo_pcm() {
    let w = wav(&[
        chunk(b"fmt ", &fmt_body(1, 2, 48_000, 16)),
        chunk(b"LIST", &[1, 2, 3]),
        chunk(b"data", &frames_body(&[(100, -50), (-32768, -32768), (32767, 1)])),
    ]);
    let d = decode_wav(&w);
    assert_eq!(d.sample_rate, 48_000);
    assert_eq!(d.frames, vec![50, -65536, 32768]);
}

#[test]
fn data_before_format_and_trailing_bytes() {
    let mut data = frames_body(&[(1, 2), (3, 4)]);
    data.push(9);
    let w = wav(&[chunk(b"data", &data), chunk(b"fmt ", &fmt_body(1, 2, 44_100, 16))]);
    let d = decode_wav(&w);
    assert_eq!(d.sample_rate, 44_100);
    assert_eq!(d.frames, vec![3, 7]);
}

#[test]
fn data_chunk_running_past_the_end_keeps_what_is_there() {
    let mut w = wav(&[chunk(b"fmt ", &fmt_body(1, 2, 8_000, 16))]);
    w.extend_from_slice(b"data");
    w.extend_from_slice(&1000u32.to_le_bytes());
    w.extend_from_slice(&frames_body(&[(5, 6)]));
    let d = decode_wav(&w);
    assert_eq!(d.frames, vec![11]);
}

#[test]
fn wav_errors() {
    assert_eq!(try_decode_wav(b"RIF").err(), Some(WavError::Truncated));
    assert_eq!(try_decode_wav(b"RIFX\0\0\0\0WAVE").err(), Some(WavError::NotRiff));
    assert_eq!(try_decode_wav(b"RIFF\0\0\0\0WA").err(), Some(WavError::Truncated));
    assert_eq!(try_decode_wav(b"RIFF\0\0\0\0WAVX").err(), Some(WavError::NotWave));
    let data = chunk(b"data", &frames_body(&[(1, 1)]));
    let fmt_ok = chunk(b"fmt ", &fmt_body(1, 2, 48_000, 16));
    assert_eq!(try_decode_wav(&wav(&[chunk(b"fmt ", &fmt_body(3, 2, 48_000, 16)), data.clone()])).err(), Some(WavError::NotPcm));
    assert_eq!(try_decode_wav(&wav(&[chunk(b"fmt ", &fmt_body(1, 1, 48_000, 16)), data.clone()])).err(), Some(WavError::NotStereo));
    assert_eq!(try_decode_wav(&wav(&[chunk(b"fmt ", &fmt_body(1, 2, 48_000, 24)), data.clone()])).err(), Some(WavError::Not16Bit));
    assert_eq!(try_decode_wav(&wav(&[fmt_ok.clone()])).err(), Some(WavError::MissingData));
    assert_eq!(try_decode_wav(&wav(&[data.clone()])).err(), Some(WavError::MissingFormat));
    assert_eq!(try_decode_wav(&wav(&[])).err(), Some(WavError::MissingData));
    let mut short = wav(&[data]);
    short.extend_from_slice(b"fmt ");
    short.extend_from_slice(&16u32.to_le_bytes());
    short.extend_from_slice(&1u16.to_le_bytes());
    short.extend_from_slice(&2u16.to_le_bytes());
    assert_eq!(try_decode_wav(&short).err(), Some(WavError::Truncated));
}

#[test]
fn sampler_voices_fill_and_drop() {
    let mut s = Sampler::new();
    assert_eq!(s.root_note(), 60);
    assert_eq!(s.voice_count(), NUM_VOICES);
    for i in 0..NUM_VOICES {
        assert_eq!(s.note_on(40 + i as u8), Some(i));
    }
    assert_eq!(s.note_on(99), None);
    s.note_off(41);
    assert_eq!(s.voice_note(1), None);
    assert_eq!(s.note_on(99), Some(1));
    s.stop_voice(0);
    assert_eq!(s.voice_note(0), None);
    s.all_notes_off();
    for i in 0..NUM_VOICES {
        assert_eq!(s.voice_note(i), None);
    }
}

#[test]
fn sampler_screen_goes_back_on_backspace() {
    let mut s = Sampler::new();
    let mut ui = SamplerUi::new();
    let back = Event { ty: EventType::KeyPress, key: Key::Backspace };
    let other = Event { ty: EventType::KeyPress, key: Key::A };
    assert_eq!(ui.handle_event(&mut s, back), Action::GoBack);
    assert_eq!(ui.handle_event(&mut s, other), Action::Nothing);
}
