use throrgan::generator::{Breakdown, Chunk, Note, NoteError};
use throrgan::instrument::{Damp, Instrument, Smear, Sound};
use throrgan::output::Output;
use throrgan::parse::{breakdown, get_header};

fn sine() -> Instrument {
    Instrument::new("sine", 1000, None).unwrap()
}

#[test]
fn scheduler_rejects_zero_length() {
    let inst = sine();
    let mut bd = Breakdown::new(120);
    let r = bd.add_note(&inst, 69, 0, 0, 1000);
    assert_eq!(r, Err(NoteError::ZeroLength));
}

#[test]
fn scheduler_rejects_out_of_order_starts() {
    let inst = sine();
    let mut bd = Breakdown::new(120);
    bd.add_note(&inst, 69, 3, 4, 1000).unwrap();
    assert_eq!(bd.low_time(), 3);
    let r = bd.add_note(&inst, 69, 1, 4, 1000);
    assert_eq!(r, Err(NoteError::OutOfOrder));
}

#[test]
fn scheduler_rejects_pitches_off_the_grid() {
    let inst = sine();
    let mut bd = Breakdown::new(120);
    let r = bd.add_note(&inst, 128, 0, 4, 1000);
    assert_eq!(r, Err(NoteError::PitchOutOfRange));
}

#[test]
fn drain_empties_every_bucket() {
    let inst = sine();
    let mut bd = Breakdown::new(120);
    bd.add_note(&inst, 69, 3, 4, 1000).unwrap();
    assert_eq!(bd.chunks().len(), 3);
    bd.push_all();
    assert_eq!(bd.low_time(), 3 + 8);
    for b in 0..8 {
        assert_eq!(bd.bucket_len(b), 0);
    }
    assert_eq!(bd.chunks().len(), 3 + 8);
}

#[test]
fn chunk_span_is_inverse_to_tempo() {
    // a bucket is one quarter note: 60/tempo seconds of samples
    let inst = sine();
    for (tempo, steps) in [(60u32, 44100u64), (120, 22050), (240, 11025)] {
        let mut bd = Breakdown::new(tempo);
        bd.add_note(&inst, 69, 0, 4, 1000).unwrap();
        bd.push_all();
        assert_eq!(bd.chunks()[0].n_steps, steps);
    }
}

#[test]
fn single_note_renders_at_its_pitch() {
    let inst = sine();
    let mut bd = Breakdown::new(120);
    bd.add_note(&inst, 69, 0, 4, 1000).unwrap();
    bd.push_all();
    let chunks = bd.chunks();
    assert_eq!(chunks.len(), 8);
    // at tempo 120 each chunk spans half a second of samples
    assert_eq!(chunks[0].n_steps, 22050);
    // a quarter note spans the first two buckets
    assert_eq!(chunks[0].notes.len(), 1);
    assert_eq!(chunks[1].notes.len(), 1);
    assert_eq!(chunks[2].notes.len(), 0);

    let mut damp = Damp::new();
    let frame = chunks[0].frame_at(0, &mut damp);
    assert_eq!(frame.len(), 1024);
    let mut dominant = 0usize;
    for w in 0..1024 {
        if frame[w] > frame[dominant] {
            dominant = w;
        }
    }
    assert!(frame[dominant] > 0);
    // the dominant bin sits within the narrow band around 440 Hz
    let f = throrgan::generator::index_to_frequency(dominant);
    let diff = if f >= 440_000 { f - 440_000 } else { 440_000 - f };
    assert!(diff * 1000 < 440_000);
    assert_eq!(frame[dominant], 1_000_000);

    // a bucket with no overlapping note renders silence
    let silent = chunks[2].frame_at(0, &mut damp);
    for w in 0..1024 {
        assert_eq!(silent[w], 0);
    }
}

#[test]
fn end_to_end_piece_renders() {
    let content = "#instruments\nsine 1.0\n#signature\ntempo 120\n#music\n0 69 0 4 1.0\n";
    let h = get_header(content, "piece", &Vec::new()).unwrap();
    let mut bd = breakdown(&h, content, "piece").unwrap();
    bd.push_all();
    let chunks = bd.chunks();
    assert_eq!(chunks.len(), 8);
    let mut damp = Damp::new();
    let frame = chunks[0].frame_at(0, &mut damp);
    assert!(frame.iter().any(|&p| p > 0));
    let tail = chunks[7].frame_at(0, &mut damp);
    assert!(tail.iter().all(|&p| p == 0));
}

#[test]
fn fading_notes_are_damped_by_elapsed_time() {
    let sounds = vec![Sound::new(Smear::Delta(440_000), 1000)];
    let chunk = Chunk {
        n_steps: 200,
        notes: vec![Note::End(sounds, 100)],
    };
    let mut damp = Damp::new();
    let start = chunk.frame_at(0, &mut damp);
    let half = chunk.frame_at(50, &mut damp);
    let gone = chunk.frame_at(100, &mut damp);
    let mut w_max = 0usize;
    for w in 0..1024 {
        if start[w] > start[w_max] {
            w_max = w;
        }
    }
    assert_eq!(start[w_max], 1_000_000);
    assert_eq!(half[w_max], 500_000);
    assert_eq!(gone[w_max], 0);
}

#[test]
fn one_second_container_declares_its_data_length() {
    let mut out = Output::new();
    out.write(&vec![0i16; 44100]);
    let bytes = out.finalize().unwrap();
    // 44 header bytes, then two bytes per sample
    assert_eq!(bytes.len(), 44 + 88200);
    let declared = u32::from_le_bytes([bytes[40], bytes[41], bytes[42], bytes[43]]);
    assert_eq!(declared, 44100 * 2 * 1);
}

#[test]
fn container_header_fields() {
    let mut out = Output::new();
    out.write(&vec![1i16, -2, 300]);
    let bytes = out.finalize().unwrap();
    assert_eq!(&bytes[0..4], b"RIFF");
    assert_eq!(u32::from_le_bytes([bytes[4], bytes[5], bytes[6], bytes[7]]), 36 + 6);
    assert_eq!(&bytes[8..12], b"WAVE");
    assert_eq!(&bytes[12..16], b"fmt ");
    assert_eq!(u32::from_le_bytes([bytes[16], bytes[17], bytes[18], bytes[19]]), 16);
    // format code 1: uncompressed PCM
    assert_eq!(u16::from_le_bytes([bytes[20], bytes[21]]), 1);
    // one channel at 44100 Hz, 16 bits per sample
    assert_eq!(u16::from_le_bytes([bytes[22], bytes[23]]), 1);
    assert_eq!(u32::from_le_bytes([bytes[24], bytes[25], bytes[26], bytes[27]]), 44100);
    assert_eq!(u32::from_le_bytes([bytes[28], bytes[29], bytes[30], bytes[31]]), 88200);
    assert_eq!(u16::from_le_bytes([bytes[32], bytes[33]]), 2);
    assert_eq!(u16::from_le_bytes([bytes[34], bytes[35]]), 16);
    assert_eq!(&bytes[36..40], b"data");
    assert_eq!(u32::from_le_bytes([bytes[40], bytes[41], bytes[42], bytes[43]]), 6);
    assert_eq!(i16::from_le_bytes([bytes[44], bytes[45]]), 1);
    assert_eq!(i16::from_le_bytes([bytes[46], bytes[47]]), -2);
    assert_eq!(i16::from_le_bytes([bytes[48], bytes[49]]), 300);
}
