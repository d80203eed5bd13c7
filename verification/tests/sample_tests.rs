use rtrack::editor::SampleField;
use rtrack::sample::{adjusted_slice_count, route_note, ExportInstrument, NoteRoute, 
    decode_pcm, format_for_extension, parse_aiff, slot_of_stem, to_stereo_frames, AiffError, AudioFormat,
    PcmWidth, Sample, SampleBank, SampleDirMeta, SampleError, SampleMeta,
};

fn sample_with(data: Vec<[f32; 2]>, trim_start: usize, trim_end: usize) -> Sample<[f32; 2], f64> {
    Sample {
        name: "test".into(),
        data,
        sample_rate: 44100.0,
        base_note: 60,
        trim_start,
        trim_end,
        loop_enabled: false,
        loop_start: 0,
        loop_end: 0,
        source_path: None,
    }
}

#[test]
fn test_sample_bank_new() {
    let bank: SampleBank<[f32; 2], f64> = SampleBank::new();
    assert_eq!(bank.samples.len(), 256);
    assert!(bank.get(0).is_none());
}

#[test]
fn test_sample_bank_slot_out_of_range() {
    let mut bank: SampleBank<[f32; 2], f64> = SampleBank::new();
    let r = bank.load(256, sample_with(vec![[0.0; 2]; 4], 0, 0));
    assert!(r.is_err());
    assert_eq!(r, Err(SampleError::SlotOutOfRange(256)));
    assert!(bank.load(3, sample_with(vec![[0.0; 2]; 4], 0, 0)).is_ok());
    assert_eq!(bank.get(3).unwrap().len(), 4);
}

#[test]
fn test_to_stereo_frames_mono() {
    let mono = vec![0.5f32, -0.5, 1.0];
    let frames = to_stereo_frames(&mono, 1);
    assert_eq!(frames.len(), 3);
    assert_eq!(frames[0], [0.5, 0.5]);
    assert_eq!(frames[1], [-0.5, -0.5]);
}

#[test]
fn test_to_stereo_frames_stereo() {
    let stereo = vec![0.5f32, -0.5, 1.0, -1.0];
    let frames = to_stereo_frames(&stereo, 2);
    assert_eq!(frames.len(), 2);
    assert_eq!(frames[0], [0.5, -0.5]);
    assert_eq!(frames[1], [1.0, -1.0]);
}

#[test]
fn stereo_frames_drop_extra_channels_and_partial_frames() {
    let quad = vec![1, 2, 3, 4, 5, 6, 7, 8, 9];
    let frames = to_stereo_frames(&quad, 4);
    assert_eq!(frames, vec![[1, 2], [5, 6]]);
}

#[test]
fn test_sample_end_default() {
    let sample = sample_with(vec![[0.0; 2]; 100], 0, 0);
    assert_eq!(sample.end(), 100);
    assert_eq!(sample.len(), 100);
}

#[test]
fn test_sample_trimmed() {
    let sample = sample_with(vec![[0.0; 2]; 100], 10, 50);
    assert_eq!(sample.end(), 50);
}

#[test]
fn test_sample_frame_at_out_of_bounds() {
    let sample = sample_with(vec![[1.0, -1.0]], 0, 0);
    assert_eq!(sample.frame_at(0), [1.0, -1.0]);
    assert_eq!(sample.frame_at(1), [0.0, 0.0]);
}

#[test]
fn sample_loop_region_is_clamped() {
    let mut s = sample_with(vec![[0.0; 2]; 100], 0, 80);
    s.loop_start = 90;
    s.loop_end = 95;
    assert_eq!(s.effective_loop_end(), 80);
    assert_eq!(s.effective_loop_start(), 79);
    s.loop_end = 40;
    s.loop_start = 10;
    assert_eq!(s.effective_loop_end(), 40);
    assert_eq!(s.effective_loop_start(), 10);
    let empty = sample_with(vec![], 0, 0);
    assert_eq!(empty.effective_loop_end(), 0);
    assert_eq!(empty.effective_loop_start(), 0);
}

#[test]
fn test_load_unsupported_format() {
    assert_eq!(format_for_extension("mp3"), None);
    assert_eq!(format_for_extension("WAV"), Some(AudioFormat::Wav));
    assert_eq!(format_for_extension("aif"), Some(AudioFormat::Aiff));
    assert_eq!(format_for_extension("AiFf"), Some(AudioFormat::Aiff));
    assert_eq!(format_for_extension(""), None);
}

#[test]
fn test_sample_dir_meta_default() {
    let meta = SampleDirMeta::default();
    assert_eq!(meta.bpm, None);
    assert!(meta.samples.is_empty());
}

#[test]
fn dir_meta_lookup_and_apply() {
    let meta = SampleDirMeta {
        bpm: Some(120),
        samples: vec![
            ("0".to_string(), SampleMeta { base_note: Some(36), loop_enabled: Some(true), loop_start: Some(5), loop_end: None }),
            ("1".to_string(), SampleMeta { base_note: Some(60), ..SampleMeta::default() }),
        ],
    };
    assert_eq!(meta.get("0").unwrap().base_note, Some(36));
    assert!(meta.get("00").is_none());
    let mut bank: SampleBank<[f32; 2], f64> = SampleBank::new();
    bank.load(0, sample_with(vec![[0.0; 2]; 10], 0, 0)).unwrap();
    bank.apply_dir_meta(0, &meta, "0");
    let s = bank.get(0).unwrap();
    assert_eq!(s.base_note, 36);
    assert!(s.loop_enabled);
    assert_eq!(s.loop_start, 5);
    assert_eq!(s.loop_end, 0);
}

#[test]
fn slot_parsing_from_stem() {
    assert_eq!(slot_of_stem("0-kick"), Some((0, "0".to_string())));
    assert_eq!(slot_of_stem("12-snare-2"), Some((12, "12".to_string())));
    assert_eq!(slot_of_stem("kick"), None);
    assert_eq!(slot_of_stem("x-kick"), None);
    assert_eq!(slot_of_stem("-kick"), None);
    let bank: SampleBank<[f32; 2], f64> = SampleBank::new();
    assert_eq!(bank.slot_for_file("wav", "7-hat"), Some((7, "7".to_string())));
    assert_eq!(bank.slot_for_file("txt", "7-hat"), None);
    assert_eq!(bank.slot_for_file("aiff", "300-x"), None);
}

fn aiff_bytes(channels: u16, frames: u32, bits: u16, sound: &[u8]) -> Vec<u8> {
    let mut comm = Vec::new();
    comm.extend_from_slice(&channels.to_be_bytes());
    comm.extend_from_slice(&frames.to_be_bytes());
    comm.extend_from_slice(&bits.to_be_bytes());
    comm.extend_from_slice(&[0x40, 0x0E, 0xAC, 0x44, 0, 0, 0, 0, 0, 0]);
    let mut body = Vec::new();
    body.extend_from_slice(b"AIFF");
    body.extend_from_slice(b"COMM");
    body.extend_from_slice(&(comm.len() as u32).to_be_bytes());
    body.extend_from_slice(&comm);
    body.extend_from_slice(b"SSND");
    body.extend_from_slice(&((sound.len() + 8) as u32).to_be_bytes());
    body.extend_from_slice(&[0; 8]);
    body.extend_from_slice(sound);
    let mut out = Vec::new();
    out.extend_from_slice(b"FORM");
    out.extend_from_slice(&(body.len() as u32).to_be_bytes());
    out.extend_from_slice(&body);
    out
}

#[test]
fn aiff_chunks_are_read() {
    let bytes = aiff_bytes(2, 2, 16, &[0x00, 0x01, 0xFF, 0xFF, 0x80, 0x00, 0x7F, 0xFF]);
    let c = parse_aiff(&bytes).unwrap();
    assert_eq!(c.channels, 2);
    assert_eq!(c.num_frames, 2);
    assert_eq!(c.bits_per_sample, 16);
    assert_eq!(c.rate, vec![0x40, 0x0E, 0xAC, 0x44, 0, 0, 0, 0, 0, 0]);
    let (w, v) = decode_pcm(&c.sound_data, c.bits_per_sample, c.num_frames, c.channels);
    assert_eq!(w, PcmWidth::Bits16);
    assert_eq!(v, vec![1, -1, -32768, 32767]);
}

#[test]
fn aiff_errors() {
    assert_eq!(parse_aiff(b"FORM").err(), Some(AiffError::ShortHeader));
    assert_eq!(parse_aiff(b"RIFF0000WAVE").err(), Some(AiffError::NotAiff));
    assert_eq!(parse_aiff(b"FORM0000AIFF").err(), Some(AiffError::NoAudioData));
    let mut short_comm = b"FORM0000AIFCCOMM".to_vec();
    short_comm.extend_from_slice(&[0, 0, 0, 4, 1, 2, 3, 4]);
    assert_eq!(parse_aiff(&short_comm).err(), Some(AiffError::CommTooShort));
    let mut cut = b"FORM0000AIFFCOMM".to_vec();
    cut.extend_from_slice(&[0, 0, 0, 18, 1, 2]);
    assert_eq!(parse_aiff(&cut).err(), Some(AiffError::CommRead));
}

#[test]
fn pcm_widths_and_sign_extension() {
    let (w, v) = decode_pcm(&[0x80, 0x7F, 0x01], 8, 3, 1);
    assert_eq!(w, PcmWidth::Bits8);
    assert_eq!(v, vec![-128, 127, 1]);
    let (w, v) = decode_pcm(&[0xFF, 0xFF, 0xFE, 0x00, 0x00, 0x02], 24, 2, 1);
    assert_eq!(w, PcmWidth::Bits32);
    assert_eq!(v, vec![-2, 2]);
    let (w, v) = decode_pcm(&[0x80, 0, 0, 0], 32, 5, 1);
    assert_eq!(w, PcmWidth::Bits32);
    assert_eq!(v, vec![i32::MIN]);
    let (w, v) = decode_pcm(&[], 0, 3, 1);
    assert_eq!(w, PcmWidth::Unsupported);
    assert_eq!(v, vec![0, 0, 0]);
}

#[test]
fn sample_editor_adjustments() {
    let mut s = sample_with(vec![[0.0; 2]; 1000], 0, 0);
    s.adjust(SampleField::BaseNote, 100);
    assert_eq!(s.base_note, 127);
    s.adjust(SampleField::TrimStart, 3);
    assert_eq!(s.trim_start, 300);
    s.adjust(SampleField::TrimStart, 100);
    assert_eq!(s.trim_start, 999);
    s.adjust(SampleField::TrimEnd, -2);
    assert_eq!(s.trim_end, 800);
    s.adjust(SampleField::LoopEnd, -1);
    assert_eq!(s.loop_end, 700);
    s.adjust(SampleField::LoopStart, 9);
    assert_eq!(s.loop_start, 700);
    s.adjust(SampleField::LoopEnabled, 0);
    assert!(s.loop_enabled);
    assert_eq!(adjusted_slice_count(8, 100), 64);
    assert_eq!(adjusted_slice_count(8, -100), 2);
}

#[test]
fn notes_route_to_sample_synth_or_builtin() {
    let mut bank: SampleBank<[f32; 2], f64> = SampleBank::new();
    bank.load(5, sample_with(vec![[0.0; 2]; 2], 0, 0)).unwrap();
    let insts: Vec<ExportInstrument<u32>> = vec![
        ExportInstrument { sample_index: Some(5), midi_program: 0, synth_params: None },
        ExportInstrument { sample_index: Some(6), midi_program: 0, synth_params: Some(7) },
        ExportInstrument { sample_index: None, midi_program: 3, synth_params: None },
    ];
    assert_eq!(route_note(&insts, &bank, None), NoteRoute::Sample(5));
    assert_eq!(route_note(&insts, &bank, Some(1)), NoteRoute::CustomSynth(1));
    assert_eq!(route_note(&insts, &bank, Some(2)), NoteRoute::BuiltinSynth);
    assert_eq!(route_note(&insts, &bank, Some(9)), NoteRoute::BuiltinSynth);
}
