use rtrack::synth::{release_stage, stage_is_active, stepped_waveform, voice_to_evict, EnvStage, FilterType, NoiseGen, Patch};

#[test]
fn test_patch_from_program() {
    assert!(matches!(Patch::from_program(0), Patch::Saw));
    assert!(matches!(Patch::from_program(2), Patch::Sine));
    assert!(matches!(Patch::from_program(8), Patch::Saw)); // wraps
}

#[test]
fn patch_numbers_repeat_every_eight() {
    for p in 0..=247u8 {
        assert_eq!(Patch::from_program(p), Patch::from_program(p + 8));
    }
}

#[test]
fn patch_names() {
    assert_eq!(Patch::from_program(0).name(), Patch::Saw.name());
    assert!(!Patch::Sine.name().is_empty());
}

#[test]
fn envelope_release_and_activity() {
    assert!(!stage_is_active(EnvStage::Off));
    assert!(stage_is_active(EnvStage::Attack));
    assert_eq!(release_stage(EnvStage::Off), EnvStage::Off);
    assert_eq!(release_stage(EnvStage::Sustain), EnvStage::Release);
}

#[test]
fn noise_generator_is_deterministic() {
    let mut a = NoiseGen::new(12345);
    let mut b = NoiseGen::new(12345);
    for _ in 0..10 {
        assert_eq!(a.advance(), b.advance());
    }
}

#[test]
fn voice_eviction_prefers_silent_voices() {
    assert_eq!(voice_to_evict(&vec![true, true], 32), None);
    assert_eq!(voice_to_evict(&vec![true, false, false], 3), Some(1));
    assert_eq!(voice_to_evict(&vec![true, true, true], 3), Some(0));
    assert_eq!(voice_to_evict(&vec![], 0), None);
}

#[test]
fn waveform_step_wraps_both_ways() {
    assert_eq!(stepped_waveform(0, 1), 1);
    assert_eq!(stepped_waveform(7, 1), 0);
    assert_eq!(stepped_waveform(0, -1), 7);
    assert_eq!(stepped_waveform(3, 10), 5);
    assert_eq!(stepped_waveform(3, -10), 1);
    assert_eq!(stepped_waveform(stepped_waveform(5, -10), 10), 5);
}

#[test]
fn filter_type_cycles() {
    assert_eq!(FilterType::LowPass.stepped(true), FilterType::HighPass);
    assert_eq!(FilterType::HighPass.stepped(true), FilterType::BandPass);
    assert_eq!(FilterType::BandPass.stepped(true), FilterType::LowPass);
    assert_eq!(FilterType::LowPass.stepped(false), FilterType::BandPass);
    assert_eq!(FilterType::HighPass.stepped(false), FilterType::LowPass);
    assert_eq!(FilterType::BandPass.stepped(false), FilterType::HighPass);
    assert_eq!(FilterType::HighPass.stepped(true).stepped(false), FilterType::HighPass);
}
