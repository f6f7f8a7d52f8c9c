use ox_core::audio::{Mixer, MAX_VOICES};

fn fill(mixer: &mut Mixer<f32>, out: &mut [f32], channels: usize) {
    let mut frame_samples = Vec::with_capacity(MAX_VOICES);
    for frame in out.chunks_mut(channels.max(1)) {
        mixer.next_frame(&mut frame_samples);
        let mut sum = 0.0f32;
        for s in &frame_samples {
            sum += s;
        }
        frame.fill(sum.clamp(-1.0, 1.0));
    }
}

#[test]
fn mixer_sums_voices_and_stops_finished_ones() {
    let mut mixer = Mixer::new();
    let _ = mixer.add(vec![0.25, 0.25, 0.25]);
    let _ = mixer.add(vec![0.5]);
    let mut out = [9.0f32; 4];
    fill(&mut mixer, &mut out, 2);
    assert_eq!(out.map(f32::to_bits), [0.75f32, 0.75, 0.25, 0.25].map(f32::to_bits));
    assert_eq!(mixer.live(), 1);
    let mut rest = [9.0f32; 4];
    fill(&mut mixer, &mut rest, 2);
    assert_eq!(rest.map(f32::to_bits), [0.25f32, 0.25, 0.0, 0.0].map(f32::to_bits));
    assert_eq!(mixer.live(), 0);
}

#[test]
fn mixer_clamps_and_caps_voices() {
    let mut mixer = Mixer::new();
    for _ in 0..(MAX_VOICES + 4) {
        let _ = mixer.add(vec![0.9; 2]);
    }
    assert_eq!(mixer.live(), MAX_VOICES);
    let mut out = [0.0f32; 2];
    fill(&mut mixer, &mut out, 1);
    assert_eq!(out.map(f32::to_bits), [1.0f32, 1.0].map(f32::to_bits));
}

#[test]
fn add_reuses_a_finished_slot_before_evicting_a_live_one() {
    let mut mixer: Mixer<f32> = Mixer::new();
    for i in 0..MAX_VOICES {
        let _ = mixer.add(vec![0.1; if i == 3 { 1 } else { 8 }]);
    }
    let mut out = [0.0f32; 2];
    fill(&mut mixer, &mut out, 1);
    assert_eq!(mixer.live(), MAX_VOICES - 1);
    let _ = mixer.add(vec![0.2; 8]);
    assert_eq!(mixer.live(), MAX_VOICES);
    assert_eq!(mixer.samples(3)[0].to_bits(), 0.2f32.to_bits());
    assert_eq!(mixer.cursor(3), 0);
}

#[test]
fn add_hands_back_the_buffer_it_displaced() {
    let mut mixer: Mixer<f32> = Mixer::new();
    assert!(mixer.add(vec![0.5; 4]).is_empty());
    for _ in 0..MAX_VOICES {
        let _ = mixer.add(vec![0.5; 4]);
    }
    assert_eq!(mixer.add(vec![0.5; 4]).len(), 4);
}

#[test]
fn eviction_takes_the_oldest_voice() {
    let mut mixer: Mixer<f32> = Mixer::new();
    for _ in 0..MAX_VOICES {
        let _ = mixer.add(vec![0.5; 8]);
    }
    let oldest = mixer.oldest();
    assert_eq!(oldest, 0);
    let _ = mixer.add(vec![0.25; 8]);
    assert_eq!(mixer.samples(0)[0].to_bits(), 0.25f32.to_bits());
    assert_eq!(mixer.oldest(), 1);
}

#[test]
fn frames_take_one_sample_per_playing_voice_in_slot_order() {
    let mut mixer: Mixer<u8> = Mixer::new();
    let _ = mixer.add(vec![1, 2]);
    let _ = mixer.add(vec![7]);
    let mut frame = Vec::new();
    mixer.next_frame(&mut frame);
    assert_eq!(frame, vec![1, 7]);
    mixer.next_frame(&mut frame);
    assert_eq!(frame, vec![2]);
    assert!(mixer.done(0) && mixer.done(1));
    mixer.next_frame(&mut frame);
    assert!(frame.is_empty());
}
