use lyre_sample::sample::{AddError, DecodeError, Sample, SampleManager, MAX_FRAMES};
use lyre_sample::sfz::{
    Instrument, InstrumentError, Region, RegionAttribute, RegionError, TimedMidi, PRESS_VOLUME,
};
use lyre_sample::voice::{interpolate, KeyState, LoopMode, Voice, FULL_SCALE, POSITION_ONE};

fn constant_sample(path: &str, frames: usize, value: i32) -> Sample {
    Sample {
        path: path.to_string(),
        left: vec![value; frames],
        right: vec![value; frames],
    }
}

fn region(sample: usize, low_key: u8, high_key: u8, release_micros: u32) -> Region {
    Region {
        sample,
        pitch_keycenter: 60,
        low_key,
        high_key,
        low_velocity: 0,
        high_velocity: 127,
        release_micros,
        loop_mode: LoopMode::NoLoop,
    }
}

fn note_on(offset: usize, note: u8, velocity: u8) -> TimedMidi {
    TimedMidi { offset, bytes: vec![0x90, note, velocity] }
}

fn note_off(offset: usize, note: u8, velocity: u8) -> TimedMidi {
    TimedMidi { offset, bytes: vec![0x80, note, velocity] }
}

const FULL: i64 = PRESS_VOLUME * FULL_SCALE as i64;

#[test]
fn key_state_activity() {
    assert!(KeyState::Play.is_active());
    assert!(KeyState::Release.is_active());
    assert!(!KeyState::Done.is_active());
}

#[test]
fn region_match_is_inclusive() {
    let mut r = region(0, 40, 50, 0);
    r.low_velocity = 10;
    r.high_velocity = 20;
    assert!(r.is_relevant(40, 10));
    assert!(r.is_relevant(50, 20));
    assert!(r.is_relevant(45, 15));
    assert!(!r.is_relevant(39, 15));
    assert!(!r.is_relevant(51, 15));
    assert!(!r.is_relevant(45, 9));
    assert!(!r.is_relevant(45, 21));
    assert!(r.note_is_relevant(40));
    assert!(!r.note_is_relevant(51));
}

#[test]
fn press_at_key_center_and_octave() {
    let r = region(0, 0, 127, 0);
    assert_eq!(r.press(60, 100).position_delta, POSITION_ONE);
    assert_eq!(r.press(72, 100).position_delta, 2 * POSITION_ONE);
    assert_eq!(r.press(48, 100).position_delta, POSITION_ONE / 2);
    // a fifth above: 2^(7/12)
    assert_eq!(r.press(67, 100).position_delta, 98193);
    let v = r.press(61, 1);
    assert_eq!(v.volume, PRESS_VOLUME);
    assert_eq!(v.state, KeyState::Play);
    assert_eq!(v.position, 0);
}

#[test]
fn press_release_step() {
    // 0.01 s at 44100 Hz is 441 frames
    let v = region(0, 0, 127, 10_000).press(60, 100);
    assert_eq!(v.release_step, 15218);
    // no release time fades out in one frame
    let v = region(0, 0, 127, 0).press(60, 100);
    assert_eq!(v.release_step, PRESS_VOLUME);
}

#[test]
fn interpolate_constant_and_between() {
    let data = vec![1000, 1000, 1000];
    for frac in [0u64, 1, 30000, 65535] {
        assert_eq!(interpolate(&data, 0, frac), 1000);
        assert_eq!(interpolate(&data, 1, frac), 1000);
    }
    let ramp = vec![0, 65536, -65536];
    assert_eq!(interpolate(&ramp, 0, 16384), 16384);
    assert_eq!(interpolate(&ramp, 1, 32768), 0);
    // past the end reads silence
    assert_eq!(interpolate(&ramp, 2, 32768), -32768);
    assert_eq!(interpolate(&ramp, 5, 0), 0);
}

#[test]
fn releasing_voice_fades_within_release_time() {
    let sample = constant_sample("a", 100_000, FULL_SCALE);
    let mut v: Voice = region(0, 0, 127, 10_000).press(60, 100);
    v.release();
    assert_eq!(v.state, KeyState::Release);
    let mut last = v.volume;
    let mut frames = 0;
    while v.state != KeyState::Done {
        let (l, _) = v.render_one(&sample);
        assert!(l > 0);
        frames += 1;
        if v.state == KeyState::Release {
            assert!(v.volume < last);
        }
        last = v.volume;
    }
    assert!(frames <= 441);
    assert!(frames >= 440);
    assert_eq!(v.render_one(&sample), (0, 0));
}

#[test]
fn one_shot_ignores_release() {
    let mut r = region(0, 0, 127, 0);
    r.loop_mode = LoopMode::OneShot;
    let mut v = r.press(60, 100);
    v.release();
    assert_eq!(v.state, KeyState::Play);
}

#[test]
fn voice_stops_at_sample_end() {
    let sample = constant_sample("a", 2, 100);
    // an octave down: half a frame per output sample
    let mut v = region(0, 0, 127, 0).press(48, 100);
    assert_eq!(v.render_one(&sample).0, PRESS_VOLUME * 100);
    assert_eq!(v.render_one(&sample).0, PRESS_VOLUME * 100);
    assert_eq!(v.render_one(&sample).0, PRESS_VOLUME * 100);
    // between the last frame and the silence past the end
    assert_eq!(v.render_one(&sample).0, PRESS_VOLUME * 50);
    assert_eq!(v.render_one(&sample), (0, 0));
    assert_eq!(v.state, KeyState::Done);
}

#[test]
fn silent_block_without_voices() {
    let samples = vec![constant_sample("a", 10, FULL_SCALE)];
    let mut ins = Instrument::new(samples, vec![region(0, 60, 60, 0)]).unwrap();
    let mut l = vec![7i64; 64];
    let mut r = vec![7i64; 64];
    ins.play(&Vec::new(), &mut l, &mut r);
    assert_eq!(l, vec![0i64; 64]);
    assert_eq!(r, vec![0i64; 64]);
}

#[test]
fn end_to_end_note_on_and_release() {
    let samples = vec![constant_sample("a", 1000, FULL_SCALE)];
    let mut ins = Instrument::new(samples, vec![region(0, 60, 60, 10_000)]).unwrap();
    let events = vec![note_on(0, 60, 100), note_off(500, 60, 100)];
    let mut l = vec![0i64; 1000];
    let mut r = vec![0i64; 1000];
    ins.play(&events, &mut l, &mut r);
    assert_eq!(l[0], FULL);
    assert_eq!(l[499], FULL);
    assert_eq!(l[500], FULL);
    assert_eq!(l[501], (PRESS_VOLUME - 15218) * FULL_SCALE as i64);
    assert_eq!(l[940], (PRESS_VOLUME - 440 * 15218) * FULL_SCALE as i64);
    assert_eq!(l[941], 0);
    assert_eq!(l[999], 0);
    for i in 501..941 {
        assert!(l[i] < l[i - 1]);
    }
    assert_eq!(l, r);
    assert_eq!(ins.voice_count(60), 0);
}

#[test]
fn events_apply_at_their_offset() {
    let samples = vec![constant_sample("a", 1000, FULL_SCALE)];
    let mut ins = Instrument::new(samples, vec![region(0, 60, 60, 0)]).unwrap();
    let events = vec![note_on(3, 60, 100)];
    let mut l = vec![0i64; 6];
    let mut r = vec![0i64; 8];
    ins.play(&events, &mut l, &mut r);
    assert_eq!(l, vec![0, 0, 0, FULL, FULL, FULL]);
    assert_eq!(r, vec![0, 0, 0, FULL, FULL, FULL, 0, 0]);
    assert_eq!(ins.voice_count(60), 1);
}

#[test]
fn layered_regions_and_unmatched_notes() {
    let samples = vec![constant_sample("a", 100, 1000), constant_sample("b", 100, 10)];
    let regions = vec![region(0, 50, 70, 0), region(1, 60, 60, 0)];
    let mut ins = Instrument::new(samples, regions).unwrap();
    let events = vec![note_on(0, 60, 100), note_on(0, 55, 100), note_on(0, 80, 100)];
    let mut l = vec![0i64; 1];
    let mut r = vec![0i64; 1];
    ins.play(&events, &mut l, &mut r);
    // 55 is pressed an octave minus five semitones below... still at frame 0
    assert_eq!(l[0], PRESS_VOLUME * (1000 + 10 + 1000));
    assert_eq!(ins.voice_count(60), 2);
    assert_eq!(ins.voice_count(55), 1);
    assert_eq!(ins.voice_count(80), 0);
}

#[test]
fn note_on_with_zero_velocity_releases() {
    let samples = vec![constant_sample("a", 1000, FULL_SCALE)];
    let mut ins = Instrument::new(samples, vec![region(0, 60, 60, 0)]).unwrap();
    let events = vec![note_on(0, 60, 100), note_on(2, 60, 0)];
    let mut l = vec![0i64; 4];
    let mut r = vec![0i64; 4];
    ins.play(&events, &mut l, &mut r);
    assert_eq!(l, vec![FULL, FULL, FULL, 0]);
    assert_eq!(ins.voice_count(60), 0);
}

#[test]
fn malformed_and_other_events_are_skipped() {
    let samples = vec![constant_sample("a", 1000, FULL_SCALE)];
    let mut ins = Instrument::new(samples, vec![region(0, 60, 60, 0)]).unwrap();
    let events = vec![
        TimedMidi { offset: 0, bytes: vec![] },
        TimedMidi { offset: 0, bytes: vec![0x90, 60] },
        TimedMidi { offset: 0, bytes: vec![0x3C, 60, 100] },
        TimedMidi { offset: 0, bytes: vec![0xB0, 7, 100] },
        TimedMidi { offset: 1, bytes: vec![0x91, 60, 100] },
    ];
    let mut l = vec![0i64; 2];
    let mut r = vec![0i64; 2];
    ins.play(&events, &mut l, &mut r);
    assert_eq!(l, vec![0, FULL]);
}

#[test]
fn note_off_without_voices_is_noop() {
    let samples = vec![constant_sample("a", 1000, FULL_SCALE)];
    let mut ins = Instrument::new(samples, vec![region(0, 60, 60, 0)]).unwrap();
    let mut l = vec![0i64; 4];
    let mut r = vec![0i64; 4];
    ins.play(&vec![note_off(0, 61, 0), note_off(0, 60, 0)], &mut l, &mut r);
    assert_eq!(l, vec![0; 4]);
    assert_eq!(ins.voice_count(60), 0);
    assert_eq!(ins.voice_count(61), 0);
    ins.play(&vec![note_on(0, 60, 9), note_off(1, 61, 0)], &mut l, &mut r);
    assert_eq!(l, vec![FULL; 4]);
    assert_eq!(ins.voice_count(60), 1);
}

#[test]
fn full_note_retires_oldest_voice() {
    let samples = vec![constant_sample("a", 1000, 1)];
    let mut ins = Instrument::new(samples, vec![region(0, 60, 60, 0)]).unwrap();
    let events: Vec<TimedMidi> = (0..10).map(|i| note_on(i, 60, 100)).collect();
    let mut l = vec![0i64; 12];
    let mut r = vec![0i64; 12];
    ins.play(&events, &mut l, &mut r);
    assert_eq!(l[7], PRESS_VOLUME * 8);
    assert_eq!(l[8], PRESS_VOLUME * 8);
    assert_eq!(l[11], PRESS_VOLUME * 8);
    assert_eq!(ins.voice_count(60), 8);
}

#[test]
fn instrument_rejects_bad_input() {
    let bad = Sample { path: "x".to_string(), left: vec![0, 1], right: vec![0] };
    assert_eq!(
        Instrument::new(vec![bad], vec![]).err(),
        Some(InstrumentError::InvalidSample { index: 0 })
    );
    let loud = constant_sample("y", 1, FULL_SCALE + 1);
    assert_eq!(
        Instrument::new(vec![constant_sample("a", 1, 0), loud], vec![]).err(),
        Some(InstrumentError::InvalidSample { index: 1 })
    );
    assert_eq!(
        Instrument::new(vec![constant_sample("a", 1, 0)], vec![region(0, 0, 1, 0), region(1, 0, 1, 0)]).err(),
        Some(InstrumentError::InvalidRegion { index: 1 })
    );
    let mut high = region(0, 0, 1, 0);
    high.pitch_keycenter = 128;
    assert_eq!(
        Instrument::new(vec![constant_sample("a", 1, 0)], vec![high]).err(),
        Some(InstrumentError::InvalidRegion { index: 0 })
    );
    let ins = Instrument::new(vec![constant_sample("a", 1, 0)], vec![region(0, 0, 1, 0)]).unwrap();
    assert_eq!(ins.region_count(), 1);
    assert!(MAX_FRAMES > 0);
}

#[test]
fn register_same_sample_twice() {
    let mut store = SampleManager::new();
    assert_eq!(store.add(constant_sample("piano/c4.wav", 4, 0)), Ok(0));
    assert!(store.is_loaded(&"piano/c4.wav".to_string()));
    assert_eq!(
        store.add(constant_sample("piano/c4.wav", 8, 1)),
        Err(AddError::AlreadyLoaded)
    );
    assert_eq!(store.len(), 1);
    assert_eq!(store.add(constant_sample("piano/d4.wav", 4, 0)), Ok(1));
    assert!(!store.is_loaded(&"piano/e4.wav".to_string()));
    let samples = store.into_samples();
    assert_eq!(samples.len(), 2);
    assert_eq!(samples[0].left.len(), 4);
}

#[test]
fn region_from_attributes() {
    let attrs = vec![
        RegionAttribute::Sample(3),
        RegionAttribute::LowKey(10),
        RegionAttribute::HighKey(20),
        RegionAttribute::LowVelocity(5),
        RegionAttribute::HighVelocity(100),
        RegionAttribute::Unsupported,
        RegionAttribute::PitchKeycenter(15),
        RegionAttribute::AmpegRelease(250_000),
        RegionAttribute::LoopMode(LoopMode::OneShot),
        RegionAttribute::HighKey(30),
    ];
    let r = Region::from_attributes(&attrs).unwrap();
    assert_eq!(r.sample, 3);
    assert_eq!((r.low_key, r.high_key), (10, 30));
    assert_eq!((r.low_velocity, r.high_velocity), (5, 100));
    assert_eq!(r.pitch_keycenter, 15);
    assert_eq!(r.release_micros, 250_000);
    assert_eq!(r.loop_mode, LoopMode::OneShot);
    let d = Region::from_attributes(&vec![RegionAttribute::Sample(0)]).unwrap();
    assert_eq!((d.sample, d.low_key, d.high_key, d.pitch_keycenter), (0, 0, 0, 60));
    assert_eq!(d.loop_mode, LoopMode::NoLoop);
    assert_eq!(d.release_micros, 0);
}

#[test]
fn interleaved_frames_split_and_scale() {
    let s = Sample::from_interleaved("a.wav".to_string(), 2, 16, &vec![1, -2, 3, 4, 5]).unwrap();
    assert_eq!(s.left, vec![256, 768]);
    assert_eq!(s.right, vec![-512, 1024]);
    assert_eq!(s.path, "a.wav");
    let s = Sample::from_interleaved("b".to_string(), 2, 24, &vec![8388607, -8388608]).unwrap();
    assert_eq!((s.left[0], s.right[0]), (8388607, -8388608));
    assert_eq!(
        Sample::from_interleaved("c".to_string(), 1, 16, &vec![1]).err(),
        Some(DecodeError::UnsupportedChannels)
    );
    assert_eq!(
        Sample::from_interleaved("c".to_string(), 2, 33, &vec![1, 1]).err(),
        Some(DecodeError::UnsupportedBitDepth)
    );
    assert_eq!(
        Sample::from_interleaved("c".to_string(), 2, 0, &vec![1, 1]).err(),
        Some(DecodeError::UnsupportedBitDepth)
    );
    assert_eq!(
        Sample::from_interleaved("c".to_string(), 2, 16, &vec![0, 40000]).err(),
        Some(DecodeError::OutOfRange)
    );
    let empty = Sample::from_interleaved("d".to_string(), 2, 8, &vec![]).unwrap();
    assert!(empty.left.is_empty() && empty.right.is_empty());
}

#[test]
fn region_without_sample_is_refused() {
    assert_eq!(Region::from_attributes(&Vec::new()).err(), Some(RegionError::MissingSample));
    let attrs = vec![RegionAttribute::LowKey(1), RegionAttribute::Unsupported];
    assert_eq!(Region::from_attributes(&attrs).err(), Some(RegionError::MissingSample));
}

#[test]
fn deep_integer_frames_scale_down() {
    let s = Sample::from_interleaved("e".to_string(), 2, 32, &vec![i32::MIN, i32::MAX, 256, -256]).unwrap();
    assert_eq!(s.left, vec![-8388608, 1]);
    assert_eq!(s.right, vec![8388607, -1]);
    // rounding toward negative infinity
    let s = Sample::from_interleaved("f".to_string(), 2, 25, &vec![-3, 5]).unwrap();
    assert_eq!((s.left[0], s.right[0]), (-2, 2));
    let s = Sample::from_interleaved("g".to_string(), 2, 28, &vec![-1, 15]).unwrap();
    assert_eq!((s.left[0], s.right[0]), (-1, 0));
    assert_eq!(
        Sample::from_interleaved("h".to_string(), 2, 25, &vec![0, 1 << 30]).err(),
        Some(DecodeError::OutOfRange)
    );
}
