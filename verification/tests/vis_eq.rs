//! The visualiser's bars and the equalizer's presets.

use ytamp::bits::Double;
use ytamp::eq::{
    preset, presets, EqSettings, EqTracker, PRESET_COUNT, RANGE_TENTHS, WINAMP_PRESET_COUNT,
};
use ytamp::vis::{heard, spread, Analyser, Bar, BARS, STEP_NS};

fn double(x: f64) -> Double {
    Double { bits: x.to_bits() }
}

/// The rows that the bars reach for bands of these levels.
fn rows(levels: &[f32]) -> [u8; 19] {
    let reached: Vec<u8> = levels.iter().map(|l| (l.clamp(0.0, 1.0) * 15.0).trunc() as u8).collect();
    spread(&reached)
}

fn heights(bars: &[Bar]) -> Vec<u8> {
    bars.iter().map(|b| b.height).collect()
}

#[test]
fn a_fast_frame_rate_leaves_the_bars_alone() {
    let mut analyser = Analyser::new();
    let loud = rows(&[0.9; BARS]);
    let silence = rows(&[0.0; BARS]);
    let start: u64 = 1_000_000_000;
    let bars = analyser.step(&loud, start);
    for i in 1..12 {
        let again = analyser.step(&silence, start + i * 1_000_000);
        assert_eq!(heights(&again), heights(&bars));
    }
    let moved = analyser.step(&silence, start + STEP_NS);
    assert!(moved.iter().zip(bars.iter()).any(|(after, before)| after.height < before.height));
}

#[test]
fn bars_rise_with_sound_and_fall_without() {
    let mut analyser = Analyser::new();
    let mut at: u64 = 1_000_000_000;
    let mut tick = || {
        at += STEP_NS;
        at
    };
    let levels: Vec<f32> = (0..BARS).map(|i| 0.3 + 0.6 * ((i % 7) as f32 / 7.0)).collect();
    let loud = rows(&levels);
    let bars = analyser.step(&loud, tick());
    let tallest = bars.iter().map(|bar| bar.height).max().unwrap();
    assert!(tallest > 0, "no bar rose to the sound");
    assert!(tallest <= 15);
    assert!(!analyser.settled());

    let silence = rows(&[0.0; BARS]);
    let after = analyser.step(&silence, tick());
    let lower = bars.iter().zip(after.iter()).all(|(before, after)| after.height <= before.height);
    assert!(lower, "bars rose in silence");
    let with_peak = after.iter().find(|bar| bar.peak.is_some()).unwrap();
    assert!(with_peak.peak.unwrap() > with_peak.height);
    for _ in 0..400 {
        analyser.step(&silence, tick());
    }
    assert!(analyser.settled());
    assert!(
        analyser
            .step(&silence, tick())
            .iter()
            .all(|bar| bar.height == 0 && bar.peak.is_none())
    );
}

#[test]
fn a_short_or_empty_input_reads_as_silence() {
    let mut analyser = Analyser::new();
    let mut at: u64 = 1_000_000_000;
    let mut tick = || {
        at += STEP_NS;
        at
    };
    analyser.step(&rows(&[0.9; BARS]), tick());
    let short = analyser.step(&rows(&[0.9, 0.9]), tick());
    assert!(short.iter().all(|bar| bar.height > 0));
    assert!(short[0].height > short[2].height, "the bars without a band fall");
    analyser.reset();
    assert!(analyser.settled());
    let empty = analyser.step(&rows(&[]), tick());
    assert!(empty.iter().all(|bar| bar.height == 0 && bar.peak.is_none()));
}

/// The same steps in floating point, as the bars were first described.
#[test]
fn the_bars_move_as_their_floating_point_description_does() {
    let mut analyser = Analyser::new();
    let (mut falloff, mut peak, mut speed) = (0.0f32, 0i32, 0.0f32);
    let mut now: u64 = 5_000_000_000;
    let levels: Vec<u8> = (0..600).map(|i| if i % 97 < 5 { (i % 16) as u8 } else { 0 }).collect();
    for level in levels {
        let target = f32::from(level);
        falloff -= 0.75;
        if falloff <= target {
            falloff = target;
        }
        if peak <= (falloff * 256.0).round() as i32 {
            peak = (falloff * 256.0) as i32;
            speed = 3.0;
        }
        let row = peak / 256;
        peak -= speed.round() as i32;
        speed *= 1.1;
        if peak <= 0 {
            peak = 0;
        }
        let bars = analyser.step(&[level; 19], now);
        now += STEP_NS;
        assert_eq!(bars[3].height, falloff.round() as u8);
        assert_eq!(bars[3].peak, if row >= 1 { Some((row + 1) as u8) } else { None });
    }
}

#[test]
fn every_preset_stays_within_the_range() {
    assert_eq!(preset(0).name, "Flat");
    assert_eq!(preset(WINAMP_PRESET_COUNT - 1).name, "Techno");
    let all = presets();
    assert_eq!(all.len(), PRESET_COUNT);
    for p in all {
        assert!(
            p.gains_tenths.iter().all(|band| band.abs() <= RANGE_TENTHS),
            "{} leaves the range",
            p.name
        );
    }
}

#[test]
fn settings_are_clamped_band_by_band() {
    let settings = EqSettings {
        preamp_db: double(20.0),
        gains_db: [double(20.0); 10],
        ..EqSettings::default()
    };
    let clamped = settings.clamped();
    assert_eq!(clamped.preamp_db, double(12.0));
    assert!(clamped.gains_db.iter().all(|band| *band == double(12.0)));
    let low = EqSettings { preamp_db: double(-20.0), ..EqSettings::default() };
    assert_eq!(low.clamped().preamp_db, double(-12.0));
    let kept = EqSettings { preamp_db: double(-3.5), ..EqSettings::default() };
    assert_eq!(kept.clamped().preamp_db, double(-3.5));
}

#[test]
fn filters_are_shaped_for_their_rate_and_rebuilt_on_change() {
    let mut tracker = EqTracker::new(48_000);
    assert_eq!(tracker.sample_rate(), 48_000);
    assert!(!tracker.set(false, [double(-0.0); 10], double(0.0)));
    assert!(tracker.set(true, [double(99.0); 10], double(0.0)));
    assert_eq!(tracker.settings().gains_db[3], double(12.0));
    assert!(!tracker.set(true, [double(12.0); 10], double(0.0)));
    assert!(tracker.set(true, [double(12.0); 10], double(-1.0)));
}

#[test]
fn bands_are_padded_and_a_lone_one_fills_every_bar() {
    let wild = rows(&[2.0, -1.0]);
    assert_eq!(wild[0], 15);
    assert!(wild[1..].iter().all(|row| *row == 0));
    assert_eq!(rows(&[]), [0; BARS]);
    assert_eq!(rows(&[0.5]), [7; BARS]);
    let each: Vec<u8> = (0..15).chain(0..4).collect();
    assert_eq!(spread(&each)[..], each[..]);
}

#[test]
fn nothing_playing_reads_as_silence() {
    let mut two = [0; BARS];
    two[0] = 9;
    two[1] = 3;
    assert_eq!(heard(true, &[9, 3]), two);
    assert_eq!(heard(false, &[9, 3]), [0; BARS]);
}
