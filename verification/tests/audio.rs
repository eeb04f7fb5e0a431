//! The sink, the decode loop, the remote file, the equalizer's state and the
//! analyser's memory.

use ytamp::audio::analyser::{spread_edges, History, FFT_SIZE};
use ytamp::audio::decode::{
    parse_content_range_total, DecodeAction, DecodeEvent, DecodeLoop, RangedSource, ReadPlan,
    SeekTarget, SourceError,
};
use ytamp::audio::sink::{backlog, must_wait, AudioSpec, NullSink, Output};
use ytamp::audio::{EqSpec, EqState};
use ytamp::bits::{Double, Single};

fn double(x: f64) -> Double {
    Double { bits: x.to_bits() }
}

fn single(x: f32) -> Single {
    Single { bits: x.to_bits() }
}

/// A tiny WAV writer (16-bit PCM mono).
fn wav_bytes(rate: u32, secs: f64, hz: f64) -> Vec<u8> {
    let n = (f64::from(rate) * secs) as usize;
    let data_len = (n * 2) as u32;
    let mut out = Vec::with_capacity(44 + data_len as usize);
    out.extend_from_slice(b"RIFF");
    out.extend_from_slice(&(36 + data_len).to_le_bytes());
    out.extend_from_slice(b"WAVE");
    out.extend_from_slice(b"fmt ");
    out.extend_from_slice(&16u32.to_le_bytes());
    out.extend_from_slice(&1u16.to_le_bytes());
    out.extend_from_slice(&1u16.to_le_bytes());
    out.extend_from_slice(&rate.to_le_bytes());
    out.extend_from_slice(&(rate * 2).to_le_bytes());
    out.extend_from_slice(&2u16.to_le_bytes());
    out.extend_from_slice(&16u16.to_le_bytes());
    out.extend_from_slice(b"data");
    out.extend_from_slice(&data_len.to_le_bytes());
    for i in 0..n {
        let t = i as f64 / f64::from(rate);
        let sample = (2.0 * std::f64::consts::PI * hz * t).sin() * 0.4 * f64::from(i16::MAX);
        out.extend_from_slice(&(sample as i16).to_le_bytes());
    }
    out
}

#[test]
fn content_range_totals_parse() {
    assert_eq!(parse_content_range_total("bytes 0-524287/7300000"), Some(7_300_000));
    assert_eq!(parse_content_range_total("bytes */*"), None);
    assert_eq!(parse_content_range_total("garbage"), None);
}

#[test]
fn wav_writes_are_symphonia_readable() {
    let wav = wav_bytes(8000, 0.5, 440.0);
    assert_eq!(&wav[0..4], b"RIFF");
    assert_eq!(&wav[8..12], b"WAVE");
    assert_eq!(wav.len(), 44 + 8000);
}

#[test]
fn a_wav_is_read_whole_through_the_remote_window() {
    let wav = wav_bytes(8000, 0.25, 440.0);
    let mut source = RangedSource::new();
    let mut read = Vec::new();
    loop {
        match source.plan_read(700) {
            ReadPlan::Nothing => break,
            ReadPlan::Copy => read.extend(source.read(700)),
            ReadPlan::Fetch { start, end } => {
                assert_eq!(RangedSource::range_header(start, end), format!("bytes={start}-{end}"));
                let stop = (start as usize + 1000).min(wav.len());
                let body = wav[start as usize..stop].to_vec();
                let range = format!("bytes {}-{}/{}", start, stop - 1, wav.len());
                assert!(source.fill(206, "206 Partial Content", Some(range), body).is_ok());
            }
        }
    }
    assert_eq!(read, wav);
}

#[test]
fn a_remote_seek_keeps_what_it_can_use() {
    let mut source = RangedSource::new();
    assert!(source.fill(200, "200 OK", None, vec![10, 11, 12, 13, 14]).is_ok());
    assert_eq!(source.len, Some(5));
    assert_eq!(source.seek(SeekTarget::Start(2)).ok(), Some(2));
    assert_eq!(source.buffered_ahead(), 3);
    assert_eq!(source.read(2), vec![12, 13]);
    assert_eq!(source.seek(SeekTarget::Current(-4)).ok(), Some(0));
    assert_eq!(source.seek(SeekTarget::End(-1)).ok(), Some(4));
    assert_eq!(source.read(9), vec![14]);
    assert_eq!(source.plan_read(1), ReadPlan::Nothing);
    assert_eq!(source.plan_read(0), ReadPlan::Nothing);
    assert_eq!(source.seek(SeekTarget::Start(99)).ok(), Some(99));
    assert_eq!(source.buffered_ahead(), 0);
    assert_eq!(source.buf.len(), 0);
}

#[test]
fn a_remote_source_says_why_it_refuses() {
    let mut source = RangedSource::new();
    assert_eq!(source.seek(SeekTarget::End(0)), Err(SourceError::LengthUnknown));
    assert_eq!(source.seek(SeekTarget::Current(-1)), Err(SourceError::NegativeSeek));
    let gone = source.fill(403, "403 Forbidden", None, Vec::new());
    assert_eq!(gone, Err(SourceError::Status("403 Forbidden".to_string())));
    assert_eq!(gone.unwrap_err().message(), "stream fetch returned HTTP 403 Forbidden");
    assert!(source.seek(SeekTarget::Start(10)).is_ok());
    let whole = source.fill(200, "200 OK", None, vec![1, 2, 3]);
    assert_eq!(whole, Err(SourceError::RangeIgnored));
    assert_eq!(SourceError::RangeIgnored.message(), "server ignored the Range request");
    assert_eq!(
        SourceError::LengthUnknown.message(),
        "cannot seek from end before the length is known"
    );
    assert_eq!(SourceError::NegativeSeek.message(), "negative seek position");
}

#[test]
fn the_decode_loop_runs_to_the_end() {
    let mut l = DecodeLoop::new(AudioSpec { rate: 8000, channels: 1 });
    assert!(matches!(l.step(DecodeEvent::Continue), DecodeAction::Read));
    assert!(matches!(l.step(DecodeEvent::Packet { ours: false }), DecodeAction::Read));
    assert!(matches!(l.step(DecodeEvent::Packet { ours: true }), DecodeAction::Decode));
    let first = l.step(DecodeEvent::Decoded { rate: 8000, places: 4, channels: 1, frames: 4096 });
    assert!(matches!(first, DecodeAction::Play { fresh: true, reconfigure: false }));
    assert_eq!(l.frames, 4096);
    assert!(matches!(l.step(DecodeEvent::Played), DecodeAction::Control));
    let again = l.step(DecodeEvent::Decoded { rate: 8000, places: 4, channels: 1, frames: 100 });
    assert!(matches!(again, DecodeAction::Play { fresh: false, reconfigure: false }));
    let other = l.step(DecodeEvent::Decoded { rate: 44100, places: 3, channels: 2, frames: 1 });
    assert!(matches!(other, DecodeAction::Play { fresh: true, reconfigure: true }));
    assert!(matches!(l.step(DecodeEvent::Sought { frames: 9 }), DecodeAction::ForgetAndControl));
    assert_eq!(l.frames, 9);
    assert!(matches!(l.step(DecodeEvent::EndOfInput), DecodeAction::Done { ended: true }));
    assert!(l.ended);
}

#[test]
fn a_break_in_the_decode_loop_is_no_end() {
    let mut l = DecodeLoop::new(AudioSpec { rate: 8000, channels: 1 });
    assert!(matches!(l.step(DecodeEvent::Break), DecodeAction::Done { ended: false }));
    assert!(!l.ended);
}

#[test]
fn the_decode_loop_recovers_or_fails() {
    let mut l = DecodeLoop::new(AudioSpec { rate: 8000, channels: 1 });
    assert!(matches!(l.step(DecodeEvent::SeekAsked { known: true }), DecodeAction::Seek));
    assert!(matches!(l.step(DecodeEvent::SeekAsked { known: false }), DecodeAction::Control));
    assert!(matches!(l.step(DecodeEvent::ReadReset), DecodeAction::ResetAndRead));
    assert!(matches!(l.step(DecodeEvent::Corrupt), DecodeAction::Control));
    assert!(matches!(l.step(DecodeEvent::DecodeReset), DecodeAction::ResetAndControl));
    let fails = [
        (
            DecodeEvent::SeekFailed { target: "1.50".to_string(), cause: "no".to_string() },
            "seeking to 1.50s: no",
        ),
        (DecodeEvent::ReadFailed("cut".to_string()), "reading the next audio packet: cut"),
        (DecodeEvent::DecodeFailed("bad".to_string()), "decoding an audio packet: bad"),
    ];
    for (event, wanted) in fails {
        match l.step(event) {
            DecodeAction::Fail(message) => assert_eq!(message, wanted),
            _ => panic!("not a failure"),
        }
    }
}

#[test]
fn unpaced_null_sink_drains_instantly() {
    let mut sink = NullSink::unpaced(AudioSpec { rate: 8000, channels: 1 });
    let started = std::time::Instant::now();
    sink.write(&[0.0f32; 80_000]);
    assert!(started.elapsed() < std::time::Duration::from_millis(500));
    assert_eq!(sink.written_samples(), 80_000);
    assert!(!sink.realtime());
    assert!(NullSink::paced(sink.spec()).realtime());
}

#[test]
fn a_sink_keeps_its_volume_in_range() {
    let mut sink = NullSink::unpaced(AudioSpec { rate: 8000, channels: 1 });
    assert_eq!(sink.volume(), single(1.0));
    sink.set_volume(single(0.25));
    assert_eq!(sink.volume(), single(0.25));
    sink.set_volume(single(7.0));
    assert_eq!(sink.volume(), single(1.0));
    sink.set_volume(single(-7.0));
    assert_eq!(sink.volume(), single(0.0));
}

#[test]
fn spec_math() {
    let spec = AudioSpec { rate: 44_100, channels: 2 };
    assert_eq!(spec.samples_per_sec(), 88_200);
}

#[test]
fn an_output_is_reopened_and_waited_for() {
    let spec = AudioSpec { rate: 44_100, channels: 2 };
    let mut output = Output::new();
    assert!(output.begin_open(&spec));
    let failed = output.finish_open(&spec, Err("none".to_string()));
    assert_eq!(
        failed,
        Err("opening the audio output stream (is a device present?): none".to_string())
    );
    assert!(output.begin_open(&spec));
    assert_eq!(output.finish_open(&spec, Ok(())), Ok(()));
    assert!(output.playing);
    assert!(!output.begin_open(&spec));
    assert!(output.begin_open(&AudioSpec { rate: 48_000, channels: 2 }));
    assert_eq!(output.rate, None);
    assert_eq!(backlog(&spec), 176_400);
    assert!(must_wait(Some(176_401), 176_400));
    assert!(!must_wait(Some(176_400), 176_400));
    assert!(!must_wait(None, 176_400));
}

#[test]
fn filters_are_built_when_something_changed() {
    let mut state = EqState::new();
    assert!(state.rebuild_if_dirty());
    assert!(!state.rebuild_if_dirty());
    state.configure(44_100, 2);
    assert!(state.rebuild_if_dirty());
    state.configure(44_100, 2);
    assert!(!state.rebuild_if_dirty());
    let mut spec = EqSpec::default();
    spec.enabled = true;
    spec.gains_db[4] = double(40.0);
    state.set_spec(spec);
    assert_eq!(state.spec.gains_db[4], double(12.0));
    assert!(state.rebuild_if_dirty());
    state.set_spec(spec);
    assert!(!state.rebuild_if_dirty());
}

#[test]
fn the_history_keeps_the_latest_samples_in_order() {
    let mut history = History::new();
    assert!(!history.is_full());
    for i in 0..FFT_SIZE + 3 {
        history.push(Single { bits: i as u32 });
    }
    assert!(history.is_full());
    let ordered = history.ordered();
    assert_eq!(ordered.len(), FFT_SIZE);
    assert_eq!(ordered[0].bits, 3);
    assert_eq!(ordered[FFT_SIZE - 1].bits, (FFT_SIZE + 2) as u32);
    history.reset();
    assert!(!history.is_full());
}

#[test]
fn band_edges_are_spread_until_they_rise() {
    let mut edges = vec![1, 1, 1, 5, 5, 4];
    spread_edges(&mut edges);
    assert_eq!(edges, vec![1, 2, 3, 5, 6, 7]);
}
