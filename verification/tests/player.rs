//! The player's core: the queue, sessions, and what their ends lead to.

use ytamp::audio::EqSpec;
use ytamp::bits::{Double, Single};
use ytamp::model::{PlayerCommand, Track};
use ytamp::player::{finish_session, supervise, CoreState, PacketAction, Session, SessionEnd};

fn double(x: f64) -> Double {
    Double { bits: x.to_bits() }
}

fn single(x: f32) -> Single {
    Single { bits: x.to_bits() }
}

fn track(id: &str) -> Track {
    Track {
        video_id: id.to_string(),
        title: format!("Track {id}"),
        artist: "Tester".into(),
        album: None,
        duration_secs: Some(2),
        thumb_url: None,
    }
}

#[test]
fn engine_plays_a_queue_end_to_end() {
    let mut core = CoreState::new();
    let mut spawned = 0;
    let started = core.handle_command(PlayerCommand::QueueReplace(
        vec![track("aaaaaaaaaaa"), track("bbbbbbbbbbb")],
        Some(0),
    ));
    assert!(started);
    assert!(core.snapshot().playing, "must reach playing state");

    let (first, playing) = supervise(&mut spawned, core.generation, &core).unwrap();
    assert_eq!(playing.video_id, "aaaaaaaaaaa");
    assert!(supervise(&mut spawned, core.generation, &core).is_none());
    let mut session = Session::new(first, playing.duration_secs);
    assert!(matches!(session.pre_packet(&mut core, false).0, PacketAction::Play { .. }));
    let state = session.post_packet(&mut core, 0, double(0.5), None).unwrap();
    assert_eq!(state.position_secs, double(0.5));
    assert_eq!(state.duration_secs, Some(double(2.0)));
    assert!(session.post_packet(&mut core, 249, double(0.7), None).is_none());
    assert!(session.post_packet(&mut core, 250, double(0.8), None).is_some());
    session.on_end(&mut core, double(2.0));

    // The first track ends and the second plays by itself.
    let outcome = finish_session(&mut core, first, &playing, SessionEnd::Ended);
    assert!(outcome.error.is_none());
    let (second, playing) = supervise(&mut spawned, outcome.announce.unwrap(), &core).unwrap();
    assert_eq!(playing.video_id, "bbbbbbbbbbb", "auto-advance to the second track");
    assert!(matches!(session.pre_packet(&mut core, false).0, PacketAction::Break));

    // The queue ends and nothing plays.
    finish_session(&mut core, second, &playing, SessionEnd::Ended);
    assert!(!core.snapshot().playing, "must stop after the queue drains");
    assert!(core.current_generation().is_none());
}

#[test]
fn pause_freezes_position_and_resume_continues() {
    let mut core = CoreState::new();
    core.handle_command(PlayerCommand::QueueReplace(vec![track("ccccccccccc")], Some(0)));
    let mut session = Session::new(core.generation, None);
    session.post_packet(&mut core, 0, double(0.4), Some(double(2.0)));
    assert!(core.snapshot().playing);

    core.handle_command(PlayerCommand::Pause);
    let frozen = core.snapshot();
    assert!(!frozen.playing);
    let (action, sink) = session.pre_packet(&mut core, false);
    assert!(matches!(action, PacketAction::Wait { .. }));
    assert_eq!(sink, Some(true));
    assert_eq!(session.pre_packet(&mut core, false).1, None);
    assert_eq!(core.snapshot().position_secs, frozen.position_secs);

    core.handle_command(PlayerCommand::Resume);
    let (action, sink) = session.pre_packet(&mut core, false);
    assert!(matches!(action, PacketAction::Play { .. }));
    assert_eq!(sink, Some(false));
    let resumed = core.snapshot();
    assert!(resumed.playing);
    assert_eq!(resumed.position_secs, frozen.position_secs);
}

#[test]
fn volume_and_eq_commands_are_answered_with_state() {
    let mut core = CoreState::new();
    core.handle_command(PlayerCommand::SetVolume(single(0.4)));
    assert_eq!(core.snapshot().volume, single(0.4));
    core.handle_command(PlayerCommand::SetVolume(single(4.0)));
    assert_eq!(core.snapshot().volume, single(1.0));

    let mut gains_db = [double(0.0); 10];
    gains_db[0] = double(6.0);
    core.handle_command(PlayerCommand::SetEq { enabled: true, gains_db, preamp_db: double(0.0) });
    core.handle_command(PlayerCommand::QueueReplace(vec![track("ddddddddddd")], Some(0)));
    assert!(core.snapshot().playing, "engine still plays after EQ changes");
    let mut session = Session::new(core.generation, None);
    match session.pre_packet(&mut core, false).0 {
        PacketAction::Play { eq, volume } => {
            assert!(eq.enabled);
            assert_eq!(eq.gains_db[0], double(6.0));
            assert_eq!(volume, single(1.0));
        }
        _ => panic!("does not play"),
    }
    assert!(!EqSpec::default().enabled);
}

#[test]
fn a_seek_is_handed_out_once() {
    let mut core = CoreState::new();
    core.handle_command(PlayerCommand::QueueReplace(vec![track("e")], Some(0)));
    core.handle_command(PlayerCommand::SeekRatio(double(0.5)));
    let mut session = Session::new(core.generation, None);
    match session.pre_packet(&mut core, false).0 {
        PacketAction::Seek(ratio) => assert_eq!(ratio, double(0.5)),
        _ => panic!("no seek"),
    }
    assert!(matches!(session.pre_packet(&mut core, false).0, PacketAction::Play { .. }));
    assert!(matches!(session.pre_packet(&mut core, true).0, PacketAction::Break));
}

#[test]
fn failed_sessions_say_why_and_stop() {
    let mut core = CoreState::new();
    core.handle_command(PlayerCommand::QueueReplace(vec![track("f")], Some(0)));
    let g = core.generation;
    let outcome = finish_session(&mut core, g, &track("f"), SessionEnd::OpenFailed("gone".into()));
    assert_eq!(outcome.error.as_deref(), Some("couldn't open Tester — Track f: gone"));
    assert!(outcome.announce.is_some());
    assert!(!core.snapshot().playing);

    core.handle_command(PlayerCommand::PlayAt(0));
    let g = core.generation;
    let outcome = finish_session(&mut core, g, &track("f"), SessionEnd::Failed("cut".into()));
    assert_eq!(outcome.error.as_deref(), Some("playback failed: cut"));

    core.handle_command(PlayerCommand::PlayAt(0));
    let g = core.generation;
    let outcome = finish_session(&mut core, g, &track("f"), SessionEnd::Broken);
    assert!(outcome.error.is_none() && outcome.announce.is_none());
    assert!(core.snapshot().playing);
}

#[test]
fn a_superseded_session_changes_nothing() {
    let mut core = CoreState::new();
    core.handle_command(PlayerCommand::QueueReplace(vec![track("g"), track("h")], Some(0)));
    let mut stale = Session::new(core.generation, Some(9));
    core.handle_command(PlayerCommand::Next);
    assert!(stale.post_packet(&mut core, 0, double(1.0), None).is_none());
    assert_eq!(core.snapshot().position_secs, double(0.0));
    let g = stale.generation;
    let outcome = finish_session(&mut core, g, &track("g"), SessionEnd::Ended);
    assert!(outcome.announce.is_none());
    assert_eq!(core.snapshot().queue_index, Some(1));
}

#[test]
fn previous_and_next_walk_the_queue() {
    let mut core = CoreState::new();
    core.handle_command(PlayerCommand::QueueReplace(vec![track("i"), track("j")], Some(1)));
    core.handle_command(PlayerCommand::Prev);
    assert_eq!(core.snapshot().queue_index, Some(0));
    core.handle_command(PlayerCommand::Next);
    assert_eq!(core.snapshot().queue_index, Some(1));
    core.handle_command(PlayerCommand::QueueAppend(vec![track("k")]));
    assert_eq!(core.snapshot().queue.len(), 3);
    core.handle_command(PlayerCommand::Stop);
    assert!(!core.snapshot().playing);
    core.stop_everything();
    assert!(core.current_generation().is_none());
}

#[test]
fn a_hinted_length_waits_for_the_real_one() {
    let mut core = CoreState::new();
    core.handle_command(PlayerCommand::QueueReplace(vec![track("l")], Some(0)));
    let g = core.generation;
    core.seed_duration(g, Some(226));
    assert_eq!(core.snapshot().duration_secs, Some(double(226.0)));
    core.seed_duration(g, Some(7));
    assert_eq!(core.snapshot().duration_secs, Some(double(226.0)));
    let mut session = Session::new(g, Some(226));
    session.post_packet(&mut core, 0, double(1.0), Some(double(226.4)));
    assert_eq!(core.snapshot().duration_secs, Some(double(226.4)));
}
