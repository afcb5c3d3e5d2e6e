use zeedle::catalog::{ScannedFile, SortKey, TagInfo};
use zeedle::history::{History, TriggerSource};
use zeedle::lyrics::parse_lyrics;
use zeedle::player::{Effect, PlayMode, Player, SeekError};

fn files(n: usize) -> Vec<ScannedFile> {
    (0..n)
        .map(|i| ScannedFile {
            path: format!("/lib/{}.mp3", i),
            tags: Some(TagInfo {
                title: Some(format!("Track {}", i)),
                artist: None,
                duration_secs: 60 + i as u32,
            }),
        })
        .collect()
}

fn session(n: usize, mode: PlayMode) -> Player {
    let (p, effect) = Player::start(&files(n), SortKey::Title, true, mode, None, 0, "en".to_string());
    assert_eq!(effect, Effect::Cue("/lib/0.mp3".to_string(), 0));
    p
}

fn current_id(p: &Player) -> usize {
    p.current.as_ref().unwrap().id
}

#[test]
fn in_order_next_wraps_around() {
    let mut p = session(3, PlayMode::InOrder);
    let mut played = Vec::new();
    for _ in 0..3 {
        let effect = p.next();
        played.push(current_id(&p));
        assert_eq!(effect, Effect::Load(p.current.as_ref().unwrap().path.clone()));
    }
    assert_eq!(played, vec![1, 2, 0]);
    assert_eq!(p.history.len(), 4);
    assert_eq!(p.history.rewind, 0);
}

#[test]
fn seek_past_the_end_is_clamped() {
    let mut p = session(2, PlayMode::InOrder);
    p.play(p.catalog[1].clone(), TriggerSource::UserSelected);
    assert_eq!(p.duration, 6100);
    assert_eq!(p.seek(999_999), Effect::Seek(6100));
    assert_eq!(p.seek(1200), Effect::Seek(1200));
    assert_eq!(p.finish_seek(6100, Ok(())), Ok(()));
    assert_eq!(p.elapsed, 6100);
}

#[test]
fn accepted_seek_past_the_end_stops_at_the_end() {
    let mut p = session(1, PlayMode::InOrder);
    p.play(p.catalog[0].clone(), TriggerSource::UserSelected);
    assert_eq!(p.finish_seek(999_999, Ok(())), Ok(()));
    assert_eq!(p.elapsed, 6000);
}

#[test]
fn poll_keeps_elapsed_within_the_length() {
    let mut p = session(1, PlayMode::InOrder);
    p.play(p.catalog[0].clone(), TriggerSource::UserSelected);
    let report = p.poll(6150, false);
    assert_eq!(p.elapsed, 6000);
    assert_eq!(report.progress_text, "01:00 / 01:00");
}

#[test]
fn refused_seek_keeps_the_position() {
    let mut p = session(1, PlayMode::InOrder);
    p.play(p.catalog[0].clone(), TriggerSource::UserSelected);
    p.finish_seek(500, Ok(())).unwrap();
    let refused = SeekError { reason: "not seekable".to_string() };
    assert_eq!(p.finish_seek(900, Err(refused)), Err(SeekError { reason: "not seekable".to_string() }));
    assert_eq!(p.elapsed, 500);
}

#[test]
fn seek_without_a_track_does_nothing() {
    let p = Player::idle("en".to_string());
    assert_eq!(p.seek(100), Effect::Nothing);
}

#[test]
fn prev_keeps_history_and_pointer_in_range() {
    let mut p = session(3, PlayMode::InOrder);
    p.next();
    p.next();
    let len = p.history.len();
    for _ in 0..5 {
        p.prev();
        assert_eq!(p.history.len(), len);
        assert!(p.history.rewind <= len - 1);
    }
    assert_eq!(p.history.rewind, len - 1);
    assert_eq!(current_id(&p), 0);
}

#[test]
fn back_then_forward_returns_to_the_live_track() {
    let mut p = session(4, PlayMode::InOrder);
    p.next();
    p.next();
    p.next();
    let before = p.current.as_ref().unwrap().path.clone();
    let len = p.history.len();
    for k in 0..len {
        for _ in 0..k {
            p.prev();
        }
        for _ in 0..k {
            p.next();
        }
        assert_eq!(p.current.as_ref().unwrap().path, before);
        assert_eq!(p.history.rewind, 0);
        assert_eq!(p.history.len(), len);
    }
}

#[test]
fn repeat_one_replays_without_growing_history() {
    let mut p = session(3, PlayMode::InOrder);
    p.next();
    p.set_mode(PlayMode::Recursive);
    let len = p.history.len();
    for _ in 0..4 {
        p.next();
        assert_eq!(current_id(&p), 1);
        assert_eq!(p.history.len(), len);
    }
}

#[test]
fn random_next_stays_in_the_catalog() {
    let mut p = session(5, PlayMode::Random);
    for _ in 0..20 {
        p.next();
        assert!(current_id(&p) < 5);
    }
}

#[test]
fn random_pick_is_taken_as_given() {
    let mut p = session(5, PlayMode::Random);
    assert_eq!(p.next_with_pick(3), Effect::Load("/lib/3.mp3".to_string()));
    assert_eq!(current_id(&p), 3);
}

#[test]
fn toggle_on_an_empty_sink_starts_the_first_track() {
    let mut p = session(2, PlayMode::InOrder);
    assert_eq!(p.toggle_pause(true), Effect::Load("/lib/0.mp3".to_string()));
    assert!(!p.paused);
    assert_eq!(p.toggle_pause(false), Effect::Pause);
    assert!(p.paused);
    assert_eq!(p.toggle_pause(false), Effect::Resume);
    assert!(!p.paused);
}

#[test]
fn toggle_with_nothing_to_play_does_nothing() {
    let mut p = Player::idle("en".to_string());
    assert_eq!(p.toggle_pause(true), Effect::Nothing);
    assert!(p.paused);
}

#[test]
fn rescan_to_an_empty_library_resets_the_state() {
    let mut p = session(2, PlayMode::Random);
    p.next();
    p.set_dragging(true);
    assert_eq!(p.rescan(&Vec::new()), Effect::Clear);
    assert!(p.current.is_none());
    assert!(p.paused);
    assert!(p.catalog.is_empty());
    assert!(p.lyrics.is_empty());
    assert!(!p.dragging);
    assert!(!p.listening);
    assert_eq!(p.mode, PlayMode::Random);
    assert_eq!(p.elapsed, 0);
    assert_eq!(p.duration, 0);
}

#[test]
fn rescan_plays_the_first_track() {
    let mut p = Player::idle("en".to_string());
    assert_eq!(p.rescan(&files(3)), Effect::Load("/lib/0.mp3".to_string()));
    assert_eq!(current_id(&p), 0);
    assert_eq!(p.history.len(), 1);
}

#[test]
fn sort_finds_the_current_track_again() {
    let mut p = session(3, PlayMode::InOrder);
    p.next();
    assert_eq!(current_id(&p), 1);
    p.sort(SortKey::Title, false);
    assert_eq!(p.current.as_ref().unwrap().path, "/lib/1.mp3");
    assert_eq!(current_id(&p), 1);
    p.sort(SortKey::Duration, false);
    assert_eq!(p.catalog[0].path, "/lib/2.mp3");
    assert_eq!(p.catalog[2].id, 2);
    p.next();
    assert_eq!(p.current.as_ref().unwrap().path, "/lib/0.mp3");
}

#[test]
fn resume_picks_the_saved_track_and_clamps_progress() {
    let (p, effect) = Player::start(
        &files(3),
        SortKey::Title,
        true,
        PlayMode::Random,
        Some("/lib/2.mp3".to_string()),
        99_999,
        "de".to_string(),
    );
    assert_eq!(effect, Effect::Cue("/lib/2.mp3".to_string(), 6200));
    assert_eq!(current_id(&p), 2);
    assert!(p.paused);
    assert_eq!(p.mode, PlayMode::Random);
    assert_eq!(p.locale, "de");
}

#[test]
fn start_with_an_empty_library_is_idle() {
    let (p, effect) = Player::start(&Vec::new(), SortKey::Artist, false, PlayMode::Random, None, 10, "en".to_string());
    assert_eq!(effect, Effect::Nothing);
    assert!(p.current.is_none());
    assert!(p.paused);
}

#[test]
fn poll_reports_progress_lyrics_and_advance() {
    let mut p = session(1, PlayMode::InOrder);
    p.play(p.catalog[0].clone(), TriggerSource::UserSelected);
    let mut text = String::new();
    for i in 0..8 {
        text.push_str(&format!("[00:{:02}]line {}\n", i + 1, i));
    }
    p.set_lyrics(parse_lyrics(&text));
    let report = p.poll(750, false);
    assert_eq!(report.progress_text, "00:07 / 01:00");
    assert_eq!(report.active_line, Some(6));
    assert_eq!(report.scroll_lines, 1);
    assert!(!report.advance);
    let early = p.poll(50, false);
    assert_eq!(early.active_line, None);
    assert_eq!(early.scroll_lines, 0);
    let done = p.poll(6000, true);
    assert!(done.advance);
    assert_eq!(done.active_line, Some(7));
}

#[test]
fn dragging_holds_the_elapsed_time() {
    let mut p = session(1, PlayMode::InOrder);
    p.play(p.catalog[0].clone(), TriggerSource::UserSelected);
    p.poll(300, false);
    p.set_dragging(true);
    let report = p.poll(900, false);
    assert_eq!(p.elapsed, 300);
    assert_eq!(report.progress_text, "00:03 / 01:00");
}

#[test]
fn paused_playback_does_not_advance() {
    let mut p = session(1, PlayMode::InOrder);
    assert!(!p.poll(0, true).advance);
}

#[test]
fn history_transitions() {
    let files = files(3);
    let (p, _) = Player::start(&files, SortKey::Title, true, PlayMode::InOrder, None, 0, "en".to_string());
    let a = p.catalog[0].clone();
    let b = p.catalog[1].clone();
    let mut h = History::new();
    assert!(h.back_target().is_none());
    h.record(a.clone(), TriggerSource::UserSelected, false);
    h.record(b.clone(), TriggerSource::UserSelected, false);
    assert_eq!(h.back_target().unwrap().path, a.path);
    h.record(a.clone(), TriggerSource::SteppedBack, false);
    assert_eq!(h.rewind, 1);
    h.record(a.clone(), TriggerSource::SteppedBack, false);
    assert_eq!(h.rewind, 1);
    assert_eq!(h.forward_target().unwrap().path, b.path);
    h.record(b.clone(), TriggerSource::SteppedForward, false);
    assert_eq!(h.rewind, 0);
    h.record(b.clone(), TriggerSource::SteppedForward, true);
    assert_eq!(h.len(), 2);
    h.record(a.clone(), TriggerSource::SteppedForward, false);
    assert_eq!(h.len(), 3);
}
