use gmanim_editor::playback::{directional_window, playback_step, PlaybackStep};

#[test]
fn directional_window_uses_effective_end_and_deduplicates_short_loops() {
    assert_eq!(directional_window(8, 10, true, false, 48), vec![8, 9]);
    assert_eq!(directional_window(2, 3, true, true, 48), vec![2, 0, 1]);
    assert_eq!(directional_window(1, 3, false, true, 48), vec![1, 0, 2]);
}

#[test]
fn a_window_without_a_timeline_is_empty() {
    assert_eq!(directional_window(0, 0, true, true, 48), Vec::<u32>::new());
    assert_eq!(directional_window(5, 0, false, true, 48), Vec::<u32>::new());
}

#[test]
fn a_window_is_no_longer_than_its_limit() {
    assert_eq!(directional_window(4, 100, true, true, 3), vec![4, 5, 6]);
    assert_eq!(directional_window(4, 100, false, true, 3), vec![4, 3, 2]);
    assert_eq!(directional_window(4, 100, true, true, 0), Vec::<u32>::new());
}

#[test]
fn a_window_off_the_timeline_follows_the_direction() {
    assert_eq!(directional_window(12, 10, true, false, 48), Vec::<u32>::new());
    assert_eq!(directional_window(12, 10, true, true, 3), vec![2, 3, 4]);
    assert_eq!(directional_window(2, 1, false, true, 48), vec![2, 1, 0]);
    assert_eq!(directional_window(1, 5, false, false, 48), vec![1, 0]);
    assert_eq!(directional_window(u32::MAX, 10, true, true, 48), vec![u32::MAX % 10]);
}

#[test]
fn a_long_looping_window_shows_every_frame_once() {
    let mut frames = directional_window(7, 20, true, true, 48);
    assert_eq!(frames.len(), 20);
    frames.sort();
    assert_eq!(frames, (0..20).collect::<Vec<u32>>());
}

#[test]
fn playback_holds_without_a_timeline() {
    assert_eq!(playback_step(0, 120, true, true, false), PlaybackStep::Hold);
    assert_eq!(playback_step(10, 0, false, true, false), PlaybackStep::Hold);
    assert!(playback_step(0, 120, false, true, true).keeps_playing());
}

#[test]
fn playback_stops_at_the_ends_unless_it_loops() {
    assert_eq!(playback_step(10, 60, true, true, false), PlaybackStep::Wrap);
    assert_eq!(playback_step(10, 60, false, true, false), PlaybackStep::StopAtEnd);
    assert_eq!(playback_step(10, 60, false, true, true), PlaybackStep::StopAtEnd);
    assert_eq!(playback_step(10, 60, false, false, true), PlaybackStep::StopAtStart);
    assert_eq!(playback_step(10, 60, false, false, false), PlaybackStep::Advance);
    assert!(PlaybackStep::Wrap.keeps_playing());
    assert!(PlaybackStep::Advance.keeps_playing());
    assert!(!PlaybackStep::StopAtEnd.keeps_playing());
    assert!(!PlaybackStep::StopAtStart.keeps_playing());
}
