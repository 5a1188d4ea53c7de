use gmanim_editor::timing::{next_tick_deadline, reload_is_due};

const MS: u64 = 1_000_000;

#[test]
fn the_first_tick_comes_after_one_period() {
    assert_eq!(next_tick_deadline(None, 50 * MS, 16 * MS), 66 * MS);
}

#[test]
fn ticks_stay_in_step_with_the_cadence() {
    assert_eq!(next_tick_deadline(Some(100 * MS), 90 * MS, 16 * MS), 100 * MS);
    assert_eq!(next_tick_deadline(Some(100 * MS), 100 * MS, 16 * MS), 116 * MS);
    assert_eq!(next_tick_deadline(Some(100 * MS), 115 * MS, 16 * MS), 116 * MS);
    assert_eq!(next_tick_deadline(Some(100 * MS), 150 * MS, 16 * MS), 164 * MS);
}

#[test]
fn a_late_tick_starts_the_cadence_anew() {
    assert_eq!(next_tick_deadline(Some(100 * MS), 199 * MS, 30 * MS), 220 * MS);
    assert_eq!(next_tick_deadline(Some(100 * MS), 200 * MS, 30 * MS), 230 * MS);
    assert_eq!(next_tick_deadline(Some(0), 5_000 * MS, 30 * MS), 5_030 * MS);
}

#[test]
fn a_script_is_run_again_once_it_rests() {
    assert!(!reload_is_due(None, 1_000 * MS));
    assert!(!reload_is_due(Some(100 * MS), 349 * MS));
    assert!(reload_is_due(Some(100 * MS), 350 * MS));
    assert!(!reload_is_due(Some(400 * MS), 350 * MS));
}
