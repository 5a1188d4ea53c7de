use gmanim_editor::protocol::{EditorCommand, PREVIEW_SLOT_COUNT};
use gmanim_editor::schedule::{cache_capacity, steady_in_flight_cap, PreviewSchedule};
use std::cell::RefCell;
use std::sync::Arc;

fn image() -> Arc<egui::ColorImage> {
    Arc::new(egui::ColorImage::from_rgba_unmultiplied([1, 1], &[0, 0, 0, 255]))
}

/// The commands that were sent, as request id, frame and slot.
struct Renderer {
    sent: RefCell<Vec<(u64, u32, u32)>>,
    room: usize,
}

impl Renderer {
    fn new(room: usize) -> Self {
        Renderer { sent: RefCell::new(Vec::new()), room }
    }

    fn send(&self, command: EditorCommand) -> Option<u64> {
        match command {
            EditorCommand::RenderFrame { request_id, frame, slot } => {
                if self.sent.borrow().len() == self.room {
                    return None;
                }
                self.sent.borrow_mut().push((request_id, frame, slot));
                Some(1000 + request_id)
            }
            _ => panic!("unexpected command"),
        }
    }

    fn frames(&self) -> Vec<u32> {
        self.sent.borrow().iter().map(|(_, frame, _)| *frame).collect()
    }
}

fn send(renderer: &Renderer, command: EditorCommand) -> (&Renderer, Option<u64>) {
    let outcome = renderer.send(command);
    (renderer, outcome)
}

fn prepared(total: u32, frame: u32, playing: bool) -> PreviewSchedule {
    let mut schedule = PreviewSchedule::new();
    schedule.prepare(total, 64, 64, frame);
    schedule.set_ready();
    schedule.set_playing(playing);
    schedule
}

#[test]
fn a_paused_preview_asks_for_the_frames_around() {
    let mut schedule = prepared(100, 5, false);
    let renderer = Renderer::new(100);
    schedule.set_preview_target(5, true, 4, &renderer, send);
    assert_eq!(
        renderer.frames(),
        vec![5, 6, 4, 7, 3, 8, 2, 9, 1, 10, 0, 11, 12, 13, 14, 15]
    );
    let slots: Vec<u32> = renderer.sent.borrow().iter().map(|(_, _, slot)| *slot).collect();
    assert_eq!(slots, (0..PREVIEW_SLOT_COUNT).collect::<Vec<u32>>());
    let ids: Vec<u64> = renderer.sent.borrow().iter().map(|(id, _, _)| *id).collect();
    assert_eq!(ids, (1..=16).collect::<Vec<u64>>());
}

#[test]
fn a_playing_preview_asks_for_the_window_ahead() {
    let mut schedule = prepared(100, 95, true);
    let renderer = Renderer::new(100);
    schedule.set_preview_target(95, true, 4, &renderer, send);
    assert_eq!(
        renderer.frames(),
        vec![95, 96, 97, 98, 99, 0, 1, 2, 3, 4, 5, 6, 7, 8, 9, 10]
    );
    let mut schedule = prepared(100, 2, true);
    schedule.set_looping(false);
    let renderer = Renderer::new(100);
    schedule.set_preview_target(2, false, 4, &renderer, send);
    assert_eq!(renderer.frames(), vec![2, 1, 0]);
    assert_eq!(schedule.playback_window(false, 2), vec![2, 1]);
}

#[test]
fn nothing_is_asked_for_before_the_renderer_is_ready() {
    let mut schedule = PreviewSchedule::new();
    let renderer = Renderer::new(100);
    schedule.set_preview_target(3, true, 4, &renderer, send);
    assert_eq!(schedule.desired_frame(), 0);
    schedule.prepare(10, 64, 64, 3);
    schedule.set_preview_target(3, true, 4, &renderer, send);
    assert_eq!(renderer.frames(), Vec::<u32>::new());
    schedule.set_ready();
    schedule.set_preview_target(3, true, 4, &renderer, send);
    assert_eq!(renderer.frames().len(), 10);
}

#[test]
fn frames_on_their_way_are_not_asked_for_again() {
    let mut schedule = prepared(100, 0, true);
    let renderer = Renderer::new(100);
    schedule.set_preview_target(0, true, 4, &renderer, send);
    schedule.set_preview_target(1, true, 4, &renderer, send);
    assert_eq!(renderer.frames(), (0..16).collect::<Vec<u32>>());
    assert!(schedule.accept_preview_frame(1, 0, 0, image(), true).is_ok());
    schedule.set_preview_target(1, true, 4, &renderer, send);
    assert_eq!(renderer.frames(), (0..17).collect::<Vec<u32>>());
    assert_eq!(*renderer.sent.borrow().last().unwrap(), (17, 16, 0));
}

#[test]
fn a_command_that_is_not_sent_ends_the_round() {
    let mut schedule = prepared(100, 0, true);
    let renderer = Renderer::new(2);
    schedule.set_preview_target(0, true, 4, &renderer, send);
    assert_eq!(*renderer.sent.borrow(), vec![(1, 0, 0), (2, 1, 1)]);
    let renderer = Renderer::new(1);
    schedule.set_preview_target(0, true, 4, &renderer, send);
    assert_eq!(*renderer.sent.borrow(), vec![(4, 2, 2)]);
}

#[test]
fn a_finished_frame_frees_its_slot_and_is_shown() {
    let mut schedule = prepared(3, 1, false);
    let renderer = Renderer::new(100);
    schedule.set_preview_target(1, true, 4, &renderer, send);
    assert_eq!(*renderer.sent.borrow(), vec![(1, 1, 0), (2, 2, 1), (3, 0, 2)]);
    assert_eq!(schedule.frame_to_display(true), None);
    assert!(schedule.next_image(true).is_none());
    let picture = image();
    assert_eq!(schedule.round_trip(1, 1, 0, 1501), Some(500));
    assert_eq!(schedule.round_trip(1, 1, 0, 900), Some(0));
    assert_eq!(schedule.round_trip(1, 1, 1, 1501), None);
    assert!(schedule.accept_preview_frame(1, 1, 0, picture.clone(), true).is_ok());
    assert_eq!(schedule.frame_to_display(true), Some(1));
    assert!(Arc::ptr_eq(&schedule.next_image(true).unwrap(), &picture));
    assert!(schedule.next_image(true).is_none());
    assert_eq!(schedule.round_trip(1, 1, 0, 1501), None);
}

#[test]
fn frames_that_were_not_asked_for_are_refused() {
    let mut schedule = prepared(3, 1, false);
    let renderer = Renderer::new(100);
    schedule.set_preview_target(1, true, 4, &renderer, send);
    let message = "preview completion does not match the in-flight request";
    for (id, frame, slot) in [(9, 1, 0), (1, 2, 0), (1, 1, 1)] {
        assert_eq!(
            schedule.accept_preview_frame(id, frame, slot, image(), true).unwrap_err(),
            message
        );
    }
    schedule.clear();
    assert_eq!(
        schedule.accept_preview_frame(1, 1, 0, image(), true).unwrap_err(),
        message
    );
}

#[test]
fn playback_shows_the_closest_frame_on_its_way() {
    let mut schedule = prepared(100, 0, true);
    let renderer = Renderer::new(100);
    schedule.set_preview_target(0, true, 4, &renderer, send);
    assert!(schedule.accept_preview_frame(1, 0, 0, image(), true).is_ok());
    assert!(schedule.accept_preview_frame(3, 2, 2, image(), true).is_ok());
    schedule.set_preview_target(1, true, 4, &renderer, send);
    assert_eq!(schedule.frame_to_display(true), Some(0));
    assert_eq!(schedule.frame_to_display(false), Some(2));
    schedule.set_playing(false);
    assert_eq!(schedule.frame_to_display(true), None);
}

#[test]
fn steady_playback_stays_shallow() {
    let mut schedule = prepared(16, 0, true);
    assert_eq!(schedule.in_flight_cap(4), 16);
    let renderer = Renderer::new(100);
    schedule.set_preview_target(0, true, 4, &renderer, send);
    assert_eq!(renderer.frames().len(), 16);
    schedule.set_preview_target(0, true, 4, &renderer, send);
    assert_eq!(schedule.in_flight_cap(4), 4);
    assert_eq!(schedule.in_flight_cap(0), 2);
    assert_eq!(schedule.in_flight_cap(100), 8);
    schedule.set_playing(false);
    assert_eq!(schedule.in_flight_cap(4), 16);
    assert_eq!(steady_in_flight_cap(5), 5);
    assert_eq!(steady_in_flight_cap(1), 2);
    assert_eq!(steady_in_flight_cap(usize::MAX), 8);
}

#[test]
fn slots_are_never_lost() {
    let mut schedule = prepared(500, 0, true);
    let mut open: Vec<(u64, u32, u32)> = Vec::new();
    for step in 0..200u32 {
        let renderer = Renderer::new(if step % 7 == 0 { 1 } else { 100 });
        schedule.set_preview_target(step * 3, step % 5 != 0, 3, &renderer, send);
        open.extend(renderer.sent.borrow().iter());
        let mut slots: Vec<u32> = open.iter().map(|(_, _, slot)| *slot).collect();
        slots.sort();
        slots.dedup();
        assert_eq!(slots.len(), open.len());
        assert!(slots.len() <= 16);
        let mut frames: Vec<u32> = open.iter().map(|(_, frame, _)| *frame).collect();
        frames.sort();
        frames.dedup();
        assert_eq!(frames.len(), open.len());
        if !open.is_empty() {
            let (id, frame, slot) = open.remove(step as usize % open.len());
            assert!(schedule.accept_preview_frame(id, frame, slot, image(), true).is_ok());
        }
    }
}

#[test]
fn the_cache_is_as_large_as_its_budget() {
    assert_eq!(cache_capacity(1, 1), 256);
    assert_eq!(cache_capacity(0, 0), 256);
    assert_eq!(cache_capacity(1920, 1080), 64);
    assert_eq!(cache_capacity(3840, 2160), 16);
    assert_eq!(cache_capacity(20_000, 20_000), 16);
}

#[test]
fn targets_stay_on_the_timeline() {
    let mut schedule = prepared(10, 99, false);
    assert_eq!(schedule.desired_frame(), 9);
    assert_eq!(schedule.total_frames(), 10);
    let renderer = Renderer::new(0);
    schedule.set_preview_target(u32::MAX, true, 4, &renderer, send);
    assert_eq!(schedule.desired_frame(), 9);
    schedule.set_preview_target(4, true, 4, &renderer, send);
    assert_eq!(schedule.desired_frame(), 4);
}

#[test]
fn the_play_button_pauses_and_plays() {
    let mut schedule = PreviewSchedule::new();
    assert!(schedule.is_playing());
    assert!(schedule.is_looping());
    assert_eq!(schedule.press_play(true, true), None);
    assert!(!schedule.is_playing());
    assert_eq!(schedule.press_play(true, true), Some(true));
    assert!(schedule.is_playing());
    assert_eq!(schedule.press_play(false, false), Some(false));
    assert!(schedule.is_playing());
    assert!(!schedule.toggle_playing(true));
    assert!(!schedule.is_playing());
    assert!(schedule.toggle_playing(true));
    assert!(!schedule.toggle_playing(false));
    assert!(!schedule.toggle_playing(false));
    schedule.set_looping(false);
    assert!(!schedule.is_looping());
}

#[test]
fn every_command_is_sent_once_over_the_link() {
    let mut schedule = prepared(4, 0, true);
    let sent = schedule.set_preview_target(0, true, 4, Vec::new(), |mut sent, command| {
        let refused = sent.len() == 2;
        sent.push(format!("{command:?}"));
        (sent, if refused { None } else { Some(7) })
    });
    assert_eq!(
        sent,
        vec![
            "RenderFrame { request_id: 1, frame: 0, slot: 0 }",
            "RenderFrame { request_id: 2, frame: 1, slot: 1 }",
            "RenderFrame { request_id: 3, frame: 2, slot: 2 }",
        ]
    );
    assert_eq!(schedule.round_trip(1, 0, 0, 9), Some(2));
    assert_eq!(schedule.round_trip(2, 1, 1, 9), Some(2));
    assert_eq!(schedule.round_trip(3, 2, 2, 9), None);
    let link = schedule.dispatch_preview_requests(4, 0u32, |sent, _| (sent + 1, Some(8)));
    assert_eq!(link, 1);
    assert_eq!(schedule.round_trip(4, 3, 2, 9), Some(1));
}

#[test]
fn requests_are_made_one_by_one() {
    let mut schedule = prepared(3, 0, true);
    schedule.refill_preview_buffer(true);
    assert!(matches!(
        schedule.next_request(4),
        Some(EditorCommand::RenderFrame { request_id: 1, frame: 0, slot: 0 })
    ));
    schedule.request_sent(5);
    assert!(matches!(
        schedule.next_request(4),
        Some(EditorCommand::RenderFrame { request_id: 2, frame: 1, slot: 1 })
    ));
    schedule.request_refused();
    assert!(matches!(
        schedule.next_request(4),
        Some(EditorCommand::RenderFrame { request_id: 3, frame: 2, slot: 1 })
    ));
    schedule.request_sent(6);
    assert!(schedule.next_request(4).is_none());
    assert_eq!(schedule.round_trip(1, 0, 0, 10), Some(5));
    assert_eq!(schedule.round_trip(3, 2, 1, 10), Some(4));
    let mut closed = PreviewSchedule::new();
    assert!(closed.next_request(4).is_none());
}
