use gmanim_editor::protocol::{EditorCommand, PREVIEW_SLOT_COUNT};
use gmanim_editor::scenes::{SceneId, ScenePositions};
use gmanim_editor::session::{shared_memory_failure, Delivery, EditorSession, RunFailure};
use std::cell::RefCell;
use std::sync::Arc;

fn image() -> Arc<egui::ColorImage> {
    Arc::new(egui::ColorImage::from_rgba_unmultiplied([1, 1], &[0, 0, 0, 255]))
}

fn clamp(time: f32, total_frames: u32, framerate: u32) -> f32 {
    let last = total_frames.saturating_sub(1) as f32 / framerate.max(1) as f32;
    time.clamp(0.0, last)
}

fn texts(names: &[&str]) -> Vec<String> {
    names.iter().map(|name| name.to_string()).collect()
}

#[test]
fn playback_position_belongs_to_the_scene() {
    let scene = SceneId {
        source: "main.py".to_owned(),
        name: "gravity".to_owned(),
    };
    let other_scene = SceneId {
        source: "main.py".to_owned(),
        name: "other".to_owned(),
    };
    let mut positions = ScenePositions::new();
    positions.insert(scene.clone(), 4.25f32);

    assert_eq!(
        positions.restored_playback_time(&scene, |time| clamp(time, 1200, 120), 0.0),
        4.25
    );
    assert_eq!(
        positions.restored_playback_time(&other_scene, |time| clamp(time, 1200, 120), 0.0),
        0.0
    );
}

#[test]
fn a_restored_position_is_moved_into_the_scene() {
    let scene = SceneId { source: "main.py".to_owned(), name: "gravity".to_owned() };
    let mut positions = ScenePositions::new();
    positions.insert(scene.clone(), 3.0f32);
    positions.insert(scene.copied(), 5.0f32);
    let restored = positions.restored_playback_time(&scene, |time| clamp(time, 10, 10), 0.0);
    assert!((restored - 0.9).abs() < 1e-6);
    assert_eq!(positions.get(&scene), Some(5.0));
    let elsewhere = SceneId { source: "b.py".to_owned(), name: "gravity".to_owned() };
    assert_eq!(positions.get(&elsewhere), None);
    assert!(!scene.same(&elsewhere));
    assert!(scene.same(&scene.copied()));
}

fn name_of(command: EditorCommand) -> String {
    match command {
        EditorCommand::LoadScene { name } => name,
        _ => panic!("not a scene"),
    }
}

#[test]
fn the_first_scene_is_selected_where_the_old_one_is_gone() {
    let mut session: EditorSession<u32> = EditorSession::new("main.py".to_owned());
    assert_eq!(name_of(session.scenes_known(texts(&["a", "b"]))), "a");
    assert_eq!(session.selected_scene, "a");
    assert_eq!(name_of(session.select_scene("b".to_owned(), 3).unwrap()), "b");
    assert_eq!(name_of(session.scenes_known(texts(&["c", "b"]))), "b");
    assert_eq!(name_of(session.scenes_known(texts(&["c", "d"]))), "c");
    assert_eq!(name_of(session.scenes_known(Vec::new())), "");
    assert_eq!(session.available_scenes, Vec::<String>::new());
}

#[test]
fn only_another_scene_is_loaded() {
    let mut session: EditorSession<u32> = EditorSession::new("main.py".to_owned());
    session.scenes_known(texts(&["a", "b"]));
    assert!(session.select_scene("a".to_owned(), 3).is_none());
    assert!(session.select_scene(String::new(), 3).is_none());
    assert_eq!(session.selected_scene, "");
    assert!(session.select_scene("b".to_owned(), 3).is_some());
}

/// A session that shows scene `a` of a script, with its preview open.
fn previewing(renderer: &RefCell<Vec<(u64, u32, u32)>>) -> EditorSession<u32> {
    let mut session: EditorSession<u32> = EditorSession::new("main.py".to_owned());
    session.begin_run(0);
    session.start_run();
    session.scenes_known(texts(&["a", "b"]));
    let plan = session.plan_preview(4, 2, 9, Ok(77)).unwrap();
    let command = session.prepare_preview(&plan, 3, 30, 1);
    assert!(matches!(
        command,
        EditorCommand::OpenPreview { shm_id } if shm_id == "gmanim_preview_9_1_77"
    ));
    assert_eq!(session.execution_result, "Preparing preview...");
    let (_, sent) =
        session.preview_requested(Delivery::Sent, true, 4, renderer, |link, command| match command {
            EditorCommand::RenderFrame { request_id, frame, slot } => {
                link.borrow_mut().push((request_id, frame, slot));
                (link, Some(5))
            }
            _ => (link, None),
        });
    assert_eq!(sent, Ok(()));
    session
}

#[test]
fn a_preview_is_opened_and_filled() {
    let renderer = RefCell::new(Vec::new());
    let mut session = previewing(&renderer);
    assert_eq!(*renderer.borrow(), vec![(1, 1, 0), (2, 2, 1), (3, 0, 2)]);
    assert_eq!(session.preview_size, (4, 2));
    assert_eq!(session.preview_framerate, 30);
    assert_eq!(session.run_counter, 1);
    let active = session.active_scene.as_ref().unwrap();
    assert_eq!((active.source.as_str(), active.name.as_str()), ("main.py", "a"));
    session.preview_opened(true, 4, (), |_, _| ((), None));
    assert_eq!(session.execution_result, "Preview ready");
    session.frame_ready(1, 1, 0, image(), true, 4, (), |_, _| ((), None));
    assert_eq!(session.execution_result, "Preview ready");
    assert!(!session.render_failed);
    assert_eq!(session.schedule.frame_to_display(true), Some(1));
}

#[test]
fn an_unasked_frame_is_reported() {
    let renderer = RefCell::new(Vec::new());
    let mut session = previewing(&renderer);
    session.frame_ready(1, 2, 0, image(), true, 4, (), |_, _| ((), None));
    assert!(session.render_failed);
    assert_eq!(
        session.execution_result,
        "Error: preview completion does not match the in-flight request"
    );
    session.start_run();
    assert!(!session.render_failed);
    assert_eq!(session.execution_result, "Running script...");
    assert_eq!(session.schedule.total_frames(), 0);
}

#[test]
fn positions_are_kept_when_a_scene_is_left() {
    let renderer = RefCell::new(Vec::new());
    let mut session = previewing(&renderer);
    assert_eq!(session.restored_position(|time| time, 0), 0);
    assert!(session.select_scene("b".to_owned(), 42).is_some());
    assert!(session.active_scene.is_none());
    assert_eq!(session.restored_position(|time| time, 7), 7);
    assert!(session.select_scene("a".to_owned(), 50).is_some());
    assert_eq!(session.restored_position(|time| time + 1, 7), 43);
    session.begin_run(60);
    assert_eq!(session.restored_position(|time| time, 7), 42);
    assert_eq!(session.run_counter, 2);
}

#[test]
fn a_preview_that_cannot_be_planned_is_refused() {
    let session: EditorSession<u32> = EditorSession::new("main.py".to_owned());
    assert_eq!(
        session.plan_preview(0, 2, 9, Ok(77)).unwrap_err(),
        "preview dimensions and capacity must be non-zero"
    );
    assert_eq!(
        session.plan_preview(u32::MAX, 2, 9, Ok(77)).unwrap_err(),
        "preview shared-memory size overflow"
    );
    assert_eq!(
        session.plan_preview(0, 2, 9, Err("no clock".to_owned())).unwrap_err(),
        "preview dimensions and capacity must be non-zero"
    );
    assert_eq!(
        session.plan_preview(2, 2, 9, Err("no clock".to_owned())).unwrap_err(),
        "no clock"
    );
    let plan = session.plan_preview(4, 2, 9, Ok(77)).unwrap();
    assert_eq!(plan.layout.capacity, PREVIEW_SLOT_COUNT);
    assert_eq!(plan.header.layout().unwrap(), plan.layout);
    assert_eq!(plan.shm_id, "gmanim_preview_9_0_77");
}

#[test]
fn a_preview_that_cannot_be_requested_stays_closed() {
    let mut session: EditorSession<u32> = EditorSession::new("main.py".to_owned());
    let plan = session.plan_preview(4, 2, 9, Ok(77)).unwrap();
    session.prepare_preview(&plan, 3, 0, 1);
    assert_eq!(session.preview_framerate, 1);
    assert_eq!(
        session.preview_requested(Delivery::NoChannel, true, 4, 3u8, |_, _| panic!("sent")),
        (3u8, Err("editor command channel is unavailable".to_owned()))
    );
    assert_eq!(
        session.preview_requested(Delivery::Stopped, true, 4, 3u8, |_, _| panic!("sent")),
        (3u8, Err("Python renderer stopped before opening the preview".to_owned()))
    );
}

#[test]
fn failures_are_told_to_the_person() {
    let mut session: EditorSession<u32> = EditorSession::new("main.py".to_owned());
    assert_eq!(session.execution_result, "");
    session.fail_run(RunFailure::Socket, "in use");
    assert_eq!(session.execution_result, "Failed to create IPC socket: in use");
    session.fail_run(RunFailure::Python, "not found");
    assert_eq!(session.execution_result, "Failed to start python: not found");
    assert!(!session.render_failed);
    session.report_error("boom");
    assert_eq!(session.execution_result, "Error: boom");
    assert!(session.render_failed);
    assert_eq!(
        shared_memory_failure("full"),
        "failed to create preview shared memory: full"
    );
}

#[test]
fn another_readable_file_is_opened() {
    let mut session: EditorSession<u32> = EditorSession::new("main.py".to_owned());
    session.scenes_known(texts(&["a"]));
    assert!(!session.switch_file("main.py".to_owned(), true));
    assert_eq!(session.selected_scene, "a");
    assert!(!session.switch_file("gone.py".to_owned(), false));
    assert_eq!(session.current_file, "gone.py");
    assert_eq!(session.selected_scene, "a");
    assert!(session.switch_file("b.py".to_owned(), true));
    assert_eq!(session.current_file, "b.py");
    assert_eq!(session.selected_scene, "");
}
