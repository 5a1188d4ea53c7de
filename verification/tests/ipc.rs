use gmanim_editor::ipc::{
    drives_repaint, frame_message, needs_open, respond, EventResponse, PreviewReadbackConfig,
    ThreadMessage,
};
use gmanim_editor::protocol::{EditorEvent, PreviewLayout};
use std::sync::Arc;

fn image() -> Arc<egui::ColorImage> {
    Arc::new(egui::ColorImage::from_rgba_unmultiplied([1, 1], &[0, 0, 0, 255]))
}

#[test]
fn events_become_messages() {
    let scenes = vec!["a".to_owned(), "b".to_owned()];
    let response = respond(EditorEvent::ScenesInfo { scenes: scenes.clone() });
    assert!(matches!(
        response,
        EventResponse::Message(ThreadMessage::ScenesInfo(given)) if given == scenes
    ));
    assert!(matches!(
        respond(EditorEvent::PreviewOpened),
        EventResponse::Message(ThreadMessage::PreviewOpened)
    ));
    assert!(matches!(
        respond(EditorEvent::Error { message: "no".to_owned() }),
        EventResponse::Message(ThreadMessage::Error(message)) if message == "no"
    ));
    assert!(matches!(
        respond(EditorEvent::FrameReady { request_id: 3, frame: 5, slot: 7 }),
        EventResponse::ReadFrame { request_id: 3, frame: 5, slot: 7 }
    ));
}

#[test]
fn the_number_of_frames_is_cut_to_32_bits() {
    let response = respond(EditorEvent::SceneReady {
        total_frames: 0x5_0000_0007,
        width: 4,
        height: 3,
        framerate: 60,
    });
    assert!(matches!(
        response,
        EventResponse::Message(ThreadMessage::SceneReady {
            total_frames: 7,
            width: 4,
            height: 3,
            framerate: 60,
        })
    ));
}

#[test]
fn a_frame_that_was_read_becomes_a_message() {
    let picture = image();
    match frame_message(1, 2, 3, Ok(picture.clone())) {
        ThreadMessage::FrameReady { request_id: 1, frame: 2, slot: 3, image } => {
            assert!(Arc::ptr_eq(&image, &picture));
        }
        _ => panic!("not a frame"),
    }
    assert!(matches!(
        frame_message(1, 2, 3, Err("gone".to_owned())),
        ThreadMessage::Error(message) if message == "gone"
    ));
}

#[test]
fn frames_do_not_drive_the_screen_while_it_plays() {
    let frame = EditorEvent::FrameReady { request_id: 1, frame: 2, slot: 3 };
    assert!(!drives_repaint(&frame, true));
    assert!(drives_repaint(&frame, false));
    assert!(drives_repaint(&EditorEvent::PreviewOpened, true));
}

#[test]
fn another_memory_has_to_be_opened() {
    let layout = PreviewLayout::packed_rgba(2, 2, 4).unwrap();
    let config = Some(PreviewReadbackConfig { shm_id: "new".to_owned(), layout });
    assert_eq!(needs_open(&config, &None), Ok(true));
    assert_eq!(needs_open(&config, &Some("old".to_owned())), Ok(true));
    assert_eq!(needs_open(&config, &Some("new".to_owned())), Ok(false));
    assert_eq!(
        needs_open(&None, &Some("new".to_owned())),
        Err("preview readback is not configured".to_owned())
    );
}
