//! What the thread that listens to the renderer hands to the editor.

use crate::protocol::{truncated, EditorEvent, PreviewLayout};
use std::sync::Arc;
use vstd::prelude::*;

verus! {

/// How many messages the editor takes before it draws.
pub const PREVIEW_COMPLETIONS_PER_UI_UPDATE: usize = 4;

pub enum ThreadMessage {
    ScenesInfo(Vec<String>),
    SceneReady { total_frames: u32, width: u32, height: u32, framerate: u32 },
    PreviewOpened,
    FrameReady { request_id: u64, frame: u32, slot: u32, image: Arc<egui::ColorImage> },
    Error(String),
}

/// What an event of the renderer leads to: a message, or first a look at the
/// shared memory.
pub enum EventResponse {
    Message(ThreadMessage),
    ReadFrame { request_id: u64, frame: u32, slot: u32 },
}

/// The shared memory that frames are read from.
#[derive(Debug)]
pub struct PreviewReadbackConfig {
    pub shm_id: String,
    pub layout: PreviewLayout,
}

/// What an event of the renderer leads to. Of the number of frames the low 32 bits
/// count.
pub open spec fn response_to(event: EditorEvent) -> EventResponse {
    match event {
        EditorEvent::ScenesInfo { scenes } => EventResponse::Message(
            ThreadMessage::ScenesInfo(scenes),
        ),
        EditorEvent::SceneReady { total_frames, width, height, framerate } => {
            EventResponse::Message(
                ThreadMessage::SceneReady {
                    total_frames: crate::protocol::low_word(total_frames),
                    width,
                    height,
                    framerate,
                },
            )
        },
        EditorEvent::PreviewOpened => EventResponse::Message(ThreadMessage::PreviewOpened),
        EditorEvent::FrameReady { request_id, frame, slot } => EventResponse::ReadFrame {
            request_id,
            frame,
            slot,
        },
        EditorEvent::Error { message } => EventResponse::Message(ThreadMessage::Error(message)),
    }
}

pub fn respond(event: EditorEvent) -> (response: EventResponse)
    ensures
        response == response_to(event),
{
    match event {
        EditorEvent::ScenesInfo { scenes } => EventResponse::Message(
            ThreadMessage::ScenesInfo(scenes),
        ),
        EditorEvent::SceneReady { total_frames, width, height, framerate } => {
            EventResponse::Message(
                ThreadMessage::SceneReady {
                    total_frames: truncated(total_frames),
                    width,
                    height,
                    framerate,
                },
            )
        },
        EditorEvent::PreviewOpened => EventResponse::Message(ThreadMessage::PreviewOpened),
        EditorEvent::FrameReady { request_id, frame, slot } => EventResponse::ReadFrame {
            request_id,
            frame,
            slot,
        },
        EditorEvent::Error { message } => EventResponse::Message(ThreadMessage::Error(message)),
    }
}

/// The message about a frame that was read, or could not be read.
pub fn frame_message(
    request_id: u64,
    frame: u32,
    slot: u32,
    result: Result<Arc<egui::ColorImage>, String>,
) -> (message: ThreadMessage)
    ensures
        message == match result {
            Ok(image) => ThreadMessage::FrameReady { request_id, frame, slot, image },
            Err(error) => ThreadMessage::Error(error),
        },
{
    match result {
        Ok(image) => ThreadMessage::FrameReady { request_id, frame, slot, image },
        Err(error) => ThreadMessage::Error(error),
    }
}

/// Whether an event makes the editor draw. While playback runs, rendered frames do
/// not drive the repaint rhythm: the editor follows its own display clock.
pub fn drives_repaint(event: &EditorEvent, playing: bool) -> (drives: bool)
    ensures
        drives == !(event is FrameReady && playing),
{
    let is_frame_ready = match event {
        EditorEvent::FrameReady { .. } => true,
        _ => false,
    };
    !is_frame_ready || !playing
}

/// Whether a shared memory has to be opened before a frame is read, where `opened`
/// names the one that is open. Without a configured one there is nothing to read.
pub fn needs_open(config: &Option<PreviewReadbackConfig>, opened: &Option<String>) -> (result:
    Result<bool, String>)
    ensures
        match (result, *config) {
            (Ok(needed), Some(config)) => needed == match *opened {
                Some(id) => id@ != config.shm_id@,
                None => true,
            },
            (Err(message), None) => message@ == "preview readback is not configured"@,
            _ => false,
        },
{
    match config {
        Some(config) => match opened {
            Some(id) => Ok(!(*id == config.shm_id)),
            None => Ok(true),
        },
        None => Err("preview readback is not configured".to_owned()),
    }
}

/// Every event but a rendered frame becomes a message that says the same; of a
/// rendered frame the picture is read first. A number of frames that fits in 32 bits
/// stays.
pub proof fn messages_say_what_the_event_says(event: EditorEvent)
    ensures
        match (event, response_to(event)) {
            (
                EditorEvent::ScenesInfo { scenes },
                EventResponse::Message(ThreadMessage::ScenesInfo(told)),
            ) => told == scenes,
            (
                EditorEvent::SceneReady { total_frames, width, height, framerate },
                EventResponse::Message(ThreadMessage::SceneReady {
                    total_frames: frames,
                    width: w,
                    height: h,
                    framerate: rate,
                }),
            ) => {
                &&& frames == total_frames % 0x1_0000_0000
                &&& w == width && h == height && rate == framerate
            },
            (
                EditorEvent::PreviewOpened,
                EventResponse::Message(ThreadMessage::PreviewOpened),
            ) => true,
            (
                EditorEvent::FrameReady { request_id, frame, slot },
                EventResponse::ReadFrame { request_id: id, frame: f, slot: s },
            ) => id == request_id && f == frame && s == slot,
            (
                EditorEvent::Error { message },
                EventResponse::Message(ThreadMessage::Error(told)),
            ) => told == message,
            _ => false,
        },
{
}

} // verus!
