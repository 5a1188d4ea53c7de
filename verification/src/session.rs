//! The state of an editing session, and what the renderer's messages do to it.

use crate::names::preview_shm_id;
use crate::plan::ScheduleView;
use crate::protocol::{
    EditorCommand, PreviewLayout, PreviewPixelFormat, PreviewShmHeader, PREVIEW_SLOT_COUNT,
};
use crate::scenes::{SceneId, ScenePositions};
use crate::schedule::PreviewSchedule;
use crate::text::{contains_text, joined};
use std::sync::Arc;
use vstd::prelude::*;

verus! {

/// What became of a command that was to open a preview.
#[derive(Clone, Copy, Debug)]
pub enum Delivery {
    Sent,
    /// There is no channel to a renderer.
    NoChannel,
    /// The renderer does not listen any more.
    Stopped,
}

/// Why a script could not be run.
#[derive(Clone, Copy, Debug)]
pub enum RunFailure {
    Socket,
    Python,
}

/// What has to be in place before a preview can be opened.
#[derive(Debug)]
pub struct PreviewPlan {
    pub shm_id: String,
    pub layout: PreviewLayout,
    pub header: PreviewShmHeader,
}

impl PreviewPlan {
    /// The header describes the layout, and nothing is published yet.
    pub open spec fn wf(self) -> bool {
        self.layout.wf() && self.header.is_new(self.layout)
    }
}

/// What a session knows.
pub struct SessionView<Position> {
    /// The schedule of the preview.
    pub schedule: ScheduleView,
    /// The script that is edited.
    pub file: Seq<char>,
    /// The scenes of the script.
    pub scenes: Seq<Seq<char>>,
    /// The scene that is or will be shown.
    pub selected: Seq<char>,
    /// The scene that the preview shows.
    pub active: Option<(Seq<char>, Seq<char>)>,
    /// Where playback stood in the scenes.
    pub positions: Map<(Seq<char>, Seq<char>), Position>,
    /// What the person reads about the run.
    pub result: Seq<char>,
    /// How often scripts were run.
    pub runs: u32,
    /// The last run had an error.
    pub failed: bool,
    pub framerate: u32,
    pub size: (u32, u32),
}

/// The state of an editing session. A position is measured in whatever the editor
/// counts its playback time in.
pub struct EditorSession<Position> {
    pub schedule: PreviewSchedule,
    pub current_file: String,
    pub available_scenes: Vec<String>,
    pub selected_scene: String,
    pub active_scene: Option<SceneId>,
    pub positions: ScenePositions<Position>,
    pub execution_result: String,
    pub run_counter: u32,
    pub render_failed: bool,
    pub preview_framerate: u32,
    pub preview_size: (u32, u32),
}

impl<Position> View for EditorSession<Position> {
    type V = SessionView<Position>;

    open spec fn view(&self) -> SessionView<Position> {
        SessionView {
            schedule: self.schedule@,
            file: self.current_file@,
            scenes: crate::text::texts_of(self.available_scenes@),
            selected: self.selected_scene@,
            active: match self.active_scene {
                Some(scene) => Some(scene@),
                None => None,
            },
            positions: self.positions@,
            result: self.execution_result@,
            runs: self.run_counter,
            failed: self.render_failed,
            framerate: self.preview_framerate,
            size: self.preview_size,
        }
    }
}

impl<Position> SessionView<Position> {
    pub open spec fn wf(self) -> bool {
        self.schedule.wf()
    }

    /// The session with the position in the shown scene remembered.
    pub open spec fn remembered(self, position: Position) -> SessionView<Position> {
        SessionView {
            positions: match self.active {
                Some(scene) => self.positions.insert(scene, position),
                None => self.positions,
            },
            ..self
        }
    }

    /// The session when a script is to be run.
    pub open spec fn run_begun(self, position: Position) -> SessionView<Position> {
        SessionView { active: None, runs: (self.runs + 1) as u32, ..self.remembered(position) }
    }

    /// The session once a script runs.
    pub open spec fn run_started(self) -> SessionView<Position> {
        SessionView {
            schedule: self.schedule.cleared(),
            result: "Running script..."@,
            failed: false,
            ..self
        }
    }

    /// The session with the scenes of a script. A selected scene stays selected if
    /// it is among them, else the first one is selected.
    pub open spec fn with_scenes(self, scenes: Seq<Seq<char>>) -> SessionView<Position> {
        SessionView {
            scenes,
            selected: if scenes.contains(self.selected) {
                self.selected
            } else if scenes.len() > 0 {
                scenes[0]
            } else {
                seq![]
            },
            ..self
        }
    }

    /// Another scene than the selected one was picked.
    pub open spec fn changes_to(self, scene: Seq<char>) -> bool {
        scene != self.selected && scene.len() > 0
    }

    /// The session with a scene picked.
    pub open spec fn with_selected(self, scene: Seq<char>, position: Position) -> SessionView<
        Position,
    > {
        if self.changes_to(scene) {
            SessionView { selected: scene, active: None, ..self.remembered(position) }
        } else {
            SessionView { selected: scene, ..self }
        }
    }

    /// The session with an error that the person is told of.
    pub open spec fn reported(self, error: Seq<char>) -> SessionView<Position> {
        SessionView { failed: true, result: "Error: "@ + error, ..self }
    }

    /// The session with a preview of the selected scene prepared.
    pub open spec fn previewing(
        self,
        layout: PreviewLayout,
        total_frames: u32,
        framerate: u32,
        frame: u32,
    ) -> SessionView<Position> {
        SessionView {
            schedule: self.schedule.prepared(
                total_frames,
                crate::plan::cache_capacity_of(layout.width, layout.height),
                frame,
            ),
            framerate: if framerate < 1 {
                1
            } else {
                framerate
            },
            size: (layout.width, layout.height),
            active: Some((self.file, self.selected)),
            failed: false,
            result: "Preparing preview..."@,
            ..self
        }
    }

    /// The session, before anything is asked for, once a rendered frame came in.
    pub open spec fn with_frame(
        self,
        request_id: u64,
        frame: u32,
        slot: u32,
        image: Arc<egui::ColorImage>,
        forward: bool,
    ) -> SessionView<Position> {
        match self.schedule.refusal(request_id, frame, slot) {
            Some(error) => self.reported(error),
            None => SessionView {
                schedule: self.schedule.accepted(request_id, frame, slot, image, forward),
                ..self
            },
        }
    }

    /// `after` is the session once the schedule was refilled around the desired
    /// frame and the renderer was asked for what is missing.
    pub open spec fn advances<Link, F: Fn(Link, EditorCommand) -> (Link, Option<u64>)>(
        self,
        forward: bool,
        needed: usize,
        send: F,
        link: Link,
        after: SessionView<Position>,
        last: Link,
    ) -> bool {
        &&& after == (SessionView { schedule: after.schedule, ..self })
        &&& self.schedule.targeted(self.schedule.desired).refilled(forward).dispatches(
            needed,
            send,
            link,
            after.schedule,
            last,
        )
    }

    /// The plan of a preview, or why there is none.
    pub open spec fn plan_refusal(
        width: u32,
        height: u32,
        timestamp: Result<u128, String>,
    ) -> Option<Seq<char>> {
        match crate::protocol::packed_layout_of(
            width,
            height,
            PREVIEW_SLOT_COUNT,
            PreviewPixelFormat::Rgba8Unorm,
        ) {
            Err(error) => Some(error.description()),
            Ok(_) => match timestamp {
                Err(error) => Some(error@),
                Ok(_) => None,
            },
        }
    }
}

/// What a person reads where a script could not be run.
pub open spec fn run_failure_text(failure: RunFailure, error: Seq<char>) -> Seq<char> {
    match failure {
        RunFailure::Socket => "Failed to create IPC socket: "@ + error,
        RunFailure::Python => "Failed to start python: "@ + error,
    }
}

/// The error of a preview whose shared memory could not be created.
pub fn shared_memory_failure(error: &str) -> (message: String)
    ensures
        message@ == "failed to create preview shared memory: "@ + error@,
{
    joined("failed to create preview shared memory: ", error)
}

impl<Position: Copy> EditorSession<Position> {
    /// A session that edits `current_file` and shows nothing yet.
    pub fn new(current_file: String) -> (session: Self)
        ensures
            session@.wf(),
            session@.schedule == (ScheduleView {
                next_id: 1,
                playing: true,
                looping: true,
                ..session@.schedule
            }).cleared(),
            session@.file == current_file@,
            session@.scenes == Seq::<Seq<char>>::empty(),
            session@.selected == Seq::<char>::empty(),
            session@.active is None,
            session@.positions == Map::<(Seq<char>, Seq<char>), Position>::empty(),
            session@.result == Seq::<char>::empty(),
            session@.runs == 0,
            !session@.failed,
            session@.framerate == 60,
            session@.size == (16u32, 9u32),
    {
        let session = EditorSession {
            schedule: PreviewSchedule::new(),
            current_file,
            available_scenes: Vec::new(),
            selected_scene: String::new(),
            active_scene: None,
            positions: ScenePositions::new(),
            execution_result: String::new(),
            run_counter: 0,
            render_failed: false,
            preview_framerate: 60,
            preview_size: (16, 9),
        };
        assert(session@.scenes =~= Seq::<Seq<char>>::empty());
        session
    }

    /// Remembers where playback stands in the shown scene.
    pub fn remember_active_scene_position(&mut self, position: Position)
        ensures
            final(self)@ == old(self)@.remembered(position),
    {
        if let Some(scene) = &self.active_scene {
            let scene = scene.copied();
            self.positions.insert(scene, position);
        }
    }

    /// A script is to be run.
    pub fn begin_run(&mut self, position: Position)
        requires
            old(self)@.runs < u32::MAX,
        ensures
            final(self)@ == old(self)@.run_begun(position),
    {
        self.remember_active_scene_position(position);
        self.active_scene = None;
        self.run_counter = self.run_counter + 1;
    }

    /// The script could not be run.
    pub fn fail_run(&mut self, failure: RunFailure, error: &str)
        ensures
            final(self)@ == (SessionView {
                result: run_failure_text(failure, error@),
                ..old(self)@
            }),
    {
        self.execution_result = match failure {
            RunFailure::Socket => joined("Failed to create IPC socket: ", error),
            RunFailure::Python => joined("Failed to start python: ", error),
        };
    }

    /// The script runs.
    pub fn start_run(&mut self)
        ensures
            final(self)@ == old(self)@.run_started(),
            final(self)@.wf(),
    {
        self.execution_result = "Running script...".to_owned();
        self.schedule.clear();
        self.render_failed = false;
    }

    /// The scenes of the script are known. Gives the command that loads the selected
    /// one.
    pub fn scenes_known(&mut self, scenes: Vec<String>) -> (command: EditorCommand)
        ensures
            final(self)@ == old(self)@.with_scenes(crate::text::texts_of(scenes@)),
            command matches EditorCommand::LoadScene { name } && name@ == final(self)@.selected,
    {
        let ghost texts = crate::text::texts_of(scenes@);
        self.available_scenes = scenes;
        if !contains_text(&self.available_scenes, &self.selected_scene) {
            self.selected_scene = if self.available_scenes.len() > 0 {
                assert(texts[0] == scenes@[0]@);
                self.available_scenes[0].clone()
            } else {
                String::new()
            };
        }
        assert(self@.selected =~= old(self)@.with_scenes(texts).selected);
        EditorCommand::LoadScene { name: self.selected_scene.clone() }
    }

    /// A scene was picked. Gives the command that loads it where it is another one.
    pub fn select_scene(&mut self, scene: String, position: Position) -> (command: Option<
        EditorCommand,
    >)
        ensures
            final(self)@ == old(self)@.with_selected(scene@, position),
            match command {
                Some(command) => {
                    &&& old(self)@.changes_to(scene@)
                    &&& command matches EditorCommand::LoadScene { name } && name@ == scene@
                },
                None => !old(self)@.changes_to(scene@),
            },
    {
        let changes = !(scene == self.selected_scene) && !scene.as_str().is_empty();
        let name = scene.clone();
        self.selected_scene = scene;
        if changes {
            self.remember_active_scene_position(position);
            self.active_scene = None;
            Some(EditorCommand::LoadScene { name })
        } else {
            None
        }
    }

    /// A script was picked, and `readable` tells whether it can be read. Gives whether
    /// it is opened: another script that can be read is, and its scenes are not known
    /// yet, so none of them is selected.
    pub fn switch_file(&mut self, file: String, readable: bool) -> (opened: bool)
        ensures
            opened == (file@ != old(self)@.file && readable),
            final(self)@ == if opened {
                SessionView { file: file@, selected: seq![], ..old(self)@ }
            } else {
                SessionView { file: file@, ..old(self)@ }
            },
    {
        let opened = !(file == self.current_file) && readable;
        self.current_file = file;
        if opened {
            self.selected_scene = String::new();
        }
        opened
    }

    /// Tells the person of an error.
    pub fn report_error(&mut self, error: &str)
        ensures
            final(self)@ == old(self)@.reported(error@),
    {
        self.render_failed = true;
        self.execution_result = joined("Error: ", error);
    }

    /// What has to be in place before a preview of this size can be opened.
    /// `timestamp` counts nanoseconds, or says why the time is not known.
    pub fn plan_preview(
        &self,
        width: u32,
        height: u32,
        process_id: u32,
        timestamp: Result<u128, String>,
    ) -> (result: Result<PreviewPlan, String>)
        ensures
            match (result, SessionView::<Position>::plan_refusal(width, height, timestamp)) {
                (Ok(plan), None) => {
                    &&& plan.wf()
                    &&& crate::protocol::packed_layout_of(
                        width,
                        height,
                        PREVIEW_SLOT_COUNT,
                        PreviewPixelFormat::Rgba8Unorm,
                    ) == Ok::<PreviewLayout, crate::protocol::PreviewLayoutError>(plan.layout)
                    &&& timestamp matches Ok(timestamp) && plan.shm_id@
                        == crate::names::shared_memory_name(process_id, self@.runs, timestamp)
                },
                (Err(message), Some(expected)) => message@ == expected,
                _ => false,
            },
    {
        let layout = match PreviewLayout::packed_rgba(width, height, PREVIEW_SLOT_COUNT) {
            Ok(layout) => layout,
            Err(error) => return Err(error.message()),
        };
        let timestamp = match timestamp {
            Ok(timestamp) => timestamp,
            Err(error) => return Err(error),
        };
        let shm_id = preview_shm_id(process_id, self.run_counter, timestamp);
        match PreviewShmHeader::new(
            width,
            height,
            layout.capacity,
            PreviewPixelFormat::Rgba8Unorm,
        ) {
            Ok(header) => Ok(PreviewPlan { shm_id, layout, header }),
            Err(error) => Err(error.message()),
        }
    }

    /// The position to start the selected scene at.
    pub fn restored_position<F: Fn(Position) -> Position>(&self, clamp: F, start: Position) -> (
    position: Position)
        requires
            forall|time: Position| clamp.requires((time,)),
        ensures
            ({
                let scene = (self@.file, self@.selected);
                if self@.positions.contains_key(scene) {
                    clamp.ensures((self@.positions[scene],), position)
                } else {
                    position == start
                }
            }),
    {
        let scene = SceneId {
            source: self.current_file.clone(),
            name: self.selected_scene.clone(),
        };
        self.positions.restored_playback_time(&scene, clamp, start)
    }

    /// Prepares the preview that was planned, from `frame` on. Gives the command
    /// that opens it.
    pub fn prepare_preview(
        &mut self,
        plan: &PreviewPlan,
        total_frames: u32,
        framerate: u32,
        frame: u32,
    ) -> (command: EditorCommand)
        requires
            plan.wf(),
        ensures
            final(self)@ == old(self)@.previewing(plan.layout, total_frames, framerate, frame),
            final(self)@.wf(),
            command matches EditorCommand::OpenPreview { shm_id } && shm_id@ == plan.shm_id@,
    {
        let width: u32 = plan.layout.width;
        let height: u32 = plan.layout.height;
        proof {
            crate::protocol::picture_fits(plan.layout);
        }
        self.schedule.prepare(total_frames, width, height, frame);
        self.preview_framerate = if framerate < 1 {
            1
        } else {
            framerate
        };
        self.preview_size = (width, height);
        self.active_scene = Some(
            SceneId { source: self.current_file.clone(), name: self.selected_scene.clone() },
        );
        self.render_failed = false;
        self.execution_result = "Preparing preview...".to_owned();
        EditorCommand::OpenPreview { shm_id: plan.shm_id.clone() }
    }

    /// Asks for what the desired frame needs.
    fn advance<Link, F: Fn(Link, EditorCommand) -> (Link, Option<u64>)>(
        &mut self,
        forward: bool,
        needed: usize,
        link: Link,
        send: F,
    ) -> (last: Link)
        requires
            old(self)@.wf(),
            forall|link: Link, command: EditorCommand| send.requires((link, command)),
        ensures
            old(self)@.advances(forward, needed, send, link, final(self)@, last),
            final(self)@.wf(),
    {
        let frame: u32 = self.schedule.desired_frame();
        self.schedule.set_preview_target(frame, forward, needed, link, send)
    }

    /// The command that opens the preview was sent, or could not be sent.
    pub fn preview_requested<Link, F: Fn(Link, EditorCommand) -> (Link, Option<u64>)>(
        &mut self,
        delivery: Delivery,
        forward: bool,
        needed: usize,
        link: Link,
        send: F,
    ) -> (reply: (Link, Result<(), String>))
        requires
            old(self)@.wf(),
            forall|link: Link, command: EditorCommand| send.requires((link, command)),
        ensures
            match delivery {
                Delivery::Sent => {
                    &&& reply.1 is Ok
                    &&& (SessionView {
                        schedule: (ScheduleView { ready: true, ..old(self)@.schedule }),
                        ..old(self)@
                    }).advances(forward, needed, send, link, final(self)@, reply.0)
                },
                Delivery::NoChannel => {
                    &&& reply.0 == link
                    &&& reply.1 matches Err(message) && message@
                        == "editor command channel is unavailable"@
                    &&& final(self)@ == old(self)@
                },
                Delivery::Stopped => {
                    &&& reply.0 == link
                    &&& reply.1 matches Err(message) && message@
                        == "Python renderer stopped before opening the preview"@
                    &&& final(self)@ == old(self)@
                },
            },
            final(self)@.wf(),
    {
        match delivery {
            Delivery::Sent => {
                self.schedule.set_ready();
                (self.advance(forward, needed, link, send), Ok(()))
            },
            Delivery::NoChannel => {
                (link, Err("editor command channel is unavailable".to_owned()))
            },
            Delivery::Stopped => {
                (link, Err("Python renderer stopped before opening the preview".to_owned()))
            },
        }
    }

    /// The renderer has opened the preview.
    pub fn preview_opened<Link, F: Fn(Link, EditorCommand) -> (Link, Option<u64>)>(
        &mut self,
        forward: bool,
        needed: usize,
        link: Link,
        send: F,
    ) -> (last: Link)
        requires
            old(self)@.wf(),
            forall|link: Link, command: EditorCommand| send.requires((link, command)),
        ensures
            (SessionView {
                schedule: (ScheduleView { ready: true, ..old(self)@.schedule }),
                result: "Preview ready"@,
                ..old(self)@
            }).advances(forward, needed, send, link, final(self)@, last),
            final(self)@.wf(),
    {
        self.schedule.set_ready();
        self.execution_result = "Preview ready".to_owned();
        self.advance(forward, needed, link, send)
    }

    /// A rendered frame came in.
    pub fn frame_ready<Link, F: Fn(Link, EditorCommand) -> (Link, Option<u64>)>(
        &mut self,
        request_id: u64,
        frame: u32,
        slot: u32,
        image: Arc<egui::ColorImage>,
        forward: bool,
        needed: usize,
        link: Link,
        send: F,
    ) -> (last: Link)
        requires
            old(self)@.wf(),
            forall|link: Link, command: EditorCommand| send.requires((link, command)),
        ensures
            old(self)@.with_frame(request_id, frame, slot, image, forward).advances(
                forward,
                needed,
                send,
                link,
                final(self)@,
                last,
            ),
            final(self)@.wf(),
    {
        match self.schedule.accept_preview_frame(request_id, frame, slot, image, forward) {
            Ok(_) => {},
            Err(error) => self.report_error(error.as_str()),
        }
        self.advance(forward, needed, link, send)
    }
}

/// A position belongs to its scene: when a scene is left, where playback stood is
/// what is found for that scene, and what is found for every other one stays.
pub proof fn position_belongs_to_its_scene<Position>(
    session: SessionView<Position>,
    position: Position,
    other: (Seq<char>, Seq<char>),
)
    ensures
        session.active matches Some(scene) ==> {
            let after = session.remembered(position).positions;
            &&& after.contains_key(scene) && after[scene] == position
            &&& other != scene ==> {
                &&& after.contains_key(other) == session.positions.contains_key(other)
                &&& after.contains_key(other) ==> after[other] == session.positions[other]
            }
        },
        session.active is None ==> session.remembered(position) == session,
        session.run_begun(position).positions == session.remembered(position).positions,
{
}

/// A frame that answers no open request changes nothing but what the person is told.
pub proof fn unasked_frame_is_reported<Position>(
    session: SessionView<Position>,
    request_id: u64,
    frame: u32,
    slot: u32,
    image: Arc<egui::ColorImage>,
    forward: bool,
)
    requires
        session.schedule.answered(request_id, frame, slot) is None,
    ensures
        session.with_frame(request_id, frame, slot, image, forward) == (SessionView {
            failed: true,
            result: "Error: "@ + "preview completion does not match the in-flight request"@,
            ..session
        }),
{
}

/// A selected scene stays selected exactly where the script has it. Else the first
/// scene is selected, or none where there is none. Nothing else changes.
pub proof fn selection_follows_the_scenes<Position>(
    session: SessionView<Position>,
    scenes: Seq<Seq<char>>,
)
    ensures
        ({
            let after = session.with_scenes(scenes);
            &&& after.scenes == scenes
            &&& scenes.contains(session.selected) ==> after.selected == session.selected
            &&& scenes.len() > 0 ==> scenes.contains(after.selected)
            &&& !scenes.contains(session.selected) && scenes.len() > 0 ==> after.selected
                == scenes[0]
            &&& scenes.len() == 0 ==> after.selected.len() == 0
            &&& after == (SessionView { scenes, selected: after.selected, ..session })
        }),
{
    if scenes.len() > 0 {
        assert(scenes.contains(scenes[0]));
    }
}

/// Another scene that is picked is loaded, and the shown one is left with its position
/// remembered. The same scene again, or none, only is the selected one.
pub proof fn picked_scene_is_selected<Position>(
    session: SessionView<Position>,
    scene: Seq<char>,
    position: Position,
)
    ensures
        ({
            let after = session.with_selected(scene, position);
            let other = scene != session.selected && scene.len() > 0;
            &&& session.changes_to(scene) <==> other
            &&& after.selected == scene
            &&& other ==> after.active is None
            &&& other && session.active is Some ==> after.positions == session.positions.insert(
                session.active->0,
                position,
            )
            &&& !other ==> after.active == session.active
            &&& !other || session.active is None ==> after.positions == session.positions
            &&& after == (SessionView {
                selected: after.selected,
                active: after.active,
                positions: after.positions,
                ..session
            })
        }),
{
}

/// A run is counted, leaves the shown scene and, once it has started, gives up the
/// preview. An error is told as one and marks the run as failed.
pub proof fn runs_start_over<Position>(
    session: SessionView<Position>,
    position: Position,
    error: Seq<char>,
)
    requires
        session.runs < u32::MAX,
    ensures
        ({
            let begun = session.run_begun(position);
            let started = session.run_started();
            let reported = session.reported(error);
            &&& begun.runs == session.runs + 1 && begun.active is None
            &&& begun == (SessionView {
                runs: begun.runs,
                active: None,
                positions: begun.positions,
                ..session
            })
            &&& started.schedule.cache is None && started.schedule.total == 0
            &&& started.schedule.requests.dom() == Set::<u64>::empty()
            &&& started.schedule.next_id == session.schedule.next_id
            &&& started.schedule.playing == session.schedule.playing
            &&& started.result == "Running script..."@ && !started.failed
            &&& started == (SessionView {
                schedule: started.schedule,
                result: started.result,
                failed: false,
                ..session
            })
            &&& reported.failed && reported.result == "Error: "@ + error
            &&& reported == (SessionView { failed: true, result: reported.result, ..session })
        }),
{
    assert(Map::<u64, crate::plan::PreviewRequest>::empty().dom() =~= Set::<u64>::empty());
}

/// A prepared preview is one of the selected scene of the edited script, in its size
/// and with at least one frame to a second. It starts from nothing at the frame that
/// was asked for, or the last one, with a cache as large as the budget allows.
pub proof fn previews_show_the_selected_scene<Position>(
    session: SessionView<Position>,
    layout: PreviewLayout,
    total_frames: u32,
    framerate: u32,
    frame: u32,
)
    ensures
        ({
            let after = session.previewing(layout, total_frames, framerate, frame);
            let frame_bytes = layout.width * layout.height * 4;
            &&& after.active == Some((session.file, session.selected))
            &&& after.size == (layout.width, layout.height)
            &&& after.framerate >= 1 && (framerate >= 1 ==> after.framerate == framerate)
            &&& framerate == 0 ==> after.framerate == 1
            &&& !after.failed && after.result == "Preparing preview..."@
            &&& after.schedule.total == total_frames
            &&& frame < total_frames ==> after.schedule.desired == frame
            &&& frame >= total_frames > 0 ==> after.schedule.desired == total_frames - 1
            &&& !after.schedule.ready && after.schedule.requests.dom() == Set::<u64>::empty()
            &&& after.schedule.next_id == session.schedule.next_id
            &&& after.schedule.playing == session.schedule.playing
            &&& after.schedule.looping == session.schedule.looping
            &&& after.schedule.cache matches Some(cache) && {
                &&& cache.order.len() == 0
                &&& 16 <= cache.capacity <= 256
                &&& cache.capacity > 16 ==> cache.capacity * frame_bytes <= 536_870_912
                &&& cache.capacity < 256 ==> (cache.capacity + 1) * frame_bytes > 536_870_912
            }
            &&& after == (SessionView {
                schedule: after.schedule,
                framerate: after.framerate,
                size: after.size,
                active: after.active,
                failed: false,
                result: after.result,
                ..session
            })
        }),
{
    crate::plan::cache_is_as_large_as_its_budget(layout.width, layout.height);
    crate::plan::previews_start_from_nothing(
        session.schedule,
        total_frames,
        crate::plan::cache_capacity_of(layout.width, layout.height),
        frame,
    );
}

/// A preview can be planned exactly where 16 frames of its size, packed, can be laid
/// out and the time is known. What is wrong with the size is told first.
pub proof fn plans_need_a_size_and_a_time<Position>(
    width: u32,
    height: u32,
    timestamp: Result<u128, String>,
)
    ensures
        ({
            let refusal = SessionView::<Position>::plan_refusal(width, height, timestamp);
            let fits = width > 0 && height > 0 && 4 * width <= u32::MAX && 320 + 4 * width * height
                * 16 <= usize::MAX;
            &&& refusal is None <==> fits && timestamp is Ok
            &&& fits && timestamp is Err ==> refusal == Some(timestamp->Err_0@)
        }),
{
    if 4 * width <= u32::MAX {
        crate::protocol::accepted_layouts_fit(
            width,
            height,
            (4 * width) as u32,
            PREVIEW_SLOT_COUNT,
            PreviewPixelFormat::Rgba8Unorm,
        );
    }
    crate::protocol::packed_layouts_have_no_padding(
        width,
        height,
        PREVIEW_SLOT_COUNT,
        PreviewPixelFormat::Rgba8Unorm,
    );
}

/// A frame that answers an open request is taken, and the person is told nothing.
pub proof fn answered_frame_is_taken<Position>(
    session: SessionView<Position>,
    request_id: u64,
    frame: u32,
    slot: u32,
    image: Arc<egui::ColorImage>,
    forward: bool,
)
    requires
        session.wf(),
        session.schedule.requests.contains_key(request_id),
        session.schedule.requests[request_id].frame == frame,
        session.schedule.requests[request_id].slot == slot,
        session.schedule.cache is Some,
    ensures
        ({
            let after = session.with_frame(request_id, frame, slot, image, forward);
            &&& after == (SessionView { schedule: after.schedule, ..session })
            &&& after.schedule.requests == session.schedule.requests.remove(request_id)
            &&& after.schedule.free_slots == session.schedule.free_slots.push(slot)
            &&& after.schedule.queue == session.schedule.queue
            &&& after.schedule.desired == session.schedule.desired
        }),
{
}

/// When a session goes on, its schedule is refilled around the desired frame in the
/// direction of playback and asks for what it then needs. Nothing else changes.
pub proof fn sessions_go_on_with_their_schedule<
    Position,
    Link,
    F: Fn(Link, EditorCommand) -> (Link, Option<u64>),
>(
    session: SessionView<Position>,
    forward: bool,
    needed: usize,
    send: F,
    link: Link,
    after: SessionView<Position>,
    last: Link,
)
    requires
        session.wf(),
        session.advances(forward, needed, send, link, after, last),
    ensures
        session.schedule.refilled(forward).dispatches(needed, send, link, after.schedule, last),
        after == (SessionView { schedule: after.schedule, ..session }),
{
    assert(session.schedule.targeted(session.schedule.desired) == session.schedule);
}

} // verus!
