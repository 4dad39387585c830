//! Pipeline session lifecycle.
//!
//! Bringing a session up is a strictly ordered walk through the lifecycle
//! states, with no rollback and no retry: graphics context, engine startup,
//! video mode, audio mode, a fixed ordered list of plugin modules, the four
//! engine objects, the scene, and finally the output start.  Any failure
//! aborts construction wholesale; a caller never sees a half-built session.
//!
//! The engine itself is an external collaborator.  [`Session`] is the
//! decision half of the bring-up: [`Session::next_action`] says what the
//! driver must ask of the engine, and [`Session::apply`] judges the
//! outcome the engine reported, advancing or aborting the machine.  The
//! ghost trace of visited lifecycle states is pinned by [`Session::wf`]:
//! a machine that reaches `Started` has visited every state exactly once,
//! in order.

use vstd::prelude::*;

use crate::errors::{Error, ObjectKind, Subsystem};
use crate::settings::{check_nul_free, nul_free, Data, ValModel};

verus! {

/// The externally chosen parameters of a session.
pub struct SessionSettings {
    pub base_width: u32,
    pub base_height: u32,
    pub output_width: u32,
    pub output_height: u32,
    pub fps: u32,
    pub audio_samples_per_sec: u32,
    pub stream_url: String,
    pub stream_key: String,
}

/// The stream target strings can cross the native boundary.
pub open spec fn wf_settings(s: SessionSettings) -> bool {
    nul_free(s.stream_url@) && nul_free(s.stream_key@)
}

/// The lifecycle states, in their one legal order.
#[derive(Clone, Copy, Debug, PartialEq, Eq, Structural)]
pub enum LifecycleState {
    Uninitialized,
    VideoConfigured,
    AudioConfigured,
    ModulesLoaded,
    ObjectsCreated,
    ScenesLoaded,
    Started,
}

/// The one legal order of lifecycle states.
pub open spec fn lifecycle_order() -> Seq<LifecycleState> {
    seq![
        LifecycleState::Uninitialized,
        LifecycleState::VideoConfigured,
        LifecycleState::AudioConfigured,
        LifecycleState::ModulesLoaded,
        LifecycleState::ObjectsCreated,
        LifecycleState::ScenesLoaded,
        LifecycleState::Started,
    ]
}

/// How many plugin modules the fixed list holds.
pub const MODULE_COUNT: usize = 9;

/// The status code the engine reports for a successful mode reset.
pub const ENGINE_SUCCESS: i32 = 0;

/// The status code the engine reports for a successful module open.
pub const MODULE_SUCCESS: i32 = 0;

/// The fixed, ordered list of plugin modules.
pub open spec fn spec_module_name(index: int) -> Seq<char> {
    if index == 0 {
        "image-source"@
    } else if index == 1 {
        "obs-ffmpeg"@
    } else if index == 2 {
        "obs-transitions"@
    } else if index == 3 {
        "rtmp-services"@
    } else if index == 4 {
        "obs-x264"@
    } else if index == 5 {
        "obs-libfdk"@
    } else if index == 6 {
        "obs-outputs"@
    } else if index == 7 {
        "vlc-video"@
    } else {
        "obs-browser"@
    }
}

/// The name of the plugin module at `index` of the fixed list.
pub fn module_name(index: usize) -> (r: &'static str)
    requires
        index < MODULE_COUNT,
    ensures
        r@ == spec_module_name(index as int),
{
    if index == 0 {
        "image-source"
    } else if index == 1 {
        "obs-ffmpeg"
    } else if index == 2 {
        "obs-transitions"
    } else if index == 3 {
        "rtmp-services"
    } else if index == 4 {
        "obs-x264"
    } else if index == 5 {
        "obs-libfdk"
    } else if index == 6 {
        "obs-outputs"
    } else if index == 7 {
        "vlc-video"
    } else {
        "obs-browser"
    }
}

/// The pixel format the video mode is reset to.
#[derive(Clone, Copy, Debug, PartialEq, Eq, Structural)]
pub enum PixelFormat {
    Nv12,
}

/// The video mode handed to the engine's video reset.
#[derive(Clone, Copy, Debug, PartialEq, Eq, Structural)]
pub struct VideoMode {
    pub adapter: u32,
    pub pixel_format: PixelFormat,
    pub fps_num: u32,
    pub fps_den: u32,
    pub base_width: u32,
    pub base_height: u32,
    pub output_width: u32,
    pub output_height: u32,
    pub gpu_conversion: bool,
}

/// The audio mode handed to the engine's audio reset.
#[derive(Clone, Copy, Debug, PartialEq, Eq, Structural)]
pub struct AudioMode {
    pub samples_per_sec: u32,
    pub speakers: u32,
}

/// The video mode a session derives from its settings.
pub open spec fn spec_video_mode(s: SessionSettings) -> VideoMode {
    VideoMode {
        adapter: 0,
        pixel_format: PixelFormat::Nv12,
        fps_num: s.fps,
        fps_den: 1,
        base_width: s.base_width,
        base_height: s.base_height,
        output_width: s.output_width,
        output_height: s.output_height,
        gpu_conversion: true,
    }
}

/// The audio mode a session derives from its settings.
pub open spec fn spec_audio_mode(s: SessionSettings) -> AudioMode {
    AudioMode { samples_per_sec: s.audio_samples_per_sec, speakers: 2 }
}

/// Where the bring-up stands: what the machine needs next.
#[derive(Clone, Copy, Debug, PartialEq, Eq, Structural)]
pub enum Phase {
    NeedGraphics,
    NeedStartup,
    NeedVideoReset,
    NeedAudioReset,
    NeedModule { index: usize },
    NeedService,
    NeedOutput,
    NeedAudioEncoder,
    NeedVideoEncoder,
    NeedSceneConfig,
    NeedSceneOutcome,
    NeedStart,
    Started,
    Failed,
}

/// One unit of engine work the driver must perform next.
#[derive(Clone, Copy, Debug, PartialEq, Eq, Structural)]
pub enum EngineAction {
    /// Acquire the display and query the graphics extension.
    AcquireGraphics,
    /// Start the engine with its locale.
    StartEngine,
    /// Reset the video mode to [`Session::video_mode`].
    ResetVideo,
    /// Reset the audio mode to [`Session::audio_mode`].
    ResetAudio,
    /// Open and initialize the plugin module named `module_name(index)`.
    LoadModule { index: usize },
    /// Create the delivery service and apply [`Session::service_settings`].
    CreateService,
    /// Create the output object.
    CreateOutput,
    /// Create the audio encoder and apply
    /// [`Session::audio_encoder_settings`].
    CreateAudioEncoder,
    /// Create the video encoder and apply
    /// [`Session::video_encoder_settings`].
    CreateVideoEncoder,
    /// Hand the scene configuration text to
    /// [`Session::load_config_json`].
    AwaitSceneConfig,
    /// Instantiate the extracted sources, resolve the root scene and bind
    /// encoders and service to the output.
    LoadScene,
    /// Start the output.
    StartOutput,
}

/// What the engine reported for one unit of work.
pub enum EngineOutcome {
    /// The display was opened; was the graphics extension supported?
    GraphicsAcquired { extension_supported: bool },
    /// The engine start call returned, and the engine reports itself
    /// initialized or not.
    EngineStarted { started: bool, initialized: bool },
    /// The video reset's status code; `ENGINE_SUCCESS` means accepted.
    VideoReset { code: i32 },
    /// The audio reset's status code; `ENGINE_SUCCESS` means accepted.
    AudioReset { code: i32 },
    /// A module open's status code and whether its initialization ran.
    ModuleLoaded { open_code: i32, initialized: bool },
    /// Whether the requested engine object came back non-null.
    ObjectCreated { ok: bool },
    /// The scene load ran; was the root scene resolvable, and which
    /// referenced media files were missing (a non-fatal report)?
    SceneLoaded { scene_found: bool, missing: Vec<String> },
    /// Whether the engine accepted the output start.
    OutputStarted { ok: bool },
}

/// Does the outcome answer what the phase is waiting for?
pub open spec fn expects(p: Phase, o: EngineOutcome) -> bool {
    match (p, o) {
        (Phase::NeedGraphics, EngineOutcome::GraphicsAcquired { .. }) => true,
        (Phase::NeedStartup, EngineOutcome::EngineStarted { .. }) => true,
        (Phase::NeedVideoReset, EngineOutcome::VideoReset { .. }) => true,
        (Phase::NeedAudioReset, EngineOutcome::AudioReset { .. }) => true,
        (Phase::NeedModule { .. }, EngineOutcome::ModuleLoaded { .. }) => true,
        (Phase::NeedService, EngineOutcome::ObjectCreated { .. }) => true,
        (Phase::NeedOutput, EngineOutcome::ObjectCreated { .. }) => true,
        (Phase::NeedAudioEncoder, EngineOutcome::ObjectCreated { .. }) => true,
        (Phase::NeedVideoEncoder, EngineOutcome::ObjectCreated { .. }) => true,
        (Phase::NeedSceneOutcome, EngineOutcome::SceneLoaded { .. }) => true,
        (Phase::NeedStart, EngineOutcome::OutputStarted { .. }) => true,
        _ => false,
    }
}

/// The engine work each phase asks for; `None` once started or failed.
pub open spec fn spec_action(p: Phase) -> Option<EngineAction> {
    match p {
        Phase::NeedGraphics => Some(EngineAction::AcquireGraphics),
        Phase::NeedStartup => Some(EngineAction::StartEngine),
        Phase::NeedVideoReset => Some(EngineAction::ResetVideo),
        Phase::NeedAudioReset => Some(EngineAction::ResetAudio),
        Phase::NeedModule { index } => Some(EngineAction::LoadModule { index }),
        Phase::NeedService => Some(EngineAction::CreateService),
        Phase::NeedOutput => Some(EngineAction::CreateOutput),
        Phase::NeedAudioEncoder => Some(EngineAction::CreateAudioEncoder),
        Phase::NeedVideoEncoder => Some(EngineAction::CreateVideoEncoder),
        Phase::NeedSceneConfig => Some(EngineAction::AwaitSceneConfig),
        Phase::NeedSceneOutcome => Some(EngineAction::LoadScene),
        Phase::NeedStart => Some(EngineAction::StartOutput),
        Phase::Started => None,
        Phase::Failed => None,
    }
}

/// How many lifecycle states a machine in phase `p` has visited.
pub open spec fn milestone_count(p: Phase) -> int {
    match p {
        Phase::NeedGraphics => 1,
        Phase::NeedStartup => 1,
        Phase::NeedVideoReset => 1,
        Phase::NeedAudioReset => 2,
        Phase::NeedModule { .. } => 3,
        Phase::NeedService => 4,
        Phase::NeedOutput => 4,
        Phase::NeedAudioEncoder => 4,
        Phase::NeedVideoEncoder => 4,
        Phase::NeedSceneConfig => 5,
        Phase::NeedSceneOutcome => 5,
        Phase::NeedStart => 6,
        Phase::Started => 7,
        Phase::Failed => 0,
    }
}

/// Is `t` an in-order prefix of the lifecycle?
pub open spec fn is_lifecycle_prefix(t: Seq<LifecycleState>) -> bool {
    exists|k: int| 0 <= k <= 7 && t == lifecycle_order().take(k)
}

/// The one-shot gate for engine initialization: the engine is started at
/// most once per process, so at most one session is ever constructed
/// through one gate.
pub struct InitGate {
    used: bool,
}

impl InitGate {
    /// Has a session already been constructed through this gate?
    pub closed spec fn is_used(self) -> bool {
        self.used
    }

    /// A fresh gate: no session constructed yet.
    pub fn new() -> (r: InitGate)
        ensures
            !r.is_used(),
    {
        InitGate { used: false }
    }
}

/// The decision half of the pipeline bring-up, and the handle that an
/// active broadcast leaves behind.
pub struct Session {
    phase: Phase,
    settings: SessionSettings,
    missing_files: Vec<String>,
    scene_sources: Option<crate::settings::Array>,
    visited: Ghost<Seq<LifecycleState>>,
}

impl Session {
    /// Where the bring-up stands.
    pub closed spec fn phase(self) -> Phase {
        self.phase
    }

    /// The lifecycle states visited so far, in visit order.
    pub closed spec fn trace(self) -> Seq<LifecycleState> {
        self.visited@
    }

    /// The settings this session was constructed from.
    pub closed spec fn settings(self) -> SessionSettings {
        self.settings
    }

    /// The missing-media report collected during the scene load.
    pub closed spec fn missing(self) -> Seq<String> {
        self.missing_files@
    }

    /// The source descriptors extracted from the scene configuration,
    /// once it has been loaded.
    pub closed spec fn sources(self) -> Option<Seq<Seq<(Seq<char>, ValModel)>>> {
        match self.scene_sources {
            Some(a) => Some(a.model()),
            None => None,
        }
    }

    /// The machine's invariant: settings can cross the native boundary,
    /// a module index stays within the fixed list, and the visited trace
    /// is exactly the in-order lifecycle prefix the phase accounts for.
    pub closed spec fn wf(self) -> bool {
        &&& wf_settings(self.settings)
        &&& (self.phase matches Phase::NeedModule { index } ==> index < MODULE_COUNT)
        &&& (self.phase is Failed ==> is_lifecycle_prefix(self.visited@))
        &&& (!(self.phase is Failed) ==> self.visited@ == lifecycle_order().take(
            milestone_count(self.phase),
        ))
        &&& (self.phase is NeedSceneOutcome ==> self.scene_sources is Some)
        &&& (self.scene_sources matches Some(a) ==> a.wf())
    }

    /// Construct the machine for one bring-up.  At most one session passes
    /// any one gate; stream target strings with embedded NUL are rejected
    /// before any engine work is asked for.
    pub fn new(settings: SessionSettings, gate: &mut InitGate) -> (r: Result<Session, Error>)
        ensures
            old(gate).is_used() ==> r == Err::<Session, Error>(Error::InitError)
                && final(gate).is_used(),
            !old(gate).is_used() && !wf_settings(settings) ==> r == Err::<Session, Error>(
                Error::EncodingError,
            ) && !final(gate).is_used(),
            !old(gate).is_used() && wf_settings(settings) ==> {
                &&& final(gate).is_used()
                &&& r matches Ok(s)
                &&& s.wf()
                &&& s.phase() == Phase::NeedGraphics
                &&& s.trace() == seq![LifecycleState::Uninitialized]
                &&& s.settings() == settings
                &&& s.missing() == Seq::<String>::empty()
            },
    {
        if gate.used {
            return Err(Error::InitError);
        }
        if !check_nul_free(settings.stream_url.as_str())
            || !check_nul_free(settings.stream_key.as_str()) {
            return Err(Error::EncodingError);
        }
        gate.used = true;
        let ghost t: Seq<LifecycleState> = seq![LifecycleState::Uninitialized];
        let s = Session {
            phase: Phase::NeedGraphics,
            settings,
            missing_files: Vec::new(),
            scene_sources: None,
            visited: Ghost(t),
        };
        proof {
            assert(lifecycle_order().take(1) =~= seq![LifecycleState::Uninitialized]);
        }
        Ok(s)
    }

    /// The engine work the driver must perform next; `None` once the
    /// broadcast is active or the bring-up has failed.
    pub fn next_action(&self) -> (r: Option<EngineAction>)
        ensures
            r == spec_action(self.phase()),
    {
        match self.phase {
            Phase::NeedGraphics => Some(EngineAction::AcquireGraphics),
            Phase::NeedStartup => Some(EngineAction::StartEngine),
            Phase::NeedVideoReset => Some(EngineAction::ResetVideo),
            Phase::NeedAudioReset => Some(EngineAction::ResetAudio),
            Phase::NeedModule { index } => Some(EngineAction::LoadModule { index }),
            Phase::NeedService => Some(EngineAction::CreateService),
            Phase::NeedOutput => Some(EngineAction::CreateOutput),
            Phase::NeedAudioEncoder => Some(EngineAction::CreateAudioEncoder),
            Phase::NeedVideoEncoder => Some(EngineAction::CreateVideoEncoder),
            Phase::NeedSceneConfig => Some(EngineAction::AwaitSceneConfig),
            Phase::NeedSceneOutcome => Some(EngineAction::LoadScene),
            Phase::NeedStart => Some(EngineAction::StartOutput),
            Phase::Started => None,
            Phase::Failed => None,
        }
    }

    /// Read the phase.
    pub fn current_phase(&self) -> (r: Phase)
        ensures
            r == self.phase(),
    {
        self.phase
    }

    /// Borrow the missing-media report.
    pub fn missing_files(&self) -> (r: &Vec<String>)
        ensures
            r@ == self.missing(),
    {
        &self.missing_files
    }

    /// Judge the outcome the engine reported for the pending action.
    /// On success the machine advances to the next phase in the fixed
    /// order, recording each lifecycle milestone exactly once; on failure
    /// it reports the exact error the outcome dictates and the whole
    /// bring-up is abandoned.
    pub fn apply(&mut self, outcome: EngineOutcome) -> (r: Result<(), Error>)
        requires
            old(self).wf(),
            expects(old(self).phase(), outcome),
        ensures
            final(self).wf(),
            final(self).settings() == old(self).settings(),
            match outcome {
                EngineOutcome::GraphicsAcquired { extension_supported } => {
                    if extension_supported {
                        r is Ok && final(self).phase() == Phase::NeedStartup && final(self).trace()
                            == old(self).trace()
                    } else {
                        r == Err::<(), Error>(Error::GraphicsError) && final(self).phase()
                            == Phase::Failed
                    }
                },
                EngineOutcome::EngineStarted { started, initialized } => {
                    if started && initialized {
                        r is Ok && final(self).phase() == Phase::NeedVideoReset && final(self).trace() == old(self).trace()
                    } else {
                        r == Err::<(), Error>(Error::InitError) && final(self).phase()
                            == Phase::Failed
                    }
                },
                EngineOutcome::VideoReset { code } => {
                    if code == ENGINE_SUCCESS {
                        r is Ok && final(self).phase() == Phase::NeedAudioReset && final(self).trace() == old(self).trace().push(LifecycleState::VideoConfigured)
                    } else {
                        r == Err::<(), Error>(
                            Error::ResetError { subsystem: Subsystem::Video, code },
                        ) && final(self).phase() == Phase::Failed
                    }
                },
                EngineOutcome::AudioReset { code } => {
                    if code == ENGINE_SUCCESS {
                        r is Ok && final(self).phase() == (Phase::NeedModule { index: 0 }) && final(self).trace() == old(self).trace().push(LifecycleState::AudioConfigured)
                    } else {
                        r == Err::<(), Error>(
                            Error::ResetError { subsystem: Subsystem::Audio, code },
                        ) && final(self).phase() == Phase::Failed
                    }
                },
                EngineOutcome::ModuleLoaded { open_code, initialized } => {
                    let k = old(self).phase()->NeedModule_index;
                    if open_code == MODULE_SUCCESS && initialized {
                        if k + 1 == MODULE_COUNT {
                            r is Ok && final(self).phase() == Phase::NeedService && final(self).trace() == old(self).trace().push(LifecycleState::ModulesLoaded)
                        } else {
                            r is Ok && final(self).phase() == (Phase::NeedModule { index: (k
                                + 1) as usize }) && final(self).trace() == old(self).trace()
                        }
                    } else {
                        r == Err::<(), Error>(Error::ModuleLoadError { module: k }) && final(self).phase() == Phase::Failed
                    }
                },
                EngineOutcome::ObjectCreated { ok } => {
                    let obj = match old(self).phase() {
                        Phase::NeedService => ObjectKind::Service,
                        Phase::NeedOutput => ObjectKind::Output,
                        Phase::NeedAudioEncoder => ObjectKind::AudioEncoder,
                        _ => ObjectKind::VideoEncoder,
                    };
                    if ok {
                        match old(self).phase() {
                            Phase::NeedService => r is Ok && final(self).phase()
                                == Phase::NeedOutput && final(self).trace() == old(self).trace(),
                            Phase::NeedOutput => r is Ok && final(self).phase()
                                == Phase::NeedAudioEncoder && final(self).trace() == old(self).trace(),
                            Phase::NeedAudioEncoder => r is Ok && final(self).phase()
                                == Phase::NeedVideoEncoder && final(self).trace() == old(self).trace(),
                            _ => r is Ok && final(self).phase() == Phase::NeedSceneConfig && final(self).trace() == old(self).trace().push(LifecycleState::ObjectsCreated),
                        }
                    } else {
                        r == Err::<(), Error>(Error::AllocationError { object: obj }) && final(self).phase() == Phase::Failed
                    }
                },
                EngineOutcome::SceneLoaded { scene_found, missing } => {
                    &&& final(self).missing() == old(self).missing() + missing@
                    &&& if scene_found {
                        r is Ok && final(self).phase() == Phase::NeedStart && final(self).trace()
                            == old(self).trace().push(LifecycleState::ScenesLoaded)
                    } else {
                        r == Err::<(), Error>(Error::SceneNotFoundError) && final(self).phase()
                            == Phase::Failed
                    }
                },
                EngineOutcome::OutputStarted { ok } => {
                    if ok {
                        r is Ok && final(self).phase() == Phase::Started && final(self).trace()
                            == old(self).trace().push(LifecycleState::Started)
                    } else {
                        r == Err::<(), Error>(Error::OutputStartError) && final(self).phase()
                            == Phase::Failed
                    }
                },
            },
    {
        match outcome {
            EngineOutcome::GraphicsAcquired { extension_supported } => {
                if extension_supported {
                    self.phase = Phase::NeedStartup;
                    Ok(())
                } else {
                    self.phase = Phase::Failed;
                    Err(Error::GraphicsError)
                }
            },
            EngineOutcome::EngineStarted { started, initialized } => {
                if started && initialized {
                    self.phase = Phase::NeedVideoReset;
                    Ok(())
                } else {
                    self.phase = Phase::Failed;
                    Err(Error::InitError)
                }
            },
            EngineOutcome::VideoReset { code } => {
                if code == ENGINE_SUCCESS {
                    self.phase = Phase::NeedAudioReset;
                    proof {
                        self.visited@ = self.visited@.push(LifecycleState::VideoConfigured);
                        assert(lifecycle_order().take(2) =~= lifecycle_order().take(1).push(
                            LifecycleState::VideoConfigured,
                        ));
                    }
                    Ok(())
                } else {
                    self.phase = Phase::Failed;
                    Err(Error::ResetError { subsystem: Subsystem::Video, code })
                }
            },
            EngineOutcome::AudioReset { code } => {
                if code == ENGINE_SUCCESS {
                    self.phase = Phase::NeedModule { index: 0 };
                    proof {
                        self.visited@ = self.visited@.push(LifecycleState::AudioConfigured);
                        assert(lifecycle_order().take(3) =~= lifecycle_order().take(2).push(
                            LifecycleState::AudioConfigured,
                        ));
                    }
                    Ok(())
                } else {
                    self.phase = Phase::Failed;
                    Err(Error::ResetError { subsystem: Subsystem::Audio, code })
                }
            },
            EngineOutcome::ModuleLoaded { open_code, initialized } => {
                let k = match self.phase {
                    Phase::NeedModule { index } => index,
                    _ => 0,
                };
                if open_code == MODULE_SUCCESS && initialized {
                    if k + 1 == MODULE_COUNT {
                        self.phase = Phase::NeedService;
                        proof {
                            self.visited@ = self.visited@.push(LifecycleState::ModulesLoaded);
                            assert(lifecycle_order().take(4) =~= lifecycle_order().take(3).push(
                                LifecycleState::ModulesLoaded,
                            ));
                        }
                    } else {
                        self.phase = Phase::NeedModule { index: k + 1 };
                    }
                    Ok(())
                } else {
                    self.phase = Phase::Failed;
                    Err(Error::ModuleLoadError { module: k })
                }
            },
            EngineOutcome::ObjectCreated { ok } => {
                if ok {
                    match self.phase {
                        Phase::NeedService => {
                            self.phase = Phase::NeedOutput;
                        },
                        Phase::NeedOutput => {
                            self.phase = Phase::NeedAudioEncoder;
                        },
                        Phase::NeedAudioEncoder => {
                            self.phase = Phase::NeedVideoEncoder;
                        },
                        _ => {
                            self.phase = Phase::NeedSceneConfig;
                            proof {
                                self.visited@ = self.visited@.push(LifecycleState::ObjectsCreated);
                                assert(lifecycle_order().take(5) =~= lifecycle_order().take(4).push(
                                    LifecycleState::ObjectsCreated,
                                ));
                            }
                        },
                    }
                    Ok(())
                } else {
                    let obj = match self.phase {
                        Phase::NeedService => ObjectKind::Service,
                        Phase::NeedOutput => ObjectKind::Output,
                        Phase::NeedAudioEncoder => ObjectKind::AudioEncoder,
                        _ => ObjectKind::VideoEncoder,
                    };
                    self.phase = Phase::Failed;
                    Err(Error::AllocationError { object: obj })
                }
            },
            EngineOutcome::SceneLoaded { scene_found, missing } => {
                let mut report = missing;
                self.missing_files.append(&mut report);
                if scene_found {
                    self.phase = Phase::NeedStart;
                    proof {
                        self.visited@ = self.visited@.push(LifecycleState::ScenesLoaded);
                        assert(lifecycle_order().take(6) =~= lifecycle_order().take(5).push(
                            LifecycleState::ScenesLoaded,
                        ));
                    }
                    Ok(())
                } else {
                    self.phase = Phase::Failed;
                    Err(Error::SceneNotFoundError)
                }
            },
            EngineOutcome::OutputStarted { ok } => {
                if ok {
                    self.phase = Phase::Started;
                    proof {
                        self.visited@ = self.visited@.push(LifecycleState::Started);
                        assert(lifecycle_order().take(7) =~= lifecycle_order().take(6).push(
                            LifecycleState::Started,
                        ));
                    }
                    Ok(())
                } else {
                    self.phase = Phase::Failed;
                    Err(Error::OutputStartError)
                }
            },
        }
    }

    /// Begin streaming: judge whether the engine accepted the output
    /// start.  On success the session is an active broadcast: no further
    /// structural change goes through it.
    pub fn start(&mut self, engine_accepted: bool) -> (r: Result<(), Error>)
        requires
            old(self).wf(),
            old(self).phase() is NeedStart,
        ensures
            final(self).wf(),
            engine_accepted ==> r is Ok && final(self).phase() == Phase::Started,
            !engine_accepted ==> r == Err::<(), Error>(Error::OutputStartError) && final(self).phase() == Phase::Failed,
    {
        self.apply(EngineOutcome::OutputStarted { ok: engine_accepted })
    }

    /// Load the scene configuration: parse the text and extract the
    /// `sources` array whose descriptors the engine must instantiate.
    /// Malformed text is a `ParseError`; text without a `sources` array
    /// is a `LookupError` naming the key.  Either failure abandons the
    /// bring-up wholesale.
    pub fn load_config_json(&mut self, json_str: &str) -> (r: Result<(), Error>)
        requires
            old(self).wf(),
            old(self).phase() is NeedSceneConfig,
        ensures
            final(self).wf(),
            final(self).settings() == old(self).settings(),
            match crate::json::spec_parse_document(json_str@) {
                None => r == Err::<(), Error>(Error::ParseError) && final(self).phase()
                    == Phase::Failed,
                Some(doc) => {
                    if crate::settings::pairs_to_map(doc).contains_key("sources"@)
                        && crate::settings::pairs_to_map(doc)["sources"@] matches ValModel::A(_) {
                        &&& r is Ok
                        &&& final(self).phase() == Phase::NeedSceneOutcome
                        &&& final(self).trace() == old(self).trace()
                        &&& final(self).sources() == Some(
                            crate::settings::pairs_to_map(doc)["sources"@]->A_0,
                        )
                    } else {
                        &&& (r matches Err(e) && e matches Error::LookupError { kind, name }
                            && kind == crate::errors::LookupKind::Array && name@ == "sources"@)
                        &&& final(self).phase() == Phase::Failed
                    }
                },
            },
    {
        proof {
            assert(old(self).trace() == lifecycle_order().take(5));
        }
        let parsed = match Data::from_json(json_str) {
            Ok(d) => d,
            Err(e) => {
                self.phase = Phase::Failed;
                return Err(e);
            },
        };
        match parsed.into_array("sources") {
            Ok(arr) => {
                self.scene_sources = Some(arr);
                self.phase = Phase::NeedSceneOutcome;
                Ok(())
            },
            Err(e) => {
                self.phase = Phase::Failed;
                Err(e)
            },
        }
    }

    /// Borrow the extracted source descriptors for the engine to
    /// instantiate.
    pub fn sources_to_load(&self) -> (r: &crate::settings::Array)
        requires
            self.wf(),
            self.phase() is NeedSceneOutcome,
        ensures
            Some(r.model()) == self.sources(),
            r.wf(),
    {
        match &self.scene_sources {
            Some(a) => a,
            None => vstd::pervasive::unreached(),
        }
    }

    /// The video mode the engine must be reset to: resolution and rate
    /// straight from the settings, NV12, one adapter.
    pub fn video_mode(&self) -> (r: VideoMode)
        ensures
            r == spec_video_mode(self.settings()),
    {
        VideoMode {
            adapter: 0,
            pixel_format: PixelFormat::Nv12,
            fps_num: self.settings.fps,
            fps_den: 1,
            base_width: self.settings.base_width,
            base_height: self.settings.base_height,
            output_width: self.settings.output_width,
            output_height: self.settings.output_height,
            gpu_conversion: true,
        }
    }

    /// The audio mode the engine must be reset to: sample rate from the
    /// settings, stereo.
    pub fn audio_mode(&self) -> (r: AudioMode)
        ensures
            r == spec_audio_mode(self.settings()),
    {
        AudioMode { samples_per_sec: self.settings.audio_samples_per_sec, speakers: 2 }
    }
}

/// The initial settings of the delivery service: the stream target and key.
pub open spec fn spec_service_settings(s: SessionSettings) -> Map<Seq<char>, ValModel> {
    Map::<Seq<char>, ValModel>::empty().insert("server"@, ValModel::S(s.stream_url@)).insert(
        "key"@,
        ValModel::S(s.stream_key@),
    )
}

/// The required audio encoder settings: bitrate and quality flag.
pub open spec fn spec_audio_encoder_settings() -> Map<Seq<char>, ValModel> {
    Map::<Seq<char>, ValModel>::empty().insert("bitrate"@, ValModel::I(48000)).insert(
        "afterburner"@,
        ValModel::B(true),
    )
}

/// The required video encoder settings.  Resolution, rate and framing are
/// deliberately duplicated from the video mode, so a pure-software encode
/// path stays correct even when hardware negotiation diverges.
pub open spec fn spec_video_encoder_settings(s: SessionSettings) -> Map<Seq<char>, ValModel> {
    Map::<Seq<char>, ValModel>::empty().insert("bitrate"@, ValModel::I(2000)).insert(
        "keyint_sec"@,
        ValModel::I(2),
    ).insert("rate_control"@, ValModel::S("CBR"@)).insert(
        "width"@,
        ValModel::I(spec_video_mode(s).output_width as int),
    ).insert("height"@, ValModel::I(spec_video_mode(s).output_height as int)).insert(
        "fps_num"@,
        ValModel::I(spec_video_mode(s).fps_num as int),
    ).insert("fps_den"@, ValModel::I(spec_video_mode(s).fps_den as int)).insert(
        "preset"@,
        ValModel::S("ultrafast"@),
    ).insert("profile"@, ValModel::S("main"@)).insert("tune"@, ValModel::S("zerolatency"@)).insert(
        "x264opts"@,
        ValModel::S(""@),
    )
}

impl Session {
    /// Build the delivery service's initial settings.
    pub fn service_settings(&self) -> (r: Data)
        requires
            wf_settings(self.settings()),
        ensures
            r.wf(),
            r.map_model() == spec_service_settings(self.settings()),
    {
        proof {
            reveal_strlit("server");
            reveal_strlit("key");
            assert(nul_free("server"@));
            assert(nul_free("key"@));
        }
        let mut d = Data::new();
        let _ = d.set_string("server", self.settings.stream_url.as_str());
        let _ = d.set_string("key", self.settings.stream_key.as_str());
        d
    }

    /// Build the audio encoder's required settings.
    pub fn audio_encoder_settings(&self) -> (r: Data)
        ensures
            r.wf(),
            r.map_model() == spec_audio_encoder_settings(),
    {
        proof {
            reveal_strlit("bitrate");
            reveal_strlit("afterburner");
            assert(nul_free("bitrate"@));
            assert(nul_free("afterburner"@));
        }
        let mut d = Data::new();
        let _ = d.set_int("bitrate", 48000);
        let _ = d.set_bool("afterburner", true);
        d
    }

    /// Build the video encoder's required settings, duplicating the video
    /// mode's resolution and rate for the software encode path.
    pub fn video_encoder_settings(&self) -> (r: Data)
        ensures
            r.wf(),
            r.map_model() == spec_video_encoder_settings(self.settings()),
    {
        proof {
            reveal_strlit("bitrate");
            reveal_strlit("keyint_sec");
            reveal_strlit("rate_control");
            reveal_strlit("CBR");
            reveal_strlit("width");
            reveal_strlit("height");
            reveal_strlit("fps_num");
            reveal_strlit("fps_den");
            reveal_strlit("preset");
            reveal_strlit("ultrafast");
            reveal_strlit("profile");
            reveal_strlit("main");
            reveal_strlit("tune");
            reveal_strlit("zerolatency");
            reveal_strlit("x264opts");
            reveal_strlit("");
            assert(nul_free("bitrate"@));
            assert(nul_free("keyint_sec"@));
            assert(nul_free("rate_control"@));
            assert(nul_free("CBR"@));
            assert(nul_free("width"@));
            assert(nul_free("height"@));
            assert(nul_free("fps_num"@));
            assert(nul_free("fps_den"@));
            assert(nul_free("preset"@));
            assert(nul_free("ultrafast"@));
            assert(nul_free("profile"@));
            assert(nul_free("main"@));
            assert(nul_free("tune"@));
            assert(nul_free("zerolatency"@));
            assert(nul_free("x264opts"@));
            assert(nul_free(""@));
        }
        let mut d = Data::new();
        let _ = d.set_int("bitrate", 2000);
        let _ = d.set_int("keyint_sec", 2);
        let _ = d.set_string("rate_control", "CBR");
        let _ = d.set_int("width", self.settings.output_width as i64);
        let _ = d.set_int("height", self.settings.output_height as i64);
        let _ = d.set_int("fps_num", self.settings.fps as i64);
        let _ = d.set_int("fps_den", 1);
        let _ = d.set_string("preset", "ultrafast");
        let _ = d.set_string("profile", "main");
        let _ = d.set_string("tune", "zerolatency");
        let _ = d.set_string("x264opts", "");
        d
    }
}

/// Once a bring-up has failed, nothing more is asked of the engine and no
/// further outcome is accepted: work after the failure point is never
/// attempted.
pub proof fn lemma_failure_is_final(o: EngineOutcome)
    ensures
        spec_action(Phase::Failed) is None,
        !expects(Phase::Failed, o),
{
}

/// A well-formed machine that is not failed has visited exactly the
/// in-order lifecycle prefix its phase accounts for: no state skipped,
/// none repeated.
pub proof fn lemma_trace_is_ordered_prefix(s: Session)
    requires
        s.wf(),
        !(s.phase() is Failed),
    ensures
        s.trace() == lifecycle_order().take(milestone_count(s.phase())),
{
}

/// A started machine has visited every lifecycle state exactly once, in
/// the one legal order.
pub proof fn lemma_started_visits_all_states(s: Session)
    requires
        s.wf(),
        s.phase() is Started,
    ensures
        s.trace() == lifecycle_order(),
        s.trace().len() == 7,
        forall|i: int, j: int| 0 <= i < j < 7 ==> s.trace()[i] != s.trace()[j],
{
    assert(lifecycle_order().take(7) =~= lifecycle_order());
    assert(s.trace() == lifecycle_order());
    assert forall|i: int, j: int| 0 <= i < j < 7 implies s.trace()[i] != s.trace()[j] by {
        assert(s.trace()[0] == LifecycleState::Uninitialized);
        assert(s.trace()[1] == LifecycleState::VideoConfigured);
        assert(s.trace()[2] == LifecycleState::AudioConfigured);
        assert(s.trace()[3] == LifecycleState::ModulesLoaded);
        assert(s.trace()[4] == LifecycleState::ObjectsCreated);
        assert(s.trace()[5] == LifecycleState::ScenesLoaded);
        assert(s.trace()[6] == LifecycleState::Started);
    }
}

} // verus!
