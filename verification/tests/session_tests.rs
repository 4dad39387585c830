use obs_service::errors::{Error, ObjectKind, Subsystem};
use obs_service::session::{
    module_name, EngineAction, EngineOutcome, InitGate, Phase, Session, SessionSettings,
    MODULE_COUNT,
};

fn settings() -> SessionSettings {
    SessionSettings {
        base_width: 1280,
        base_height: 720,
        output_width: 1280,
        output_height: 720,
        fps: 30,
        audio_samples_per_sec: 48000,
        stream_url: String::from("rtmp://localhost:1935/live/"),
        stream_key: String::from("key"),
    }
}

/// Drive a fresh machine through graphics, startup, video and audio.
fn bring_up_to_modules(s: &mut Session) {
    s.apply(EngineOutcome::GraphicsAcquired { extension_supported: true }).unwrap();
    s.apply(EngineOutcome::EngineStarted { started: true, initialized: true }).unwrap();
    s.apply(EngineOutcome::VideoReset { code: 0 }).unwrap();
    s.apply(EngineOutcome::AudioReset { code: 0 }).unwrap();
}

/// Drive the machine through every module and all four objects.
fn bring_up_to_scene(s: &mut Session) {
    bring_up_to_modules(s);
    for _ in 0..MODULE_COUNT {
        s.apply(EngineOutcome::ModuleLoaded { open_code: 0, initialized: true }).unwrap();
    }
    for _ in 0..4 {
        s.apply(EngineOutcome::ObjectCreated { ok: true }).unwrap();
    }
}

#[test]
fn successful_bring_up_walks_every_phase_in_order() {
    let mut gate = InitGate::new();
    let mut s = Session::new(settings(), &mut gate).unwrap();
    assert_eq!(s.current_phase(), Phase::NeedGraphics);
    assert_eq!(s.next_action(), Some(EngineAction::AcquireGraphics));

    s.apply(EngineOutcome::GraphicsAcquired { extension_supported: true }).unwrap();
    assert_eq!(s.next_action(), Some(EngineAction::StartEngine));
    s.apply(EngineOutcome::EngineStarted { started: true, initialized: true }).unwrap();
    assert_eq!(s.next_action(), Some(EngineAction::ResetVideo));
    s.apply(EngineOutcome::VideoReset { code: 0 }).unwrap();
    assert_eq!(s.next_action(), Some(EngineAction::ResetAudio));
    s.apply(EngineOutcome::AudioReset { code: 0 }).unwrap();

    for k in 0..MODULE_COUNT {
        assert_eq!(s.next_action(), Some(EngineAction::LoadModule { index: k }));
        s.apply(EngineOutcome::ModuleLoaded { open_code: 0, initialized: true }).unwrap();
    }
    assert_eq!(s.next_action(), Some(EngineAction::CreateService));
    s.apply(EngineOutcome::ObjectCreated { ok: true }).unwrap();
    assert_eq!(s.next_action(), Some(EngineAction::CreateOutput));
    s.apply(EngineOutcome::ObjectCreated { ok: true }).unwrap();
    assert_eq!(s.next_action(), Some(EngineAction::CreateAudioEncoder));
    s.apply(EngineOutcome::ObjectCreated { ok: true }).unwrap();
    assert_eq!(s.next_action(), Some(EngineAction::CreateVideoEncoder));
    s.apply(EngineOutcome::ObjectCreated { ok: true }).unwrap();

    assert_eq!(s.current_phase(), Phase::NeedSceneConfig);
    assert_eq!(s.next_action(), Some(EngineAction::AwaitSceneConfig));
    s.load_config_json("{\"sources\":[{\"name\":\"restream\"}]}").unwrap();
    assert_eq!(s.next_action(), Some(EngineAction::LoadScene));
    s.apply(EngineOutcome::SceneLoaded { scene_found: true, missing: Vec::new() }).unwrap();

    assert_eq!(s.current_phase(), Phase::NeedStart);
    assert_eq!(s.next_action(), Some(EngineAction::StartOutput));
    s.start(true).unwrap();
    assert_eq!(s.current_phase(), Phase::Started);
    assert_eq!(s.next_action(), None);
}

#[test]
fn second_session_through_one_gate_is_rejected() {
    let mut gate = InitGate::new();
    let _first = Session::new(settings(), &mut gate).unwrap();
    match Session::new(settings(), &mut gate) {
        Err(Error::InitError) => {},
        other => panic!("second construction was not refused: {:?}", other.is_ok()),
    }
}

#[test]
fn nul_in_stream_target_is_rejected_before_engine_work() {
    let mut gate = InitGate::new();
    let mut bad = settings();
    bad.stream_key = String::from("k\0ey");
    match Session::new(bad, &mut gate) {
        Err(Error::EncodingError) => {},
        other => panic!("NUL was not refused: {:?}", other.is_ok()),
    }
    // a good configuration can still construct afterwards
    let _s = Session::new(settings(), &mut gate).unwrap();
}

#[test]
fn unsupported_graphics_extension_aborts() {
    let mut gate = InitGate::new();
    let mut s = Session::new(settings(), &mut gate).unwrap();
    let r = s.apply(EngineOutcome::GraphicsAcquired { extension_supported: false });
    assert_eq!(r, Err(Error::GraphicsError));
    assert_eq!(s.current_phase(), Phase::Failed);
    assert_eq!(s.next_action(), None);
}

#[test]
fn engine_not_initialized_after_startup_aborts() {
    let mut gate = InitGate::new();
    let mut s = Session::new(settings(), &mut gate).unwrap();
    s.apply(EngineOutcome::GraphicsAcquired { extension_supported: true }).unwrap();
    let r = s.apply(EngineOutcome::EngineStarted { started: true, initialized: false });
    assert_eq!(r, Err(Error::InitError));
    assert_eq!(s.current_phase(), Phase::Failed);
}

#[test]
fn rejected_video_reset_reports_subsystem_and_code() {
    let mut gate = InitGate::new();
    let mut s = Session::new(settings(), &mut gate).unwrap();
    s.apply(EngineOutcome::GraphicsAcquired { extension_supported: true }).unwrap();
    s.apply(EngineOutcome::EngineStarted { started: true, initialized: true }).unwrap();
    let r = s.apply(EngineOutcome::VideoReset { code: 7 });
    assert_eq!(r, Err(Error::ResetError { subsystem: Subsystem::Video, code: 7 }));
    assert_eq!(s.current_phase(), Phase::Failed);
}

#[test]
fn rejected_audio_reset_reports_subsystem_and_code() {
    let mut gate = InitGate::new();
    let mut s = Session::new(settings(), &mut gate).unwrap();
    s.apply(EngineOutcome::GraphicsAcquired { extension_supported: true }).unwrap();
    s.apply(EngineOutcome::EngineStarted { started: true, initialized: true }).unwrap();
    s.apply(EngineOutcome::VideoReset { code: 0 }).unwrap();
    let r = s.apply(EngineOutcome::AudioReset { code: -2 });
    assert_eq!(r, Err(Error::ResetError { subsystem: Subsystem::Audio, code: -2 }));
    assert_eq!(s.current_phase(), Phase::Failed);
}

#[test]
fn module_failure_at_position_k_aborts_and_later_modules_are_never_asked_for() {
    let k: usize = 3;
    let mut gate = InitGate::new();
    let mut s = Session::new(settings(), &mut gate).unwrap();
    bring_up_to_modules(&mut s);
    for _ in 0..k {
        s.apply(EngineOutcome::ModuleLoaded { open_code: 0, initialized: true }).unwrap();
    }
    assert_eq!(s.next_action(), Some(EngineAction::LoadModule { index: k }));
    let r = s.apply(EngineOutcome::ModuleLoaded { open_code: 1, initialized: false });
    assert_eq!(r, Err(Error::ModuleLoadError { module: k }));
    assert_eq!(s.current_phase(), Phase::Failed);
    // no module after position k is ever requested
    assert_eq!(s.next_action(), None);
}

#[test]
fn module_open_ok_but_init_failure_also_aborts() {
    let mut gate = InitGate::new();
    let mut s = Session::new(settings(), &mut gate).unwrap();
    bring_up_to_modules(&mut s);
    let r = s.apply(EngineOutcome::ModuleLoaded { open_code: 0, initialized: false });
    assert_eq!(r, Err(Error::ModuleLoadError { module: 0 }));
}

#[test]
fn null_object_creation_aborts_with_the_object_kind() {
    let mut gate = InitGate::new();
    let mut s = Session::new(settings(), &mut gate).unwrap();
    bring_up_to_modules(&mut s);
    for _ in 0..MODULE_COUNT {
        s.apply(EngineOutcome::ModuleLoaded { open_code: 0, initialized: true }).unwrap();
    }
    s.apply(EngineOutcome::ObjectCreated { ok: true }).unwrap();
    let r = s.apply(EngineOutcome::ObjectCreated { ok: false });
    assert_eq!(r, Err(Error::AllocationError { object: ObjectKind::Output }));
    assert_eq!(s.current_phase(), Phase::Failed);
}

#[test]
fn scene_load_failures_and_missing_files_report() {
    let mut gate = InitGate::new();
    let mut s = Session::new(settings(), &mut gate).unwrap();
    bring_up_to_scene(&mut s);

    // malformed text
    let mut gate2 = InitGate::new();
    let mut s2 = Session::new(settings(), &mut gate2).unwrap();
    bring_up_to_scene(&mut s2);
    assert_eq!(s2.load_config_json("{nope}"), Err(Error::ParseError));
    assert_eq!(s2.current_phase(), Phase::Failed);

    // a document without a sources array
    let mut gate3 = InitGate::new();
    let mut s3 = Session::new(settings(), &mut gate3).unwrap();
    bring_up_to_scene(&mut s3);
    match s3.load_config_json("{\"scenes\":[]}") {
        Err(Error::LookupError { name, .. }) => assert_eq!(name, "sources"),
        other => panic!("expected a lookup failure, got {:?}", other.is_ok()),
    }

    // a good load collects the missing-media report without failing
    s.load_config_json("{\"sources\":[{\"name\":\"restream\"}]}").unwrap();
    assert_eq!(s.sources_to_load().len(), 1);
    s.apply(EngineOutcome::SceneLoaded {
        scene_found: true,
        missing: vec![String::from("/media/intro.mkv")],
    })
    .unwrap();
    assert_eq!(s.missing_files().len(), 1);
    assert_eq!(s.missing_files()[0], "/media/intro.mkv");
    assert_eq!(s.current_phase(), Phase::NeedStart);
}

#[test]
fn unresolvable_root_scene_aborts() {
    let mut gate = InitGate::new();
    let mut s = Session::new(settings(), &mut gate).unwrap();
    bring_up_to_scene(&mut s);
    s.load_config_json("{\"sources\":[]}").unwrap();
    let r = s.apply(EngineOutcome::SceneLoaded { scene_found: false, missing: Vec::new() });
    assert_eq!(r, Err(Error::SceneNotFoundError));
    assert_eq!(s.current_phase(), Phase::Failed);
}

#[test]
fn rejected_output_start_aborts() {
    let mut gate = InitGate::new();
    let mut s = Session::new(settings(), &mut gate).unwrap();
    bring_up_to_scene(&mut s);
    s.load_config_json("{\"sources\":[]}").unwrap();
    s.apply(EngineOutcome::SceneLoaded { scene_found: true, missing: Vec::new() }).unwrap();
    assert_eq!(s.start(false), Err(Error::OutputStartError));
    assert_eq!(s.current_phase(), Phase::Failed);
}

#[test]
fn module_list_is_fixed_and_ordered() {
    let expected = [
        "image-source",
        "obs-ffmpeg",
        "obs-transitions",
        "rtmp-services",
        "obs-x264",
        "obs-libfdk",
        "obs-outputs",
        "vlc-video",
        "obs-browser",
    ];
    assert_eq!(expected.len(), MODULE_COUNT);
    for (k, want) in expected.iter().enumerate() {
        assert_eq!(module_name(k), *want);
    }
}

#[test]
fn video_mode_and_encoder_settings_duplicate_the_resolution() {
    let mut gate = InitGate::new();
    let s = Session::new(settings(), &mut gate).unwrap();
    let m = s.video_mode();
    assert_eq!(m.fps_num, 30);
    assert_eq!(m.fps_den, 1);
    assert_eq!(m.base_width, 1280);
    assert_eq!(m.output_height, 720);
    let a = s.audio_mode();
    assert_eq!(a.samples_per_sec, 48000);
    assert_eq!(a.speakers, 2);
    assert_eq!(
        s.video_encoder_settings().to_json(),
        "{\"bitrate\":2000,\"keyint_sec\":2,\"rate_control\":\"CBR\",\"width\":1280,\
         \"height\":720,\"fps_num\":30,\"fps_den\":1,\"preset\":\"ultrafast\",\
         \"profile\":\"main\",\"tune\":\"zerolatency\",\"x264opts\":\"\"}"
    );
    assert_eq!(
        s.audio_encoder_settings().to_json(),
        "{\"bitrate\":48000,\"afterburner\":true}"
    );
    assert_eq!(
        s.service_settings().to_json(),
        "{\"server\":\"rtmp://localhost:1935/live/\",\"key\":\"key\"}"
    );
}
