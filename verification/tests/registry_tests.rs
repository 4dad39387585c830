use obs_service::errors::{Error, LookupKind};
use obs_service::registry::Registry;
use obs_service::settings::Data;

fn with_sources(names: &[&str]) -> Registry {
    let mut reg = Registry::new();
    for (k, name) in names.iter().enumerate() {
        reg.register(name, true, k % 2 == 0, false, 1000, Data::new()).unwrap();
    }
    reg
}

#[test]
fn snapshot_lists_exactly_the_registered_sources() {
    let reg = with_sources(&[]);
    assert_eq!(reg.snapshot().len(), 0);

    let reg = with_sources(&["cam1"]);
    let snap = reg.snapshot();
    assert_eq!(snap.len(), 1);
    assert_eq!(snap[0].name, "cam1");
    assert!(snap[0].has_video);
    assert!(snap[0].has_audio);
    assert!(!snap[0].is_composite);
    assert_eq!(snap[0].volume_mil, 1000);

    let reg = with_sources(&["cam1", "cam2", "mic"]);
    let snap = reg.snapshot();
    assert_eq!(snap.len(), 3);
    assert_eq!(snap[0].name, "cam1");
    assert_eq!(snap[1].name, "cam2");
    assert_eq!(snap[2].name, "mic");
    assert!(snap[0].has_audio);
    assert!(!snap[1].has_audio);
    assert!(snap[2].has_audio);
}

#[test]
fn register_replaces_a_record_with_the_same_name() {
    let mut reg = with_sources(&["cam1", "cam2"]);
    reg.register("cam1", false, false, true, 250, Data::new()).unwrap();
    let snap = reg.snapshot();
    assert_eq!(snap.len(), 2);
    assert_eq!(snap[0].name, "cam1");
    assert!(!snap[0].has_video);
    assert!(snap[0].is_composite);
    assert_eq!(snap[0].volume_mil, 250);
    assert_eq!(snap[1].name, "cam2");
}

#[test]
fn register_rejects_a_name_with_embedded_nul() {
    let mut reg = Registry::new();
    assert_eq!(
        reg.register("ca\0m", true, true, false, 0, Data::new()),
        Err(Error::EncodingError)
    );
    assert_eq!(reg.count(), 0);
}

#[test]
fn volume_changes_take_effect_per_source() {
    let mut reg = with_sources(&["cam1", "cam2"]);
    reg.set_volume("cam1", 300).unwrap();
    reg.set_volume("cam2", 700).unwrap();
    assert_eq!(reg.get_volume("cam1").unwrap(), 300);
    assert_eq!(reg.get_volume("cam2").unwrap(), 700);
    // writes to distinct sources are independent of order
    let mut reg2 = with_sources(&["cam1", "cam2"]);
    reg2.set_volume("cam2", 700).unwrap();
    reg2.set_volume("cam1", 300).unwrap();
    assert_eq!(reg2.snapshot(), reg.snapshot());
}

#[test]
fn same_source_volume_writes_converge_on_the_last_value() {
    let mut reg = with_sources(&["cam1"]);
    reg.set_volume("cam1", 111).unwrap();
    reg.set_volume("cam1", 222).unwrap();
    assert_eq!(reg.get_volume("cam1").unwrap(), 222);
}

#[test]
fn volume_of_an_unknown_source_is_a_lookup_failure() {
    let mut reg = with_sources(&["cam1"]);
    match reg.set_volume("ghost", 1) {
        Err(Error::LookupError { kind, name }) => {
            assert_eq!(kind, LookupKind::Source);
            assert_eq!(name, "ghost");
        },
        other => panic!("expected a lookup failure, got {:?}", other.is_ok()),
    }
    match reg.get_volume("ghost") {
        Err(Error::LookupError { kind, name }) => {
            assert_eq!(kind, LookupKind::Source);
            assert_eq!(name, "ghost");
        },
        other => panic!("expected a lookup failure, got {:?}", other.is_ok()),
    }
    // nothing changed
    assert_eq!(reg.get_volume("cam1").unwrap(), 1000);
}

#[test]
fn set_stream_url_replaces_the_whole_playlist_value() {
    let mut reg = with_sources(&["cam1", "cam2"]);
    reg.set_stream_url("cam1", "rtmp://x").unwrap();
    assert_eq!(
        reg.get_settings_json("cam1").unwrap(),
        "{\"playlist\":[{\"hidden\":false,\"selected\":false,\"value\":\"rtmp://x\"}]}"
    );
    // the other source is untouched
    assert_eq!(reg.get_settings_json("cam2").unwrap(), "{}");
    // a second redirect replaces the playlist wholesale
    reg.set_stream_url("cam1", "rtmp://y").unwrap();
    assert_eq!(
        reg.get_settings_json("cam1").unwrap(),
        "{\"playlist\":[{\"hidden\":false,\"selected\":false,\"value\":\"rtmp://y\"}]}"
    );
}

#[test]
fn set_stream_url_on_a_missing_source_changes_nothing() {
    let mut reg = with_sources(&["cam1"]);
    let before = reg.snapshot();
    match reg.set_stream_url("missing", "rtmp://x") {
        Err(Error::LookupError { kind, name }) => {
            assert_eq!(kind, LookupKind::Source);
            assert_eq!(name, "missing");
        },
        other => panic!("expected a lookup failure, got {:?}", other.is_ok()),
    }
    assert_eq!(reg.snapshot(), before);
    assert_eq!(reg.get_settings_json("cam1").unwrap(), "{}");
}

#[test]
fn set_stream_url_rejects_a_target_with_embedded_nul() {
    let mut reg = with_sources(&["cam1"]);
    assert_eq!(reg.set_stream_url("cam1", "rtmp://\0x"), Err(Error::EncodingError));
    assert_eq!(reg.get_settings_json("cam1").unwrap(), "{}");
}

#[test]
fn acquire_read_release() {
    let mut reg = with_sources(&["cam1", "mic"]);
    let h = reg.by_name("mic").unwrap();
    {
        let src = reg.read(&h);
        assert_eq!(src.get_name(), "mic");
        assert!(src.has_video());
        assert!(!src.is_composite());
        assert_eq!(src.get_volume(), 1000);
    }
    reg.release(h);
    match reg.by_name("ghost") {
        Err(Error::LookupError { kind, name }) => {
            assert_eq!(kind, LookupKind::Source);
            assert_eq!(name, "ghost");
        },
        other => panic!("expected a lookup failure, got {:?}", other.is_ok()),
    }
}
