use obs_service::control::{
    GetSourceStatusRequest, RpcCode, SetSourceVolumeRequest, SetStreamRequest, TestRequest,
    ThisServer,
};
use obs_service::registry::Registry;
use obs_service::settings::Data;

fn server_and_registry() -> (ThisServer, Registry) {
    let mut reg = Registry::new();
    reg.register("cam1", true, true, false, 1000, Data::new()).unwrap();
    reg.register("overlay", true, false, true, 500, Data::new()).unwrap();
    (ThisServer::new(), reg)
}

#[test]
fn test_call_echoes_its_text() {
    let server = ThisServer::default();
    let reply = server.test(TestRequest { text: String::from("ping") });
    assert_eq!(reply.text, "ping");
    let reply = server.test(TestRequest { text: String::new() });
    assert_eq!(reply.text, "");
}

#[test]
fn set_stream_redirects_an_existing_source() {
    let (server, mut reg) = server_and_registry();
    let req = SetStreamRequest {
        source: String::from("cam1"),
        url: String::from("rtmp://x"),
    };
    server.set_stream(&mut reg, req).unwrap();
    assert_eq!(
        reg.get_settings_json("cam1").unwrap(),
        "{\"playlist\":[{\"hidden\":false,\"selected\":false,\"value\":\"rtmp://x\"}]}"
    );
    // the other source's state is untouched
    assert_eq!(reg.get_settings_json("overlay").unwrap(), "{}");
}

#[test]
fn set_stream_on_a_missing_source_is_not_found() {
    let (server, mut reg) = server_and_registry();
    let before = reg.snapshot();
    let req = SetStreamRequest {
        source: String::from("missing"),
        url: String::from("rtmp://x"),
    };
    let failure = server.set_stream(&mut reg, req).unwrap_err();
    assert_eq!(failure.code, RpcCode::NotFound);
    assert_eq!(failure.message, "missing not found");
    assert_eq!(reg.snapshot(), before);
}

#[test]
fn set_stream_with_embedded_nul_is_an_invalid_argument() {
    let (server, mut reg) = server_and_registry();
    let req = SetStreamRequest {
        source: String::from("cam1"),
        url: String::from("rtmp://\0x"),
    };
    let failure = server.set_stream(&mut reg, req).unwrap_err();
    assert_eq!(failure.code, RpcCode::InvalidArgument);
    assert_eq!(failure.message, "embedded NUL in string");
    assert_eq!(reg.get_settings_json("cam1").unwrap(), "{}");
}

#[test]
fn set_source_volume_forwards_to_the_registry() {
    let (server, mut reg) = server_and_registry();
    let req = SetSourceVolumeRequest { source: String::from("overlay"), volume_mil: 250 };
    server.set_source_volume(&mut reg, req).unwrap();
    assert_eq!(reg.get_volume("overlay").unwrap(), 250);
    assert_eq!(reg.get_volume("cam1").unwrap(), 1000);

    let req = SetSourceVolumeRequest { source: String::from("ghost"), volume_mil: 1 };
    let failure = server.set_source_volume(&mut reg, req).unwrap_err();
    assert_eq!(failure.code, RpcCode::NotFound);
    assert_eq!(failure.message, "ghost not found");
}

#[test]
fn get_source_status_returns_every_registered_source() {
    let (server, reg) = server_and_registry();
    let reply = server.get_source_status(&reg, GetSourceStatusRequest {});
    assert_eq!(reply.sources.len(), 2);
    assert_eq!(reply.sources[0].name, "cam1");
    assert!(reply.sources[0].has_video);
    assert!(reply.sources[0].has_audio);
    assert!(!reply.sources[0].is_composite);
    assert_eq!(reply.sources[0].volume_mil, 1000);
    assert_eq!(reply.sources[1].name, "overlay");
    assert!(!reply.sources[1].has_audio);
    assert!(reply.sources[1].is_composite);
    assert_eq!(reply.sources[1].volume_mil, 500);

    let empty = Registry::new();
    let reply = server.get_source_status(&empty, GetSourceStatusRequest {});
    assert_eq!(reply.sources.len(), 0);
}

#[test]
fn status_reflects_a_stream_redirect_and_volume_change() {
    let (server, mut reg) = server_and_registry();
    server
        .set_stream(
            &mut reg,
            SetStreamRequest { source: String::from("cam1"), url: String::from("rtmp://new") },
        )
        .unwrap();
    server
        .set_source_volume(
            &mut reg,
            SetSourceVolumeRequest { source: String::from("cam1"), volume_mil: 42 },
        )
        .unwrap();
    let reply = server.get_source_status(&reg, GetSourceStatusRequest {});
    assert_eq!(reply.sources[0].volume_mil, 42);
    assert_eq!(
        reg.get_settings_json("cam1").unwrap(),
        "{\"playlist\":[{\"hidden\":false,\"selected\":false,\"value\":\"rtmp://new\"}]}"
    );
}
