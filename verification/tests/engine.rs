use download_manager_engine::Engine;

#[test]
fn engine_uses_protocol_v2() {
    assert_eq!(Engine::new().protocol_version(), 2);
}
