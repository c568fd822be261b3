use fallgray::engine::Engine;

#[test]
fn engine_keeps_its_configuration() {
    let e = Engine::new("Snowfall".to_string(), true);
    assert_eq!(e.title(), "Snowfall");
    assert!(e.development_mode());
}

#[test]
fn engine_release_mode() {
    let e = Engine::new("Fallgray".to_string(), false);
    assert_eq!(e.title(), "Fallgray");
    assert!(!e.development_mode());
}
