use vmb::app_data::AppData;
use vmb::game_wrapper::{GameWrapper, RunLoop};
use vmb::rendering_api::RenderingAPI;
use vmb::scoped_term_buffer::ScopedTermBuffer;

#[test]
fn driver_names() {
    assert_eq!(RenderingAPI::Vulkan.as_driver_name(), "vulkan");
    assert_eq!(RenderingAPI::DirectX12.as_driver_name(), "d3d12");
}

#[test]
fn app_data_dirty_only_on_change() {
    let mut d = AppData::new(None);
    assert!(d.game_path().is_none());
    assert!(!d.is_dirty());
    d.set_game_path(None);
    assert!(!d.is_dirty());
    d.set_game_path(Some("/games/rtv".to_string()));
    assert!(d.is_dirty());
    assert_eq!(d.game_path().as_deref(), Some("/games/rtv"));
    let mut loaded = AppData::new(Some(AppData::from_game_path(Some("/x".to_string()))));
    loaded.set_game_path(Some("/x".to_string()));
    assert!(!loaded.is_dirty());
    loaded.set_game_path(Some("/x/".to_string()));
    assert!(!loaded.is_dirty());
    assert_eq!(loaded.game_path().as_deref(), Some("/x"));
    loaded.set_game_path(Some("/y".to_string()));
    assert!(loaded.is_dirty());
    assert_eq!(loaded.game_path().as_deref(), Some("/y"));
    assert_eq!(AppData::backup_file_name("config.toml"), "config.toml.bak");
    assert_eq!(AppData::config_filename(), "config.toml");
    assert_eq!(AppData::backup_dir_name(), "backup");
}

#[test]
fn run_loop_stops_once_and_ends_when_drained() {
    let mut l = RunLoop::new();
    assert!(l.wants_output());
    assert!(l.wants_status());
    assert!(!l.should_stop(false));
    assert!(l.should_stop(true));
    assert!(!l.should_stop(true));
    l.on_exited();
    assert!(!l.finished());
    l.on_streams_closed();
    assert!(l.finished());
    let g = GameWrapper::new(std::path::PathBuf::from("game"), vec!["-x".to_string()]);
    assert_eq!(g.args(), &vec!["-x".to_string()]);
    assert_eq!(g.exe_path(), &std::path::PathBuf::from("game"));
}

#[test]
fn term_buffer_sequences() {
    let on = ScopedTermBuffer::for_output(true);
    assert_eq!(on.enter_sequence(), b"\x1b[?1049h\x1b[2J\x1b[H".to_vec());
    assert_eq!(on.leave_sequence(), b"\x1b[?1049l".to_vec());
    let off = ScopedTermBuffer::for_output(false);
    assert!(!off.is_enabled());
    assert!(off.enter_sequence().is_empty());
    assert!(off.leave_sequence().is_empty());
}

#[test]
fn apply_game_path_follows_the_path_comparison() {
    let mut d = AppData::from_game_path(Some("/a/b".to_string()));
    d.apply_game_path(Some("/a/b/".to_string()), true);
    assert!(!d.is_dirty());
    assert_eq!(d.game_path().as_deref(), Some("/a/b"));
    d.apply_game_path(Some("/c".to_string()), false);
    assert!(d.is_dirty());
    assert_eq!(d.game_path().as_deref(), Some("/c"));
    let mut e = AppData::from_game_path(Some("/c".to_string()));
    e.apply_game_path(None, false);
    assert!(e.is_dirty());
    assert_eq!(e.game_path().as_deref(), None);
}

#[test]
fn set_game_path_changes_to_another_single_component_path() {
    let mut d = AppData::from_game_path(Some("RoadToVostok".to_string()));
    d.set_game_path(Some("RoadToVostok".to_string()));
    assert!(!d.is_dirty());
    d.set_game_path(Some("Vostok".to_string()));
    assert!(d.is_dirty());
    assert_eq!(d.game_path().as_deref(), Some("Vostok"));
}
