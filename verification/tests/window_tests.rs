// The set-up of the window.

use browser_engine::renderer::{FontLoadError, RendererError};
use browser_engine::window::{WindowConfig, WindowError};

#[test]
fn test_window_config_default() {
    let config = WindowConfig::default();
    assert_eq!(config.title, "Browser Engine");
    assert_eq!(config.width, 1024);
    assert_eq!(config.height, 768);
    assert!(config.resizable);
}

#[test]
fn test_window_config_custom() {
    let config = WindowConfig {
        title: "Test Window".to_string(),
        width: 800,
        height: 600,
        resizable: false,
    };
    assert_eq!(config.title, "Test Window");
    assert_eq!(config.width, 800);
    assert_eq!(config.height, 600);
    assert!(!config.resizable);
}

#[test]
fn test_window_and_renderer_errors_say_what_failed() {
    assert_eq!(WindowError::Creation("no display".to_string()).to_string(), "Window creation error: no display");
    assert_eq!(WindowError::EventLoop("x".to_string()).to_string(), "Event loop error: x");
    assert_eq!(WindowError::Renderer(String::new()).to_string(), "Renderer error: ");
    assert_eq!(
        RendererError::Initialization("no adapter".to_string()).to_string(),
        "Renderer initialization error: no adapter"
    );
    assert_eq!(RendererError::Frame("lost".to_string()).to_string(), "Frame rendering error: lost");
    assert_eq!(FontLoadError::NotFound("Arial".to_string()).to_string(), "Font not found: Arial");
    assert_eq!(FontLoadError::LoadFailed("io".to_string()).to_string(), "Failed to load font: io");
    assert_eq!(FontLoadError::ParseFailed("bad".to_string()).to_string(), "Failed to parse font: bad");
}
