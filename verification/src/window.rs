//! How the window of the browser is set up.

use vstd::prelude::*;

pub mod scroll;

verus! {

/// Window configuration options
#[derive(Debug, Clone)]
pub struct WindowConfig {
    pub title: String,
    pub width: u32,
    pub height: u32,
    pub resizable: bool,
}

impl Default for WindowConfig {
    fn default() -> (config: Self)
        ensures
            config.title@ == "Browser Engine"@,
            config.width == 1024,
            config.height == 768,
            config.resizable,
    {
        WindowConfig {
            title: String::from_str("Browser Engine"),
            width: 1024,
            height: 768,
            resizable: true,
        }
    }
}

/// Window-related errors
#[derive(Debug)]
pub enum WindowError {
    /// Error during window creation
    Creation(String),
    /// Error in event loop
    EventLoop(String),
    /// Error initializing renderer
    Renderer(String),
}

impl WindowError {
    /// The text of the error: what failed, and behind a colon the message.
    pub fn to_string(&self) -> (text: String)
        ensures
            text@ == match *self {
                WindowError::Creation(msg) => "Window creation error: "@ + msg@,
                WindowError::EventLoop(msg) => "Event loop error: "@ + msg@,
                WindowError::Renderer(msg) => "Renderer error: "@ + msg@,
            },
    {
        match self {
            WindowError::Creation(msg) => String::from_str("Window creation error: ").concat(
                msg.as_str(),
            ),
            WindowError::EventLoop(msg) => String::from_str("Event loop error: ").concat(
                msg.as_str(),
            ),
            WindowError::Renderer(msg) => String::from_str("Renderer error: ").concat(msg.as_str()),
        }
    }
}

} // verus!
