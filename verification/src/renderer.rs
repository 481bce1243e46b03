//! What the renderer keeps between frames, and the errors of rendering.

use vstd::prelude::*;

pub mod glyph_cache;
pub mod image_cache;

verus! {

/// Renderer errors
#[derive(Debug)]
pub enum RendererError {
    /// Error during renderer initialization
    Initialization(String),
    /// Error during frame rendering
    Frame(String),
}

impl RendererError {
    /// The text of the error: what failed, and behind a colon the message.
    pub fn to_string(&self) -> (text: String)
        ensures
            text@ == match *self {
                RendererError::Initialization(msg) => "Renderer initialization error: "@ + msg@,
                RendererError::Frame(msg) => "Frame rendering error: "@ + msg@,
            },
    {
        match self {
            RendererError::Initialization(msg) => String::from_str(
                "Renderer initialization error: ",
            ).concat(msg.as_str()),
            RendererError::Frame(msg) => String::from_str("Frame rendering error: ").concat(
                msg.as_str(),
            ),
        }
    }
}

/// Font loading errors
#[derive(Debug)]
pub enum FontLoadError {
    NotFound(String),
    LoadFailed(String),
    ParseFailed(String),
}

impl FontLoadError {
    /// The text of the error: what failed, and behind a colon the message.
    pub fn to_string(&self) -> (text: String)
        ensures
            text@ == match *self {
                FontLoadError::NotFound(msg) => "Font not found: "@ + msg@,
                FontLoadError::LoadFailed(msg) => "Failed to load font: "@ + msg@,
                FontLoadError::ParseFailed(msg) => "Failed to parse font: "@ + msg@,
            },
    {
        match self {
            FontLoadError::NotFound(msg) => String::from_str("Font not found: ").concat(
                msg.as_str(),
            ),
            FontLoadError::LoadFailed(msg) => String::from_str("Failed to load font: ").concat(
                msg.as_str(),
            ),
            FontLoadError::ParseFailed(msg) => String::from_str("Failed to parse font: ").concat(
                msg.as_str(),
            ),
        }
    }
}

} // verus!
