//! The logic of a browser engine: the layout engine, which turns a tree of
//! styled nodes into a tree of positioned boxes (box model, block layout,
//! flexbox, grid, positioning), and around it the document tree, the
//! cascade, the display list, the compositor, storage, caches and the
//! other bookkeeping of a page.
//!
//! Lengths and coordinates are whole numbers of layout units. A caller picks
//! the scale (for instance 64 units to a pixel) and keeps it for every value
//! that it hands in.

pub mod clock;
pub mod compositor;
pub mod css;
pub mod devtools;
pub mod display;
pub mod dom;
pub mod fetch;
pub mod forms;
pub mod html;
pub mod indexeddb;
pub mod js;
pub mod layout;
pub mod multiprocess;
pub mod navigation;
pub mod net;
pub mod observers;
pub mod performance;
pub mod renderer;
pub mod style;
pub mod storage;
pub mod string_map;
pub mod text;
pub mod ui;
pub mod urls;
pub mod websocket;
pub mod window;
