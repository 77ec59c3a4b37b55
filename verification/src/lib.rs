//! Retained-mode 2D scene bookkeeping: an incremental state-synchronization
//! pipeline around opaque renderable objects.
//!
//! The crate covers the coordination layer of an interactive canvas surface:
//! a message-batching control bus that coalesces and prioritizes mutation
//! notifications ([`render_control`]), an object store that indexes live scene
//! objects and applies batched diffs ([`object_manager`]), a transactional
//! history log that groups mutations into time-windowed undo/redo units
//! ([`history`]), and a hit-testing identity allocator that maps objects to
//! unique colors and back ([`ids`]). The scene objects themselves and their
//! property patches live in [`object`], the scene transform state in
//! [`scene`], and [`app`] ties the components into one explicitly-passed
//! context. [`events`] holds the listener registry, [`style`] the drawing
//! backend's keyword vocabulary, and [`text`] the integer-to-string
//! rendering the other modules share.
//!
//! All quantities that a rendering backend would treat as floating point
//! (zoom factors, rotations, coordinates) are carried here as plain scaled
//! integers; the translation to and from backend units happens outside the
//! crate.

pub mod app;
pub mod events;
pub mod history;
pub mod ids;
pub mod object;
pub mod object_manager;
pub mod render_control;
pub mod scene;
pub mod style;
pub mod text;
