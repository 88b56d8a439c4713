//! A mod-tap key disambiguation engine.
//!
//! A single designated key (the mod-tap key) plays a dual role: tapped on its
//! own it emits its ordinary keycode, while held together with other keys it
//! activates a transient remapping layer. The engine consumes a time-ordered
//! stream of raw key events and produces the synthesized events to hand to a
//! virtual output device; the surrounding process does the device and bus I/O.
//!
//! The heart of the crate is the pure transition function in [`model`]; the
//! executable engine in [`machine`] is proved to follow it step for step.
//! The laws the engine obeys are stated and proved in [`properties`], and the
//! no-stuck-key guarantee over whole input streams in [`safety`].

pub mod config;
pub mod events;
pub mod keymap;
pub mod machine;
pub mod model;
pub mod properties;
pub mod safety;
