//! Core of a small real-time puzzle/music toy: the player places notes and
//! activators (growing circular triggers) in a 2D plane, then runs an
//! execution phase in which a designated main activator expands; when its
//! boundary reaches a note the note is played, and when it reaches another
//! activator that activator begins expanding too, chaining activations
//! outward until every reachable object has fired.
//!
//! This crate holds the activation propagation engine itself — the object
//! registry, the proximity index builder, per-tick crossing detection, the
//! event router and the completion detector — together with the musical
//! scale model that turns a played note into a pitch. Rendering, audio
//! output and input handling are left to the host program.

pub mod color;
pub mod engine;
pub mod geom;
pub mod laws;
pub mod math;
pub mod model;
pub mod music;
pub mod state;
