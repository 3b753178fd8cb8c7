//! Core logic of a minimal real-time renderer: the shared input state read by
//! the render thread, the camera/input integrator, the scene graph with its
//! draw traversal, the vertex-buffer layout planner, and the event/watchdog
//! decisions of the thread supervisor.
//!
//! Everything here is plain data and arithmetic; the windowing, the graphics
//! calls and the floating-point matrix work live in the surrounding binary.

pub mod camera;
pub mod events;
pub mod gpu;
pub mod input;
pub mod scene;
