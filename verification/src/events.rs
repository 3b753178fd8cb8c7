//! The decisions of the event thread and of the watchdog. The event thread
//! dispatches one window event at a time: it first checks the render-thread
//! health flag, then applies the event to the shared input state and decides
//! whether the process should exit. The watchdog blocks on the render
//! thread's completion and clears the health flag when that thread died
//! abnormally; the event thread picks the cleared flag up on its next
//! dispatched event, which is the failure-propagation path from a rendering
//! fault to a clean shutdown.

use vstd::prelude::*;
use crate::input::Key;
use crate::input::MouseDelta;
use crate::input::PressedKeys;

verus! {

/// One event delivered by the window's event source, reduced to what the
/// core reacts to.
#[derive(PartialEq, Eq, Structural, Clone, Copy, Debug)]
pub enum InputEvent {
    CloseRequested,
    Keyboard { pressed: bool, code: Key },
    MouseMotion { dx: i64, dy: i64 },
    Other,
}

/// When the event thread asks the process to exit: the render thread has
/// died, the window was asked to close, or the escape key was touched.
pub open spec fn exit_requested(health: bool, e: InputEvent) -> bool {
    !health || match e {
        InputEvent::CloseRequested => true,
        InputEvent::Keyboard { pressed, code } => code == Key::Escape,
        _ => false,
    }
}

/// Dispatch one window event against the shared input state: key events
/// update the pressed-key set, motion events feed the mouse accumulator, and
/// the returned flag says whether the process should exit now.
pub fn handle_event(keys: &mut PressedKeys, mouse: &mut MouseDelta, health: bool, e: &InputEvent)
    -> (exit: bool)
    requires
        old(keys).wf(),
        *e matches InputEvent::MouseMotion { dx, dy } ==> i64::MIN <= old(mouse)@.0 + dx
            <= i64::MAX && i64::MIN <= old(mouse)@.1 + dy <= i64::MAX,
    ensures
        final(keys).wf(),
        exit == exit_requested(health, *e),
        match *e {
            InputEvent::Keyboard { pressed, code } => final(mouse)@ == old(mouse)@ && (if pressed {
                final(keys)@ == (if old(keys)@.contains(code) {
                    old(keys)@
                } else {
                    old(keys)@.push(code)
                })
            } else {
                final(keys)@ == old(keys)@.remove_value(code)
            }),
            InputEvent::MouseMotion { dx, dy } => final(keys)@ == old(keys)@ && final(mouse)@ == (
            old(mouse)@.0 + dx, old(mouse)@.1 + dy),
            _ => final(keys)@ == old(keys)@ && final(mouse)@ == old(mouse)@,
        },
{
    let mut exit = !health;
    match e {
        InputEvent::CloseRequested => {
            exit = true;
        },
        InputEvent::Keyboard { pressed, code } => {
            if *pressed {
                keys.press(*code);
            } else {
                keys.release(*code);
            }
            if *code == Key::Escape {
                exit = true;
            }
        },
        InputEvent::MouseMotion { dx, dy } => {
            mouse.accumulate(*dx, *dy);
        },
        InputEvent::Other => {},
    }
    exit
}

/// A dead render thread forces an exit request on the very next dispatched
/// event, whatever that event is.
pub proof fn lemma_unhealthy_forces_exit(health: bool, e: InputEvent)
    ensures
        !health ==> exit_requested(health, e),
{
}

/// The watchdog's sole write: clear the shared health flag when the render
/// thread did not finish cleanly, leave it alone otherwise. The flag is
/// never set back to true.
pub fn update_health(health: &mut bool, render_thread_ok: bool)
    ensures
        *final(health) == (*old(health) && render_thread_ok),
{
    if !render_thread_ok {
        *health = false;
    }
}

} // verus!
