//! Decision rule of the terminal key-event demo: which key presses end the
//! event loop. Reading events and drawing frames happen outside the
//! library; they hand each event over as a plain [`KeyStroke`].

use vstd::prelude::*;

verus! {

/// One key event, as the demo's loop reads it: whether it is a press, the
/// character key if any, and which modifiers are held with it.
#[derive(Clone, Copy, Debug)]
pub struct KeyStroke {
    pub pressed: bool,
    pub ch: Option<char>,
    pub ctrl: bool,
    pub no_modifiers: bool,
}

/// The demo stops on a pressed plain `q` or a pressed Ctrl+C.
pub open spec fn spec_should_quit(k: KeyStroke) -> bool {
    k.pressed && ((k.ch == Some('q') && k.no_modifiers) || (k.ch == Some('c') && k.ctrl))
}

/// Whether the event loop ends on this key event.
pub fn should_quit(k: &KeyStroke) -> (r: bool)
    ensures
        r == spec_should_quit(*k),
{
    if !k.pressed {
        return false;
    }
    match k.ch {
        Some(c) => (c == 'q' && k.no_modifiers) || (c == 'c' && k.ctrl),
        None => false,
    }
}

} // verus!
