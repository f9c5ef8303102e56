//! Decoding raw input events into actions.

use vstd::prelude::*;
use crate::cell::Cell;
use crate::action::Action;

verus! {

/// The button classification of a pointer event.
#[derive(Clone, Copy, PartialEq, Eq, Structural, Debug)]
pub enum PointerButton {
    Primary,
    Secondary,
    Other,
}

/// A raw input event, already typed by the transport: a key character, a
/// pointer press or hold at a position, or anything else.
#[derive(Clone, Copy, PartialEq, Eq, Structural, Debug)]
pub enum InputEvent {
    Key(char),
    PointerPress(PointerButton, Cell),
    PointerHold(Cell),
    Other,
}

/// The decoding table: which action, if any, an event means.
/// 'q' quits, 'p' pauses, 'c' continues, 'r' restarts, 's' steps; a primary
/// press or any hold puts a cell, a secondary press removes one; everything
/// else means nothing.
pub open spec fn decode_spec(e: InputEvent) -> Option<Action> {
    match e {
        InputEvent::Key(ch) => if ch == 'q' {
            Some(Action::Quit)
        } else if ch == 'p' {
            Some(Action::Pause)
        } else if ch == 'c' {
            Some(Action::Continue)
        } else if ch == 'r' {
            Some(Action::Restart)
        } else if ch == 's' {
            Some(Action::Step)
        } else {
            None
        },
        InputEvent::PointerPress(b, c) => match b {
            PointerButton::Primary => Some(Action::Put(c)),
            PointerButton::Secondary => Some(Action::Remove(c)),
            PointerButton::Other => None,
        },
        InputEvent::PointerHold(c) => Some(Action::Put(c)),
        InputEvent::Other => None,
    }
}

/// Decodes one raw input event to zero or one action. Pure and total: every
/// event maps to exactly one outcome, exactly as `decode_spec` says.
pub fn handle_input(e: InputEvent) -> (r: Option<Action>)
    ensures
        r == decode_spec(e),
{
    match e {
        InputEvent::Key(ch) => {
            if ch == 'q' {
                Some(Action::Quit)
            } else if ch == 'p' {
                Some(Action::Pause)
            } else if ch == 'c' {
                Some(Action::Continue)
            } else if ch == 'r' {
                Some(Action::Restart)
            } else if ch == 's' {
                Some(Action::Step)
            } else {
                None
            }
        },
        InputEvent::PointerPress(b, c) => match b {
            PointerButton::Primary => Some(Action::Put(c)),
            PointerButton::Secondary => Some(Action::Remove(c)),
            PointerButton::Other => None,
        },
        InputEvent::PointerHold(c) => Some(Action::Put(c)),
        InputEvent::Other => None,
    }
}

/// Law: among key events, exactly the key 'q' decodes to `Quit`, and a key
/// outside the recognized five decodes to no action at all.
pub proof fn lemma_quit_key(ch: char)
    ensures
        decode_spec(InputEvent::Key(ch)) == Some(Action::Quit) <==> ch == 'q',
        !(ch == 'q' || ch == 'p' || ch == 'c' || ch == 'r' || ch == 's') ==> decode_spec(
            InputEvent::Key(ch),
        ) is None,
{
}

} // verus!
