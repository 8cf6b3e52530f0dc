//! What a user does at a screen.

use vstd::prelude::*;

verus! {

/// A key of the keyboard.
#[derive(Clone, Copy, Debug, PartialEq, Eq, Structural)]
pub enum Key {
    Char(char),
    Left,
    Right,
    Enter,
    Backspace,
    Esc,
    Other,
}

/// An event of a key: whether the key went down, and which keys were held with it.
#[derive(Clone, Copy, Debug, PartialEq, Eq, Structural)]
pub struct KeyEvent {
    pub code: Key,
    pub pressed: bool,
    pub control: bool,
    pub alt: bool,
}

/// Something that happened at a screen.
#[derive(Clone, Copy, Debug, PartialEq, Eq, Structural)]
pub enum ScreenEvent {
    Key(KeyEvent),
    ScrollUp { x: u16, y: u16 },
    ScrollDown { x: u16, y: u16 },
    Other,
}

impl KeyEvent {
    /// The control key with C or Q, in either case.
    pub open spec fn control_quit(self) -> bool {
        self.pressed && self.control && (self.code == Key::Char('c') || self.code == Key::Char('C')
            || self.code == Key::Char('q') || self.code == Key::Char('Q'))
    }

    pub fn is_control_quit(&self) -> (r: bool)
        ensures
            r == self.control_quit(),
    {
        self.pressed && self.control && match self.code {
            Key::Char(c) => c == 'c' || c == 'C' || c == 'q' || c == 'Q',
            _ => false,
        }
    }
}

/// Ctrl+C and Ctrl+Q quit when they go down, whatever else is held; no other key does.
pub proof fn control_with_c_or_q_quits(key: KeyEvent, c: char)
    requires
        key.code == Key::Char(c),
    ensures
        !key.pressed || !key.control ==> !key.control_quit(),
        key.pressed && key.control ==> (key.control_quit() <==> {
            ||| c == 'c'
            ||| c == 'C'
            ||| c == 'q'
            ||| c == 'Q'
        }),
{
}

/// Keys that stand for no character do not quit.
pub proof fn other_keys_do_not_quit(key: KeyEvent)
    requires
        !(key.code is Char),
    ensures
        !key.control_quit(),
{
}

}
