//! Keys as the terminal layer hands them on.
use vstd::prelude::*;

verus! {

#[derive(Clone, Copy, Debug, PartialEq, Eq, Structural)]
pub enum BareKey {
    PageDown,
    PageUp,
    Left,
    Down,
    Up,
    Right,
    Home,
    End,
    Backspace,
    Delete,
    Insert,
    F(u8),
    Char(char),
    Tab,
    Esc,
    Enter,
    CapsLock,
    ScrollLock,
    NumLock,
    PrintScreen,
    Pause,
    Menu,
}

#[derive(Clone, Copy, Debug, PartialEq, Eq, Structural)]
pub enum KeyModifier {
    Ctrl,
    Alt,
    Shift,
    Super,
}

/// A key and the modifiers held with it. Only membership in `key_modifiers`
/// matters.
#[derive(Clone, Debug)]
pub struct KeyWithModifier {
    pub bare_key: BareKey,
    pub key_modifiers: Vec<KeyModifier>,
}

impl KeyWithModifier {
    pub open spec fn holds(self, modifier: KeyModifier) -> bool {
        self.key_modifiers@.contains(modifier)
    }

    /// Whether the modifier is held.
    pub fn has(&self, modifier: KeyModifier) -> (r: bool)
        ensures
            r == self.holds(modifier),
    {
        let mut i: usize = 0;
        while i < self.key_modifiers.len()
            invariant
                i <= self.key_modifiers.len(),
                forall|j: int| 0 <= j < i ==> self.key_modifiers@[j] != modifier,
            decreases self.key_modifiers.len() - i,
        {
            if self.key_modifiers[i] == modifier {
                return true;
            }
            i += 1;
        }
        false
    }

    /// Whether no modifier is held.
    pub fn has_no_modifiers(&self) -> (r: bool)
        ensures
            r == forall|m: KeyModifier| !self.holds(m),
    {
        let r = self.key_modifiers.len() == 0;
        proof {
            if !r {
                assert(self.holds(self.key_modifiers@[0]));
            }
        }
        r
    }
}

} // verus!
