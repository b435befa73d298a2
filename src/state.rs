//! Mouse and keyboard snapshots handed to widgets by a driver.
use crate::widget::Position;
use vstd::prelude::*;

verus! {

/// Kind of the last mouse event.
#[derive(Clone, Copy, Debug, PartialEq, Eq, Structural)]
pub enum MouseType {
    CursorMoved,
    Pressed(u8),
    Released(u8),
    /// Wheel movement, in whole steps
    Wheel(i32),
    Invisible(u8),
    Nothing,
}

/// Mouse state: cursor position, number of buttons held and keyboard modifiers.
pub struct MouseState {
    /// Mouse event type
    pub m_type: MouseType,
    /// Number of buttons currently held down
    pub m_count: u8,
    /// Mouse coordinates
    pub m_position: Position,
    /// Keyboard modifiers as bitflags
    pub k_modifiers: u16,
}

/// Key state: key code and modifiers.
#[derive(Clone, Copy, Debug, PartialEq, Eq, Structural)]
pub enum KeyState {
    Pressed(u32, u16),
    Released(u32, u16),
}

/// The press counter after an event of kind `t`: presses count up to the
/// largest `u8`, releases count down to zero.
pub open spec fn next_count(count: u8, t: MouseType) -> u8 {
    match t {
        MouseType::Pressed(_) => if count < u8::MAX {
            (count + 1) as u8
        } else {
            count
        },
        MouseType::Released(_) => if count > 0 {
            (count - 1) as u8
        } else {
            count
        },
        _ => count,
    }
}

impl MouseState {
    pub open spec fn position(&self) -> Position {
        self.m_position
    }

    pub open spec fn modifiers(&self) -> u16 {
        self.k_modifiers
    }

    /// Creates a mouse state with no event, no button held, at the origin.
    pub fn new() -> (m: Self)
        ensures
            m.m_type == MouseType::Nothing,
            m.m_count == 0,
            m.position() == (0i32, 0i32),
            m.modifiers() == 0,
    {
        MouseState { m_type: MouseType::Nothing, m_count: 0, m_position: (0, 0), k_modifiers: 0 }
    }

    /// Sets the cursor position.
    pub fn set_position(&mut self, position: Position)
        ensures
            final(self).position() == position,
            final(self).m_type == old(self).m_type,
            final(self).m_count == old(self).m_count,
            final(self).modifiers() == old(self).modifiers(),
    {
        self.m_position = position;
    }

    /// Records a mouse event, counting presses and releases.
    pub fn set_type(&mut self, m_type: MouseType)
        ensures
            final(self).m_type == m_type,
            final(self).m_count == next_count(old(self).m_count, m_type),
            final(self).position() == old(self).position(),
            final(self).modifiers() == old(self).modifiers(),
    {
        match m_type {
            MouseType::Pressed(_) => {
                if self.m_count < u8::MAX {
                    self.m_count = self.m_count + 1;
                }
            },
            MouseType::Released(_) => {
                if self.m_count > 0 {
                    self.m_count = self.m_count - 1;
                }
            },
            _ => {},
        }
        self.m_type = m_type;
    }

    /// Cursor position.
    pub fn absolute_pos(&self) -> (r: Position)
        ensures
            r == self.position(),
    {
        self.m_position
    }

    /// Cursor position relative to `pos`.
    pub fn relative_pos(&self, pos: Position) -> (r: Position)
        requires
            i32::MIN <= self.position().0 - pos.0 <= i32::MAX,
            i32::MIN <= self.position().1 - pos.1 <= i32::MAX,
        ensures
            r.0 == self.position().0 - pos.0,
            r.1 == self.position().1 - pos.1,
    {
        (self.m_position.0 - pos.0, self.m_position.1 - pos.1)
    }

    /// Replaces all modifiers.
    pub fn set_modifiers(&mut self, mods: u16)
        ensures
            final(self).modifiers() == mods,
            final(self).m_type == old(self).m_type,
            final(self).m_count == old(self).m_count,
            final(self).position() == old(self).position(),
    {
        self.k_modifiers = mods;
    }

    /// Whether every modifier of `mods` is held.
    pub fn check_modifiers(&self, mods: u16) -> (r: bool)
        ensures
            r == (mods & self.modifiers() == mods),
    {
        mods & self.k_modifiers == mods
    }
}

impl KeyState {
    pub open spec fn modifiers(self) -> u16 {
        match self {
            KeyState::Pressed(_, m) => m,
            KeyState::Released(_, m) => m,
        }
    }

    /// Whether every modifier of `mods` is held.
    pub fn check_modifiers(&self, mods: u16) -> (r: bool)
        ensures
            r == (mods & self.modifiers() == mods),
    {
        match *self {
            KeyState::Pressed(_, s_mods) => mods & s_mods == mods,
            KeyState::Released(_, s_mods) => mods & s_mods == mods,
        }
    }
}

} // verus!
