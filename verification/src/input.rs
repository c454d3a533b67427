//! Input tracking state machines.
//!
//! Raw window events arrive pre-digested as [`ProcessedEvent`] values; the
//! trackers fold them into the abstract [`UserEvent`] stream the interface
//! acts on.  Cursor positions pass through untouched, so the trackers are
//! generic over the position payload `P` and verified for every choice of
//! it; the caller instantiates `P` with its floating-point coordinates.
//!
//! Each tracker's transition rule is a spec function, and `update` promises
//! to follow it exactly.

use vstd::prelude::*;

verus! {

/// A cursor position, when one is known.
#[derive(Clone, Copy, Debug)]
pub enum MousePos<P> {
    NoPos,
    Pos { x: P, y: P },
}

/// Abstract, useful events.
#[derive(Clone, Copy, Debug)]
pub enum UserEvent<P> {
    MouseMove { pos: MousePos<P> },
    MouseDown { pos: MousePos<P> },
    MouseUp { pos: MousePos<P> },
    KeyPress { character: char },
}

/// Pre-digested window events: raw ones require too much digging to write
/// logic against.
#[derive(Clone, Copy, Debug)]
pub enum ProcessedEvent<P> {
    LeftButtonDown { no_mods: bool },
    LeftButtonUp,
    CursorMove { x: P, y: P },
    CursorLeft,
    CursorEntered,
    KeyDown { scancode: u32, no_mods: bool },
    KeyUp { scancode: u32, no_mods: bool },
    KeyChar { character: char },
}

/// Mouse state: where the last press happened, where the cursor was last
/// seen, and whether it is inside the window.
#[derive(Clone, Copy, Debug)]
pub struct MouseTracker<P> {
    pub mouse_down: MousePos<P>,
    pub last_pos: MousePos<P>,
    pub in_bounds: bool,
}

/// The mouse transition rule: the new state and the event reported.
/// Presses count only unmodified and at a known position; a release always
/// reports, at the last known position only when the press was tracked;
/// leaving the window forgets the position.
pub open spec fn mouse_step<P>(s: MouseTracker<P>, e: ProcessedEvent<P>) -> (
    MouseTracker<P>,
    Option<UserEvent<P>>,
) {
    match e {
        ProcessedEvent::LeftButtonDown { no_mods } => {
            if no_mods {
                match s.last_pos {
                    MousePos::Pos { x, y } => (
                        MouseTracker { mouse_down: (MousePos::Pos { x, y }), ..s },
                        Some(UserEvent::MouseDown { pos: s.last_pos }),
                    ),
                    MousePos::NoPos => (s, None),
                }
            } else {
                (s, None)
            }
        },
        ProcessedEvent::LeftButtonUp => {
            let cleared = MouseTracker { mouse_down: MousePos::NoPos, ..s };
            match s.last_pos {
                MousePos::Pos { x, y } => {
                    if s.mouse_down is Pos {
                        (cleared, Some(UserEvent::MouseUp { pos: (MousePos::Pos { x, y }) }))
                    } else {
                        (cleared, Some(UserEvent::MouseUp { pos: MousePos::NoPos }))
                    }
                },
                MousePos::NoPos => (cleared, Some(UserEvent::MouseUp { pos: MousePos::NoPos })),
            }
        },
        ProcessedEvent::CursorLeft => (
            MouseTracker { in_bounds: false, last_pos: MousePos::NoPos, ..s },
            None,
        ),
        ProcessedEvent::CursorEntered => (MouseTracker { in_bounds: true, ..s }, None),
        ProcessedEvent::CursorMove { x, y } => (
            MouseTracker { last_pos: (MousePos::Pos { x, y }), ..s },
            Some(UserEvent::MouseMove { pos: (MousePos::Pos { x, y }) }),
        ),
        _ => (s, None),
    }
}

impl<P: Copy> MouseTracker<P> {
    /// A tracker with no press and no known position.
    pub fn new() -> (r: MouseTracker<P>)
        ensures
            r.mouse_down is NoPos,
            r.last_pos is NoPos,
            r.in_bounds == true,
    {
        MouseTracker { mouse_down: MousePos::NoPos, last_pos: MousePos::NoPos, in_bounds: true }
    }

    /// Applies one event, exactly as `mouse_step` says.
    pub fn update(&mut self, event: &ProcessedEvent<P>) -> (r: Option<UserEvent<P>>)
        ensures
            (*final(self), r) == mouse_step(*old(self), *event),
    {
        match event {
            ProcessedEvent::LeftButtonDown { no_mods } => {
                if *no_mods {
                    if let MousePos::Pos { x, y } = self.last_pos {
                        self.mouse_down = MousePos::Pos { x, y };
                        Some(UserEvent::MouseDown { pos: self.last_pos })
                    } else {
                        None
                    }
                } else {
                    None
                }
            },
            ProcessedEvent::LeftButtonUp => {
                let was_down = self.mouse_down;
                self.mouse_down = MousePos::NoPos;
                if let MousePos::Pos { x, y } = self.last_pos {
                    if let MousePos::Pos { .. } = was_down {
                        Some(UserEvent::MouseUp { pos: MousePos::Pos { x, y } })
                    } else {
                        Some(UserEvent::MouseUp { pos: MousePos::NoPos })
                    }
                } else {
                    Some(UserEvent::MouseUp { pos: MousePos::NoPos })
                }
            },
            ProcessedEvent::CursorLeft => {
                self.in_bounds = false;
                self.last_pos = MousePos::NoPos;
                None
            },
            ProcessedEvent::CursorEntered => {
                self.in_bounds = true;
                None
            },
            ProcessedEvent::CursorMove { x, y } => {
                self.last_pos = MousePos::Pos { x: *x, y: *y };
                Some(UserEvent::MouseMove { pos: self.last_pos })
            },
            _ => None,
        }
    }
}

/// What the keyboard tracker remembers of the key currently held.
#[derive(Clone, Copy, Debug)]
pub enum LastKey {
    CodeOnly { code: u32 },
    KeyCode { key: char, code: u32 },
    NoKey,
}

/// Keyboard state: a key press is reported on release, once the scancode
/// seen on the way down has been paired with the character it produced.
#[derive(Clone, Copy, Debug)]
pub struct KeyTracker {
    pub key_down: LastKey,
}

/// The keyboard transition rule: the new remembered key and the event
/// reported.  Modified combinations are ignored to avoid hotkey
/// interference, and a release reports only when its scancode matches the
/// remembered press.
pub open spec fn key_step<P>(s: LastKey, e: ProcessedEvent<P>) -> (LastKey, Option<UserEvent<P>>) {
    match e {
        ProcessedEvent::KeyUp { scancode, no_mods } => {
            if !no_mods {
                (LastKey::NoKey, None)
            } else {
                match s {
                    LastKey::KeyCode { key, code } => {
                        if code == scancode {
                            (LastKey::NoKey, Some(UserEvent::KeyPress { character: key }))
                        } else {
                            (LastKey::NoKey, None)
                        }
                    },
                    _ => (LastKey::NoKey, None),
                }
            }
        },
        ProcessedEvent::KeyChar { character } => {
            match s {
                LastKey::CodeOnly { code } => ((LastKey::KeyCode { code, key: character }), None),
                _ => (s, None),
            }
        },
        ProcessedEvent::KeyDown { scancode, no_mods } => {
            if no_mods {
                ((LastKey::CodeOnly { code: scancode }), None)
            } else {
                (LastKey::NoKey, None)
            }
        },
        _ => (s, None),
    }
}

impl KeyTracker {
    /// A tracker remembering no key.
    pub fn new() -> (r: KeyTracker)
        ensures
            r.key_down is NoKey,
    {
        KeyTracker { key_down: LastKey::NoKey }
    }

    /// Applies one event, exactly as `key_step` says.
    pub fn update<P: Copy>(&mut self, event: &ProcessedEvent<P>) -> (r: Option<UserEvent<P>>)
        ensures
            (final(self).key_down, r) == key_step(old(self).key_down, *event),
    {
        match event {
            ProcessedEvent::KeyUp { scancode, no_mods } => {
                if !*no_mods {
                    self.key_down = LastKey::NoKey;
                    None
                } else if let LastKey::KeyCode { key, code } = self.key_down {
                    self.key_down = LastKey::NoKey;
                    if code == *scancode {
                        Some(UserEvent::KeyPress { character: key })
                    } else {
                        None
                    }
                } else {
                    self.key_down = LastKey::NoKey;
                    None
                }
            },
            ProcessedEvent::KeyChar { character } => {
                if let LastKey::CodeOnly { code } = self.key_down {
                    self.key_down = LastKey::KeyCode { code, key: *character };
                }
                None
            },
            ProcessedEvent::KeyDown { scancode, no_mods } => {
                if *no_mods {
                    self.key_down = LastKey::CodeOnly { code: *scancode };
                } else {
                    self.key_down = LastKey::NoKey;
                }
                None
            },
            _ => None,
        }
    }
}

} // verus!
