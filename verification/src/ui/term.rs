//! Input events and screen geometry, free of any terminal.

use crate::text;
use vstd::prelude::*;

verus! {

/// A rectangle of screen cells.
#[derive(Debug, Clone, Copy, PartialEq, Eq, Structural)]
pub struct Rect {
    pub x: u16,
    pub y: u16,
    pub width: u16,
    pub height: u16,
}

impl Rect {
    /// Whether every cell has coordinates.
    pub open spec fn fits(self) -> bool {
        self.x + self.width <= u16::MAX && self.y + self.height <= u16::MAX
    }

    /// Whether no cell lies outside `area`.
    pub open spec fn is_inside(self, area: Rect) -> bool {
        &&& area.x <= self.x
        &&& area.y <= self.y
        &&& self.x + self.width <= area.x + area.width
        &&& self.y + self.height <= area.y + area.height
    }
}

/// A key, as far as the interface tells keys apart.
#[derive(Debug, Clone, Copy, PartialEq, Eq, Structural)]
pub enum KeyCode {
    Char(char),
    Enter,
    Esc,
    Backspace,
    Delete,
    Tab,
    BackTab,
    Up,
    Down,
    Left,
    Right,
    Home,
    End,
    PageUp,
    PageDown,
    /// A function key.
    F(u8),
    /// Any other key.
    Other,
}

/// One input event.
#[derive(Debug, Clone, Copy, PartialEq, Eq, Structural)]
pub enum Key {
    /// A key, and whether the control key was held.
    Press(KeyCode, bool),
    Click(u16, u16),
    DoubleClick(u16, u16),
    Scroll(i8),
    Resize,
}

impl Key {
    /// Whether the event types the character `c`.
    pub open spec fn types(self, c: char) -> bool {
        self == Key::Press(KeyCode::Char(c), false)
    }

    /// Whether the event is `c` with the control key, in either case.
    pub open spec fn controls(self, c: char) -> bool {
        match self {
            Key::Press(KeyCode::Char(x), true) => text::lower_of(x) == text::lower_of(c),
            _ => false,
        }
    }

    /// The key that was pressed, if one was.
    pub open spec fn code_of(self) -> Option<KeyCode> {
        match self {
            Key::Press(c, _) => Some(c),
            _ => None,
        }
    }

    pub fn is_char(&self, c: char) -> (r: bool)
        ensures
            r == self.types(c),
    {
        match self {
            Key::Press(KeyCode::Char(x), ctrl) => *x == c && !*ctrl,
            _ => false,
        }
    }

    pub fn is_ctrl(&self, c: char) -> (r: bool)
        ensures
            r == self.controls(c),
    {
        match self {
            Key::Press(KeyCode::Char(x), ctrl) => *ctrl && text::lower(*x) == text::lower(c),
            _ => false,
        }
    }

    pub fn code(&self) -> (r: Option<KeyCode>)
        ensures
            r == self.code_of(),
    {
        match self {
            Key::Press(c, _) => Some(*c),
            _ => None,
        }
    }
}

/// A click that a second one may follow: where, and when in milliseconds.
#[derive(Debug, Clone, Copy, PartialEq, Eq, Structural)]
pub struct LastClick {
    pub x: u16,
    pub y: u16,
    pub at: u64,
}

/// Whether a click at `x`, `y` at time `now` is the second of a pair.
pub open spec fn is_double(last: Option<LastClick>, x: u16, y: u16, now: u64) -> bool {
    match last {
        Some(l) => l.x == x && l.y == y && now - l.at < 400,
        None => false,
    }
}

/// The event that a left click is, and the click that the next one is held
/// against. Two clicks on one cell within 400 milliseconds are a double
/// click, which a third click does not extend.
pub fn classify_click(last: Option<LastClick>, x: u16, y: u16, now: u64) -> (r: (
    Key,
    Option<LastClick>,
))
    ensures
        r == if is_double(last, x, y, now) {
            (Key::DoubleClick(x, y), None)
        } else {
            (Key::Click(x, y), Some(LastClick { x, y, at: now }))
        },
{
    let double = match last {
        Some(l) => l.x == x && l.y == y && (now < l.at || now - l.at < 400),
        None => false,
    };
    if double {
        (Key::DoubleClick(x, y), None)
    } else {
        (Key::Click(x, y), Some(LastClick { x, y, at: now }))
    }
}

/// `n` limited to `most`, less a margin of two, but at least one where there
/// is room for it.
pub open spec fn fitted(n: int, most: int) -> int {
    let inner = if most > 2 {
        most - 2
    } else {
        0
    };
    let want = if n < inner {
        n
    } else {
        inner
    };
    let least = if want < 1 {
        1
    } else {
        want
    };
    if least < most {
        least
    } else {
        most
    }
}

fn fit(n: u16, most: u16) -> (r: u16)
    ensures
        r == fitted(n as int, most as int),
{
    let inner: u16 = if most > 2 {
        most - 2
    } else {
        0
    };
    let want: u16 = if n < inner {
        n
    } else {
        inner
    };
    let least: u16 = if want < 1 {
        1
    } else {
        want
    };
    if least < most {
        least
    } else {
        most
    }
}

/// The popup of a size in an area.
pub open spec fn popup_of(area: Rect, w: int, h: int) -> Rect {
    let pw = fitted(w, area.width as int);
    let ph = fitted(h, area.height as int);
    Rect {
        x: (area.x + (area.width - pw) / 2) as u16,
        y: (area.y + (area.height - ph) / 2) as u16,
        width: pw as u16,
        height: ph as u16,
    }
}

/// A centered popup rect that never exceeds the frame. Sized down rather than
/// clipped, so tiny terminals still render something usable; an empty frame
/// yields an empty rect.
pub fn popup_rect(area: Rect, w: u16, h: u16) -> (r: Rect)
    requires
        area.fits(),
    ensures
        r == popup_of(area, w as int, h as int),
        r.is_inside(area),
        r.fits(),
        area.width > 0 ==> r.width > 0,
        area.height > 0 ==> r.height > 0,
        r.width <= w || r.width == 1,
        r.height <= h || r.height == 1,
{
    let w = fit(w, area.width);
    let h = fit(h, area.height);
    Rect {
        x: area.x + (area.width - w) / 2,
        y: area.y + (area.height - h) / 2,
        width: w,
        height: h,
    }
}

/// A popup lies inside its area, is not empty unless the area is, and is as
/// large as asked for where there is room with a margin.
pub proof fn law_popup(area: Rect, w: u16, h: u16)
    requires
        area.fits(),
    ensures
        popup_of(area, w as int, h as int).is_inside(area),
        area.width > 0 && area.height > 0 ==> popup_of(area, w as int, h as int).width > 0
            && popup_of(area, w as int, h as int).height > 0,
        1 <= w <= area.width - 2 ==> popup_of(area, w as int, h as int).width == w,
        1 <= h <= area.height - 2 ==> popup_of(area, w as int, h as int).height == h,
{
}

} // verus!
