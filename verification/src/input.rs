//! Mouse button bookkeeping and edge-triggered hot keys (F8 pause / F9 quit).
use vstd::prelude::*;

verus! {

/// Remembers whether the right button is held, so that it is pressed and released once.
#[derive(Debug, Default)]
pub struct RightHold {
    pub down: bool,
}

/// Holding the right button when it is `down` already or not: whether a press is sent,
/// and whether it is held afterwards.
pub open spec fn press_outcome(down: bool) -> (bool, bool) {
    (!down, true)
}

/// Releasing the right button: whether a release is sent, and whether it is held afterwards.
pub open spec fn release_outcome(down: bool) -> (bool, bool) {
    (down, false)
}

impl RightHold {
    /// Holds the right button; true when a press must be sent (it was not held).
    pub fn ensure_down(&mut self) -> (sent: bool)
        ensures
            (sent, final(self).down) == press_outcome(old(self).down),
    {
        if !self.down {
            self.down = true;
            true
        } else {
            false
        }
    }

    /// Releases the right button; true when a release must be sent (it was held).
    pub fn ensure_up(&mut self) -> (sent: bool)
        ensures
            (sent, final(self).down) == release_outcome(old(self).down),
    {
        if self.down {
            self.down = false;
            true
        } else {
            false
        }
    }
}

#[derive(Debug, Clone, Copy, PartialEq, Eq, Structural)]
pub enum Hotkey {
    NoKey,
    Pause,
    Quit,
}

/// Edge-triggered hot key poller: F8 pauses or resumes, F9 quits.
#[derive(Debug, Default, Clone, Copy, PartialEq, Eq, Structural)]
pub struct Hotkeys {
    pub prev_f8: bool,
    pub prev_f9: bool,
}

/// The key that went down since the last poll, F9 first.
pub open spec fn hotkey_edge(prev: Hotkeys, f8: bool, f9: bool) -> Hotkey {
    if f9 && !prev.prev_f9 {
        Hotkey::Quit
    } else if f8 && !prev.prev_f8 {
        Hotkey::Pause
    } else {
        Hotkey::NoKey
    }
}

impl Hotkeys {
    /// Given whether F8 and F9 are down now, reports the key that has just gone down.
    pub fn poll(&mut self, f8: bool, f9: bool) -> (r: Hotkey)
        ensures
            r == hotkey_edge(*old(self), f8, f9),
            *final(self) == (Hotkeys { prev_f8: f8, prev_f9: f9 }),
    {
        let result = if f9 && !self.prev_f9 {
            Hotkey::Quit
        } else if f8 && !self.prev_f8 {
            Hotkey::Pause
        } else {
            Hotkey::NoKey
        };
        self.prev_f8 = f8;
        self.prev_f9 = f9;
        result
    }
}

/// Holding keys down reports them once: a poll leaves the poller holding the keys it saw
/// (see `Hotkeys::poll`), and a second poll with the same keys reports nothing.
pub proof fn lemma_held_keys_report_once(f8: bool, f9: bool)
    ensures
        hotkey_edge(Hotkeys { prev_f8: f8, prev_f9: f9 }, f8, f9) == Hotkey::NoKey,
{
}

/// Pressing twice sends one press; releasing twice sends one release; and the button is
/// held exactly when the last of the two was a press.
pub proof fn lemma_right_hold_idempotent(down: bool)
    ensures
        !press_outcome(press_outcome(down).1).0,
        !release_outcome(release_outcome(down).1).0,
        press_outcome(release_outcome(down).1).1,
        !release_outcome(press_outcome(down).1).1,
{
}

/// The mouse-message position word for a point: `y` in the high and `x` in the low
/// 16 bits.
pub open spec fn point_lparam(x: int, y: int) -> int {
    (y % 0x10000) * 0x10000 + (x % 0x10000)
}

/// Where a background click lands in a window's client rectangle: its center, packed as
/// the position word of a mouse message; `None` when the rectangle is too small to have
/// a center inside it.
pub fn client_center_lparam(left: i32, top: i32, right: i32, bottom: i32) -> (r: Option<isize>)
    requires
        i32::MIN <= right - left <= i32::MAX,
        i32::MIN <= bottom - top <= i32::MAX,
    ensures
        r == (if right - left >= 2 && bottom - top >= 2 {
            Some(point_lparam((right - left) / 2, (bottom - top) / 2) as isize)
        } else {
            None
        }),
{
    let w = right - left;
    let h = bottom - top;
    if w < 2 || h < 2 {
        return None;
    }
    let x = (w / 2) as u32;
    let y = (h / 2) as u32;
    let packed: u32 = ((y & 0xffff) << 16) | (x & 0xffff);
    assert(((y & 0xffff) << 16) | (x & 0xffff) == (y % 0x10000) * 0x10000 + (x % 0x10000))
        by (bit_vector);
    Some(packed as isize)
}

} // verus!
