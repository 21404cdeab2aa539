//! Keyboard input: the scan codes the game reads, and what is done where
//! the operating system offers no way to send keys.
use vstd::prelude::*;

use crate::report::{decimal_text, push_decimal};

verus! {

/// The DirectInput scan code of the keys the automation presses: `X` or `x`
/// (virtual key 0x58 / 0x78) is 0x2D, `D` or `d` (0x44 / 0x64) is 0x20.
pub open spec fn scan_code_of(keycode: i32) -> Option<u16> {
    if keycode == 0x58 || keycode == 0x78 {
        Some(0x2D)
    } else if keycode == 0x44 || keycode == 0x64 {
        Some(0x20)
    } else {
        None
    }
}

/// The DirectInput scan code of a key the automation presses.
pub fn directinput_scancode(keycode: i32) -> (r: Option<u16>)
    ensures
        r == scan_code_of(keycode),
{
    if keycode == 0x58 || keycode == 0x78 {
        Some(0x2D)
    } else if keycode == 0x44 || keycode == 0x64 {
        Some(0x20)
    } else {
        None
    }
}

/// The error given where keys cannot be sent.
pub open spec fn unsupported_text() -> Seq<char> {
    "仅支持 Windows"@
}

/// Pressing a key where the operating system offers no way to send one:
/// always an error.
pub fn press_key(hwnd: isize, keycode: i32) -> (r: Result<(), String>)
    ensures
        r matches Err(e) && e@ == unsupported_text(),
{
    Err(String::from_str("仅支持 Windows"))
}

/// Whether a key is held, where the operating system offers no way to
/// tell: never.
pub fn is_key_pressed(keycode: i32) -> (b: bool)
    ensures
        !b,
{
    false
}

/// The error given for a key that has no scan code.
pub open spec fn unmappable_key_text(keycode: i32) -> Seq<char> {
    "无法将按键码映射为扫描码: "@ + decimal_text(keycode as int)
}

/// The error given for a key that has no scan code.
pub fn unmappable_key_message(keycode: i32) -> (s: String)
    ensures
        s@ == unmappable_key_text(keycode),
{
    let mut s = String::from_str("无法将按键码映射为扫描码: ");
    push_decimal(&mut s, keycode as i64);
    s
}

} // verus!
