//! The built-in hexadecimal-digit font: 16 glyphs of 5 bytes each, loaded
//! into the bottom of memory when the machine is created.

use vstd::prelude::*;

verus! {

/// Number of bytes occupied by the font block at the bottom of memory.
pub const FONT_BYTES: usize = 80;

/// Byte `j` of the font block: glyph `j / 5`, row `j % 5`.
pub open spec fn spec_font_byte(j: int) -> u8 {
    let d = j / 5;
    let r = j % 5;
    if d == 0x0 {
        if r == 0 { 0xF0 } else if r == 1 { 0x90 } else if r == 2 { 0x90 } else if r == 3 { 0x90 } else { 0xF0 }
    } else if d == 0x1 {
        if r == 0 { 0x20 } else if r == 1 { 0x60 } else if r == 2 { 0x20 } else if r == 3 { 0x20 } else { 0x70 }
    } else if d == 0x2 {
        if r == 0 { 0xF0 } else if r == 1 { 0x10 } else if r == 2 { 0xF0 } else if r == 3 { 0x80 } else { 0xF0 }
    } else if d == 0x3 {
        if r == 0 { 0xF0 } else if r == 1 { 0x10 } else if r == 2 { 0xF0 } else if r == 3 { 0x10 } else { 0xF0 }
    } else if d == 0x4 {
        if r == 0 { 0x90 } else if r == 1 { 0x90 } else if r == 2 { 0xF0 } else if r == 3 { 0x10 } else { 0x10 }
    } else if d == 0x5 {
        if r == 0 { 0xF0 } else if r == 1 { 0x80 } else if r == 2 { 0xF0 } else if r == 3 { 0x10 } else { 0xF0 }
    } else if d == 0x6 {
        if r == 0 { 0xF0 } else if r == 1 { 0x80 } else if r == 2 { 0xF0 } else if r == 3 { 0x90 } else { 0xF0 }
    } else if d == 0x7 {
        if r == 0 { 0xF0 } else if r == 1 { 0x10 } else if r == 2 { 0x20 } else if r == 3 { 0x40 } else { 0x40 }
    } else if d == 0x8 {
        if r == 0 { 0xF0 } else if r == 1 { 0x90 } else if r == 2 { 0xF0 } else if r == 3 { 0x90 } else { 0xF0 }
    } else if d == 0x9 {
        if r == 0 { 0xF0 } else if r == 1 { 0x90 } else if r == 2 { 0xF0 } else if r == 3 { 0x10 } else { 0xF0 }
    } else if d == 0xA {
        if r == 0 { 0xF0 } else if r == 1 { 0x90 } else if r == 2 { 0xF0 } else if r == 3 { 0x90 } else { 0x90 }
    } else if d == 0xB {
        if r == 0 { 0xE0 } else if r == 1 { 0x90 } else if r == 2 { 0xE0 } else if r == 3 { 0x90 } else { 0xE0 }
    } else if d == 0xC {
        if r == 0 { 0xF0 } else if r == 1 { 0x80 } else if r == 2 { 0x80 } else if r == 3 { 0x80 } else { 0xF0 }
    } else if d == 0xD {
        if r == 0 { 0xE0 } else if r == 1 { 0x90 } else if r == 2 { 0x90 } else if r == 3 { 0x90 } else { 0xE0 }
    } else if d == 0xE {
        if r == 0 { 0xF0 } else if r == 1 { 0x80 } else if r == 2 { 0xF0 } else if r == 3 { 0x80 } else { 0xF0 }
    } else {
        if r == 0 { 0xF0 } else if r == 1 { 0x80 } else if r == 2 { 0xF0 } else if r == 3 { 0x80 } else { 0x80 }
    }
}

/// Executable twin of [`spec_font_byte`].
pub fn font_byte(j: usize) -> (b: u8)
    requires
        j < FONT_BYTES,
    ensures
        b == spec_font_byte(j as int),
{
    let d = j / 5;
    let r = j % 5;
    if d == 0x0 {
        if r == 0 { 0xF0 } else if r == 1 { 0x90 } else if r == 2 { 0x90 } else if r == 3 { 0x90 } else { 0xF0 }
    } else if d == 0x1 {
        if r == 0 { 0x20 } else if r == 1 { 0x60 } else if r == 2 { 0x20 } else if r == 3 { 0x20 } else { 0x70 }
    } else if d == 0x2 {
        if r == 0 { 0xF0 } else if r == 1 { 0x10 } else if r == 2 { 0xF0 } else if r == 3 { 0x80 } else { 0xF0 }
    } else if d == 0x3 {
        if r == 0 { 0xF0 } else if r == 1 { 0x10 } else if r == 2 { 0xF0 } else if r == 3 { 0x10 } else { 0xF0 }
    } else if d == 0x4 {
        if r == 0 { 0x90 } else if r == 1 { 0x90 } else if r == 2 { 0xF0 } else if r == 3 { 0x10 } else { 0x10 }
    } else if d == 0x5 {
        if r == 0 { 0xF0 } else if r == 1 { 0x80 } else if r == 2 { 0xF0 } else if r == 3 { 0x10 } else { 0xF0 }
    } else if d == 0x6 {
        if r == 0 { 0xF0 } else if r == 1 { 0x80 } else if r == 2 { 0xF0 } else if r == 3 { 0x90 } else { 0xF0 }
    } else if d == 0x7 {
        if r == 0 { 0xF0 } else if r == 1 { 0x10 } else if r == 2 { 0x20 } else if r == 3 { 0x40 } else { 0x40 }
    } else if d == 0x8 {
        if r == 0 { 0xF0 } else if r == 1 { 0x90 } else if r == 2 { 0xF0 } else if r == 3 { 0x90 } else { 0xF0 }
    } else if d == 0x9 {
        if r == 0 { 0xF0 } else if r == 1 { 0x90 } else if r == 2 { 0xF0 } else if r == 3 { 0x10 } else { 0xF0 }
    } else if d == 0xA {
        if r == 0 { 0xF0 } else if r == 1 { 0x90 } else if r == 2 { 0xF0 } else if r == 3 { 0x90 } else { 0x90 }
    } else if d == 0xB {
        if r == 0 { 0xE0 } else if r == 1 { 0x90 } else if r == 2 { 0xE0 } else if r == 3 { 0x90 } else { 0xE0 }
    } else if d == 0xC {
        if r == 0 { 0xF0 } else if r == 1 { 0x80 } else if r == 2 { 0x80 } else if r == 3 { 0x80 } else { 0xF0 }
    } else if d == 0xD {
        if r == 0 { 0xE0 } else if r == 1 { 0x90 } else if r == 2 { 0x90 } else if r == 3 { 0x90 } else { 0xE0 }
    } else if d == 0xE {
        if r == 0 { 0xF0 } else if r == 1 { 0x80 } else if r == 2 { 0xF0 } else if r == 3 { 0x80 } else { 0xF0 }
    } else {
        if r == 0 { 0xF0 } else if r == 1 { 0x80 } else if r == 2 { 0xF0 } else if r == 3 { 0x80 } else { 0x80 }
    }
}

} // verus!
