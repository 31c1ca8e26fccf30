//! Colors the viewer draws creatures and drones in, as RGB bytes.
use vstd::prelude::*;

verus! {

/// Color of a creature of each color value: pink, yellow, green, blue;
/// white for any other value.
pub open spec fn fish_rgb(color_value: i32) -> (u8, u8, u8) {
    if color_value == 0 {
        (0xF0u8, 0x96u8, 0xC8u8)
    } else if color_value == 1 {
        (0xFFu8, 0xDCu8, 0x00u8)
    } else if color_value == 2 {
        (0x00u8, 0xFFu8, 0x00u8)
    } else if color_value == 3 {
        (0x00u8, 0x94u8, 0xFFu8)
    } else {
        (0xFFu8, 0xFFu8, 0xFFu8)
    }
}

/// Color of the drones of each player: orange for the first, purple for the
/// second.
pub open spec fn player_rgb(index: i32) -> (u8, u8, u8) {
    if index == 0 {
        (0xFFu8, 0x6Du8, 0x0Au8)
    } else {
        (0x95u8, 0x2Eu8, 0x8Fu8)
    }
}

pub fn get_fish_color_from_value(color_value: i32) -> (rgb: (u8, u8, u8))
    ensures
        rgb == fish_rgb(color_value),
{
    match color_value {
        0 => (0xF0, 0x96, 0xC8),  // Pink
        1 => (0xFF, 0xDC, 0x00),  // Yellow
        2 => (0x00, 0xFF, 0x00),  // Green
        3 => (0x00, 0x94, 0xFF),  // Blue
        _ => (0xFF, 0xFF, 0xFF),  // White for unknown values
    }
}

pub fn player_color(index: i32) -> (rgb: (u8, u8, u8))
    ensures
        rgb == player_rgb(index),
{
    if index == 0 {
        (0xFF, 0x6D, 0x0A)
    } else {
        (0x95, 0x2E, 0x8F)
    }
}

} // verus!
