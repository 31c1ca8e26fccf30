use seabed::palette::get_fish_color_from_value;
use seabed::palette::player_color;

#[test]
fn fish_colors() {
    assert_eq!(get_fish_color_from_value(0), (0xF0, 0x96, 0xC8));
    assert_eq!(get_fish_color_from_value(1), (0xFF, 0xDC, 0x00));
    assert_eq!(get_fish_color_from_value(2), (0x00, 0xFF, 0x00));
    assert_eq!(get_fish_color_from_value(3), (0x00, 0x94, 0xFF));
    assert_eq!(get_fish_color_from_value(4), (0xFF, 0xFF, 0xFF));
    assert_eq!(get_fish_color_from_value(-1), (0xFF, 0xFF, 0xFF));
}

#[test]
fn player_colors() {
    assert_eq!(player_color(0), (0xFF, 0x6D, 0x0A));
    assert_eq!(player_color(1), (0x95, 0x2E, 0x8F));
}
