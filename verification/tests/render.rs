use egui::Color32;
use welly_rs::cell::{Cell, Color};
use welly_rs::render::{cell_background_color, cell_foreground_color, color_to_egui};

#[test]
fn default_colors_reverse_to_visible_black_on_light_background() {
    let cell = Cell {
        reverse: true,
        ..Default::default()
    };

    assert_eq!(cell_foreground_color(&cell), Color32::BLACK);
    assert_eq!(cell_background_color(&cell), Color32::from_rgb(229, 229, 229));
}

#[test]
fn palette_colors_convert_to_their_rgb_values() {
    assert_eq!(color_to_egui(Color::Rgb(1, 2, 3)), Color32::from_rgb(1, 2, 3));
    assert_eq!(color_to_egui(Color::Indexed(16)), Color32::from_rgb(0, 0, 0));
    assert_eq!(color_to_egui(Color::Indexed(231)), Color32::from_rgb(255, 255, 255));
    assert_eq!(color_to_egui(Color::Indexed(232)), Color32::from_rgb(8, 8, 8));
}
