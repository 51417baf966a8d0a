use raycaster::framebuffer::Color;
use raycaster::lighting::{
    center_distance, distance_fade, final_brightness, flashlight_falloff, shade_color,
    wall_brightness,
};

#[test]
fn falloff_full_at_center_zero_at_radius() {
    assert_eq!(flashlight_falloff(0, 600), 1024);
    assert_eq!(flashlight_falloff(300, 600), 512);
    assert_eq!(flashlight_falloff(600, 600), 0);
    assert_eq!(flashlight_falloff(599, 600), 1024 / 600);
    assert_eq!(flashlight_falloff(100000, 600), 0);
}

#[test]
fn wall_brightness_squares_falloff() {
    assert_eq!(wall_brightness(0, 600), 1024);
    assert_eq!(wall_brightness(300, 600), 512 * 512 / 1024);
    assert_eq!(wall_brightness(600, 600), 0);
}

#[test]
fn distance_fade_values() {
    assert_eq!(distance_fade(0), 1024);
    assert_eq!(distance_fade(512000), 512);
    assert_eq!(distance_fade(1024 * 1000), 0);
    assert_eq!(distance_fade(5000 * 1024), 0);
}

#[test]
fn final_brightness_combines_factors() {
    // Squared falloff 256/1024 at r = 300, fade 512/1024 at 500 world units.
    assert_eq!(final_brightness(300, 600, 512000), 256 * 512 / 1024);
    assert_eq!(final_brightness(0, 600, 0), 1024);
}

#[test]
fn brightness_monotone_in_screen_distance() {
    // For fixed world distance the brightness never grows with the screen
    // distance from the optical center, and is exactly zero at and beyond
    // the flashlight radius.
    let d = 300000;
    let radius = 600;
    let mut prev = final_brightness(0, radius, d);
    for r in 1..700 {
        let b = final_brightness(r, radius, d);
        assert!(b <= prev);
        prev = b;
    }
    assert_eq!(final_brightness(600, radius, d), 0);
    assert_eq!(final_brightness(601, radius, d), 0);
    assert_eq!(final_brightness(100000, radius, d), 0);
}

#[test]
fn shade_color_scales_channels_keeps_alpha() {
    let c = Color::new(255, 128, 10, 200);
    let full = shade_color(c, 1024);
    assert_eq!(full, Color::new(255, 128, 10, 200));
    let half = shade_color(c, 512);
    assert_eq!(half, Color::new(127, 64, 5, 200));
    let dark = shade_color(c, 0);
    assert_eq!(dark, Color::new(0, 0, 0, 200));
}

#[test]
fn center_distance_euclidean_floor() {
    assert_eq!(center_distance(0, 0, 0, 0), 0);
    assert_eq!(center_distance(3, 4, 0, 0), 5);
    assert_eq!(center_distance(10, 15, 20, 15), 10);
    // floor of sqrt(200) = 14
    assert_eq!(center_distance(10, 5, 20, 15), 14);
}
