use steno::theme::{Appearance, BaseTheme, Theme, INCORRECT_TEXT};

#[test]
fn light_and_dark_bases_differ_in_colour_alone() {
    let light = BaseTheme::default_light();
    let dark = BaseTheme::default_dark();
    assert_eq!(light.background, 0xffff_ffff);
    assert_eq!(dark.background, 0x2020_20ff);
    assert_eq!(light.foreground, 0x5050_50ff);
    assert_eq!(dark.foreground, 0xe0e0_e0ff);
    assert_eq!(light.dim_foreground, 0x0000_00a0);
    assert_eq!(dark.dim_foreground, 0xffff_ff20);
    assert_eq!(light.border, 0xd0d0_d0ff);
    assert_eq!(dark.border, 0x3030_30ff);
    assert_eq!(light.hover_background, 0xe0e0_e0ff);
    assert_eq!(dark.hover_background, 0x3030_30ff);
    assert_eq!(light.radius_large, dark.radius_large);
    assert_eq!(light.gap, 8_000);
    assert_eq!(light.border_width, 1_000);
    assert_eq!(light.shadow_size_large, 32_000);
    assert_eq!(light.animation_speed, 1_000);
    assert_eq!(light.font_family, "Sans");
}

#[test]
fn theme_takes_its_values_from_the_base() {
    let base = BaseTheme { radius_large: 15_000, gap: 3_000, ..BaseTheme::default_dark() };
    let theme = Theme::from(base);
    assert_eq!(theme.base.radius_large, 15_000);
    assert_eq!(theme.counter_idle_message, "Type to start...");
    assert_eq!(theme.counter_idle_text, base.dim_foreground);
    assert_eq!(theme.counter_text, base.foreground);
    assert_eq!(theme.csd_button_gap, 3_000);
    assert_eq!(theme.csd_corner_radius, 15_000);
    assert_eq!(theme.csd_titlebar_padding_x, 7_500);
    assert_eq!(theme.csd_titlebar_padding_y, 7_500);
    assert_eq!(theme.csd_shadow_size, 32_000);
    assert_eq!(theme.csd_shadow_focused, 0x0000_0080);
    assert_eq!(theme.csd_shadow_unfocused, 0x0000_0040);
    assert_eq!(theme.csd_window_border, base.border);
    assert_eq!(theme.text_view_correct_text, base.foreground);
    assert_eq!(theme.text_view_cursor, base.foreground);
    assert_eq!(theme.text_view_incorrect_text, INCORRECT_TEXT);
    assert_eq!(theme.text_view_incorrect_text, 0xe236_36ff);
    assert_eq!(theme.text_view_placeholder_text, base.dim_foreground);
    assert_eq!(theme.window_background, base.background);
}

#[test]
fn default_themes_come_from_the_default_bases() {
    assert_eq!(Theme::default_light().window_background, 0xffff_ffff);
    assert_eq!(Theme::default_dark().window_background, 0x2020_20ff);
    assert_eq!(Theme::default_dark().csd_titlebar_padding_x, 8_000);
}

#[test]
fn appearance_is_light_or_dark() {
    assert!(Appearance::Light.is_light());
    assert!(Appearance::VibrantLight.is_light());
    assert!(!Appearance::Dark.is_light());
    assert!(!Appearance::VibrantDark.is_light());
    assert!(Appearance::Dark.is_dark());
    assert!(Appearance::VibrantDark.is_dark());
    assert!(!Appearance::Light.is_dark());
    assert!(!Appearance::VibrantLight.is_dark());
}
