//! The colours, lengths and fonts of the application, in a light and a
//! dark variant.
//!
//! A colour is four bytes, red, green, blue and opacity, from the highest
//! byte down; a length is in thousandths of a pixel.

use vstd::prelude::*;

verus! {

/// The colour of an incorrect run of text.
pub const INCORRECT_TEXT: u32 = 0xe236_36ff;

/// The shadow of a window that has the focus.
pub const SHADOW_FOCUSED: u32 = 0x0000_0080;

/// The shadow of a window that has not.
pub const SHADOW_UNFOCUSED: u32 = 0x0000_0040;

/// How the desktop asks windows to look.
#[derive(Clone, Copy, Debug, PartialEq, Eq, Structural)]
pub enum Appearance {
    Light,
    VibrantLight,
    Dark,
    VibrantDark,
}

/// The few values from which a theme is made.
#[derive(Clone, Copy, Debug)]
pub struct BaseTheme {
    /// The speed of animations, in thousandths of their natural speed.
    pub animation_speed: u32,
    pub background: u32,
    pub border: u32,
    pub dim_foreground: u32,
    pub foreground: u32,
    pub hover_background: u32,
    pub border_width: i32,
    pub gap: i32,
    pub radius_large: i32,
    pub shadow_size_large: i32,
    pub font_family: &'static str,
}

/// The values that the widgets read.
#[derive(Clone, Copy, Debug)]
pub struct Theme {
    pub base: BaseTheme,
    pub counter_idle_message: &'static str,
    pub counter_idle_text: u32,
    pub counter_font_family: &'static str,
    pub counter_text: u32,
    pub csd_button_background: u32,
    pub csd_button_background_hovered: u32,
    pub csd_button_foreground: u32,
    pub csd_button_gap: i32,
    pub csd_corner_radius: i32,
    pub csd_font_family: &'static str,
    pub csd_foreground: u32,
    pub csd_shadow_size: i32,
    pub csd_shadow_focused: u32,
    pub csd_shadow_unfocused: u32,
    pub csd_titlebar_background: u32,
    pub csd_titlebar_border: u32,
    pub csd_titlebar_border_width: i32,
    pub csd_titlebar_padding_x: i32,
    pub csd_titlebar_padding_y: i32,
    pub csd_window_border: u32,
    pub csd_window_border_width: i32,
    pub text_view_correct_text: u32,
    pub text_view_cursor: u32,
    pub text_view_incorrect_text: u32,
    pub text_view_placeholder_text: u32,
    pub window_background: u32,
}

/// The base of the light theme.
pub open spec fn light_base() -> BaseTheme {
    BaseTheme {
        animation_speed: 1000,
        background: 0xffff_ffff,
        border: 0xd0d0_d0ff,
        dim_foreground: 0x0000_00a0,
        foreground: 0x5050_50ff,
        hover_background: 0xe0e0_e0ff,
        border_width: 1000,
        gap: 8000,
        radius_large: 16_000,
        shadow_size_large: 32_000,
        font_family: "Sans",
    }
}

/// The base of the dark theme.
pub open spec fn dark_base() -> BaseTheme {
    BaseTheme {
        animation_speed: 1000,
        background: 0x2020_20ff,
        border: 0x3030_30ff,
        dim_foreground: 0xffff_ff20,
        foreground: 0xe0e0_e0ff,
        hover_background: 0x3030_30ff,
        border_width: 1000,
        gap: 8000,
        radius_large: 16_000,
        shadow_size_large: 32_000,
        font_family: "Sans",
    }
}

/// The theme that a base gives: every widget takes its colours, lengths
/// and font from the base, the title bar is padded by half its corner
/// radius, and incorrect text and the shadows have colours of their own.
pub open spec fn theme_of(base: BaseTheme) -> Theme {
    Theme {
        base,
        counter_idle_message: "Type to start...",
        counter_idle_text: base.dim_foreground,
        counter_font_family: base.font_family,
        counter_text: base.foreground,
        csd_button_background: base.background,
        csd_button_background_hovered: base.hover_background,
        csd_button_foreground: base.foreground,
        csd_button_gap: base.gap,
        csd_corner_radius: base.radius_large,
        csd_font_family: base.font_family,
        csd_foreground: base.foreground,
        csd_shadow_size: base.shadow_size_large,
        csd_shadow_focused: SHADOW_FOCUSED,
        csd_shadow_unfocused: SHADOW_UNFOCUSED,
        csd_titlebar_background: base.background,
        csd_titlebar_border: base.border,
        csd_titlebar_border_width: base.border_width,
        csd_titlebar_padding_x: (base.radius_large / 2) as i32,
        csd_titlebar_padding_y: (base.radius_large / 2) as i32,
        csd_window_border: base.border,
        csd_window_border_width: base.border_width,
        text_view_correct_text: base.foreground,
        text_view_cursor: base.foreground,
        text_view_incorrect_text: INCORRECT_TEXT,
        text_view_placeholder_text: base.dim_foreground,
        window_background: base.background,
    }
}

impl Appearance {
    /// Whether the desktop asks for a light window.
    pub fn is_light(self) -> (light: bool)
        ensures
            light == (self is Light || self is VibrantLight),
    {
        match self {
            Appearance::Light | Appearance::VibrantLight => true,
            _ => false,
        }
    }

    /// Whether the desktop asks for a dark window.
    pub fn is_dark(self) -> (dark: bool)
        ensures
            dark == (self is Dark || self is VibrantDark),
            dark == !(self is Light || self is VibrantLight),
    {
        match self {
            Appearance::Dark | Appearance::VibrantDark => true,
            _ => false,
        }
    }
}

impl BaseTheme {
    /// The base of the light theme.
    pub fn default_light() -> (base: BaseTheme)
        ensures
            base == light_base(),
    {
        BaseTheme {
            animation_speed: 1000,
            background: 0xffff_ffff,
            border: 0xd0d0_d0ff,
            dim_foreground: 0x0000_00a0,
            foreground: 0x5050_50ff,
            hover_background: 0xe0e0_e0ff,
            border_width: 1000,
            gap: 8000,
            radius_large: 16_000,
            shadow_size_large: 32_000,
            font_family: "Sans",
        }
    }

    /// The base of the dark theme.
    pub fn default_dark() -> (base: BaseTheme)
        ensures
            base == dark_base(),
    {
        BaseTheme {
            animation_speed: 1000,
            background: 0x2020_20ff,
            border: 0x3030_30ff,
            dim_foreground: 0xffff_ff20,
            foreground: 0xe0e0_e0ff,
            hover_background: 0x3030_30ff,
            border_width: 1000,
            gap: 8000,
            radius_large: 16_000,
            shadow_size_large: 32_000,
            font_family: "Sans",
        }
    }
}

impl From<BaseTheme> for Theme {
    /// The theme that the base gives.
    fn from(base: BaseTheme) -> (theme: Theme) {
        let half_radius: i32 = crate::animation::floor_div(base.radius_large as i128, 2) as i32;
        Theme {
            base,
            counter_idle_message: "Type to start...",
            counter_idle_text: base.dim_foreground,
            counter_font_family: base.font_family,
            counter_text: base.foreground,
            csd_button_background: base.background,
            csd_button_background_hovered: base.hover_background,
            csd_button_foreground: base.foreground,
            csd_button_gap: base.gap,
            csd_corner_radius: base.radius_large,
            csd_font_family: base.font_family,
            csd_foreground: base.foreground,
            csd_shadow_size: base.shadow_size_large,
            csd_shadow_focused: SHADOW_FOCUSED,
            csd_shadow_unfocused: SHADOW_UNFOCUSED,
            csd_titlebar_background: base.background,
            csd_titlebar_border: base.border,
            csd_titlebar_border_width: base.border_width,
            csd_titlebar_padding_x: half_radius,
            csd_titlebar_padding_y: half_radius,
            csd_window_border: base.border,
            csd_window_border_width: base.border_width,
            text_view_correct_text: base.foreground,
            text_view_cursor: base.foreground,
            text_view_incorrect_text: INCORRECT_TEXT,
            text_view_placeholder_text: base.dim_foreground,
            window_background: base.background,
        }
    }
}

impl vstd::std_specs::convert::FromSpecImpl<BaseTheme> for Theme {
    open spec fn obeys_from_spec() -> bool {
        true
    }

    open spec fn from_spec(base: BaseTheme) -> Theme {
        theme_of(base)
    }
}

impl Theme {
    /// The light theme.
    pub fn default_light() -> (theme: Theme)
        ensures
            theme == theme_of(light_base()),
    {
        Theme::from(BaseTheme::default_light())
    }

    /// The dark theme.
    pub fn default_dark() -> (theme: Theme)
        ensures
            theme == theme_of(dark_base()),
    {
        Theme::from(BaseTheme::default_dark())
    }
}

} // verus!
