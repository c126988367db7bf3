//! Icon sizes and color modes.

use vstd::prelude::*;

verus! {

/// Whether an icon is drawn with the current text color or with its own intrinsic
/// colors.
///
/// Mono icons (the default) are tinted by the surrounding text color. Color icons keep
/// their authored fill and stroke colors, so brand and product marks render faithfully.
#[derive(Clone, Copy, Debug, Default, PartialEq, Eq, Hash, Structural)]
pub enum IconColorMode {
    /// Tint the icon with the ambient text color.
    #[default]
    Mono,
    /// Preserve the icon's intrinsic colors.
    Color,
}

/// Absolute visual sizes for icons, independent from their surrounding text.
#[derive(Clone, Copy, Debug, Default, PartialEq, Eq, Structural)]
pub enum IconSize {
    Micro,
    Small,
    #[default]
    Default,
    Medium,
    Large,
    Display,
    Hero,
}

/// The edge length of an icon of size `s`, in whole pixels.
pub open spec fn size_pixels(s: IconSize) -> u32 {
    match s {
        IconSize::Micro => 12,
        IconSize::Small => 14,
        IconSize::Default => 16,
        IconSize::Medium => 20,
        IconSize::Large => 24,
        IconSize::Display => 32,
        IconSize::Hero => 40,
    }
}

impl IconSize {
    /// The edge length of the icon, in whole pixels.
    pub fn pixels(self) -> (r: u32)
        ensures
            r == size_pixels(self),
    {
        match self {
            IconSize::Micro => 12,
            IconSize::Small => 14,
            IconSize::Default => 16,
            IconSize::Medium => 20,
            IconSize::Large => 24,
            IconSize::Display => 32,
            IconSize::Hero => 40,
        }
    }
}

} // verus!
