//! Values of the application's settings that the library gives a meaning.

use vstd::prelude::*;

verus! {

/// Format that new screenshots are converted to.
#[derive(Debug, Clone, Copy, PartialEq, Eq, Structural)]
pub enum ConversionFormat {
    WebP,
    Jpeg,
}

impl Default for ConversionFormat {
    fn default() -> (format: Self)
        ensures
            format == ConversionFormat::WebP,
    {
        ConversionFormat::WebP
    }
}

impl ConversionFormat {
    /// The extension of files in the format.
    pub open spec fn spec_extension(self) -> Seq<char> {
        match self {
            ConversionFormat::WebP => "webp"@,
            ConversionFormat::Jpeg => "jpg"@,
        }
    }

    /// The format's name for display.
    pub open spec fn spec_display_name(self) -> Seq<char> {
        match self {
            ConversionFormat::WebP => "WebP"@,
            ConversionFormat::Jpeg => "JPEG"@,
        }
    }

    /// The extension of files in the format.
    pub fn extension(&self) -> (ext: &'static str)
        ensures
            ext@ == self.spec_extension(),
    {
        match self {
            ConversionFormat::WebP => "webp",
            ConversionFormat::Jpeg => "jpg",
        }
    }

    /// The format's name for display.
    pub fn display_name(&self) -> (name: &'static str)
        ensures
            name@ == self.spec_display_name(),
    {
        match self {
            ConversionFormat::WebP => "WebP",
            ConversionFormat::Jpeg => "JPEG",
        }
    }
}

/// The global hotkey is on unless the settings say otherwise.
pub fn default_hotkey_enabled() -> (enabled: bool)
    ensures
        enabled,
{
    true
}

/// The hotkey of a fresh installation.
pub fn default_hotkey() -> (hotkey: String)
    ensures
        hotkey@ == "Ctrl+Shift+S"@,
{
    String::from_str("Ctrl+Shift+S")
}

/// The date format of the organizer's directories in a fresh installation.
pub fn default_organizer_format() -> (format: String)
    ensures
        format@ == "YYYY-MM-DD"@,
{
    String::from_str("YYYY-MM-DD")
}

/// The settings value of the throughput mode in a fresh installation.
pub fn default_cpu_mode() -> (mode: String)
    ensures
        mode@ == "normal"@,
{
    String::from_str("normal")
}

} // verus!
