use std::path::Path;

use sukusho::config::CpuMode;
use sukusho::convert::is_convertible;
use sukusho::paths::{
    file_extension, has_image_extension, is_image_extension, is_image_file, is_png_extension,
    label_from, progress_label,
};
use sukusho::settings::{
    default_cpu_mode, default_hotkey, default_hotkey_enabled, default_organizer_format,
    ConversionFormat,
};
use sukusho::text::{eq_ignore_ascii_case, str_equal};

#[test]
fn test_is_convertible() {
    assert!(is_convertible("test.png"));
    assert!(is_convertible("test.PNG"));
    assert!(!is_convertible("test.jpg"));
    assert!(!is_convertible("test.webp"));
}

#[test]
fn test_is_convertible_edge_cases() {
    assert!(is_convertible("test.PnG"));
    assert!(is_convertible("test.pNg"));

    assert!(is_convertible("test.backup.png"));
    assert!(!is_convertible("test.backup.jpg"));

    assert!(!is_convertible("test"));

    assert!(!is_convertible("test.gif"));
    assert!(!is_convertible("test.bmp"));
    assert!(!is_convertible("test.avif"));
}

#[test]
fn convert_test_conversion_format_extension() {
    assert_eq!(ConversionFormat::WebP.extension(), "webp");
    assert_eq!(ConversionFormat::Jpeg.extension(), "jpg");
}

#[test]
fn convert_test_conversion_format_display_name() {
    assert_eq!(ConversionFormat::WebP.display_name(), "WebP");
    assert_eq!(ConversionFormat::Jpeg.display_name(), "JPEG");
}

#[test]
fn convert_test_conversion_format_default() {
    let default = ConversionFormat::default();
    assert_eq!(default, ConversionFormat::WebP);
}

#[test]
fn settings_test_conversion_format_default() {
    let format = ConversionFormat::default();
    assert_eq!(format, ConversionFormat::WebP);
}

#[test]
fn settings_test_conversion_format_extension() {
    assert_eq!(ConversionFormat::WebP.extension(), "webp");
    assert_eq!(ConversionFormat::Jpeg.extension(), "jpg");
}

#[test]
fn settings_test_conversion_format_display_name() {
    assert_eq!(ConversionFormat::WebP.display_name(), "WebP");
    assert_eq!(ConversionFormat::Jpeg.display_name(), "JPEG");
}

#[test]
fn test_is_image_file() {
    assert!(!is_image_file(
        "nonexistent.png",
        Path::new("nonexistent.png").is_file()
    ));
    assert!(!is_image_file(
        "nonexistent.txt",
        Path::new("nonexistent.txt").is_file()
    ));
}

#[test]
fn image_file_needs_both_a_file_and_an_image_extension() {
    assert!(is_image_file("shot.png", true));
    assert!(!is_image_file("shot.png", false));
    assert!(!is_image_file("notes.txt", true));
}

#[test]
fn settings_defaults() {
    assert!(default_hotkey_enabled());
    assert_eq!(default_hotkey(), "Ctrl+Shift+S");
    assert_eq!(default_organizer_format(), "YYYY-MM-DD");
    assert_eq!(default_cpu_mode(), "normal");
    assert_eq!(CpuMode::from_setting(&default_cpu_mode()), CpuMode::Normal);
}

#[test]
fn cpu_mode_values() {
    assert_eq!(CpuMode::Normal.batch_size(), 8);
    assert_eq!(CpuMode::Normal.delay_ms(), 25);
    assert_eq!(CpuMode::Fast.batch_size(), 32);
    assert_eq!(CpuMode::Fast.delay_ms(), 0);
    assert_eq!(CpuMode::from_setting("fast"), CpuMode::Fast);
    assert_eq!(CpuMode::from_setting("normal"), CpuMode::Normal);
    assert_eq!(CpuMode::from_setting("Fast"), CpuMode::Normal);
    assert_eq!(CpuMode::from_setting(""), CpuMode::Normal);
}

#[test]
fn every_listed_extension_is_an_image() {
    for ext in ["png", "jpg", "jpeg", "gif", "bmp", "webp", "avif"] {
        assert!(is_image_extension(Some(ext)), "{}", ext);
        assert!(is_image_extension(Some(&ext.to_uppercase())), "{}", ext);
        assert!(has_image_extension(&format!("/shots/a.{}", ext)), "{}", ext);
    }
    assert!(is_image_extension(Some("JpEg")));
    assert!(!is_image_extension(Some("tiff")));
    assert!(!is_image_extension(Some("pn")));
    assert!(!is_image_extension(Some("pngx")));
    assert!(!is_image_extension(Some("")));
    assert!(!is_image_extension(None));
}

#[test]
fn png_extension_only() {
    assert!(is_png_extension(Some("png")));
    assert!(is_png_extension(Some("PNG")));
    assert!(!is_png_extension(Some("jpg")));
    assert!(!is_png_extension(None));
}

#[test]
fn extension_is_read_off_the_path_not_the_whole_text() {
    // A path that is nothing but the word has no extension at all.
    assert!(!is_convertible("png"));
    assert!(!has_image_extension("png"));
    assert!(!has_image_extension("dir.png/readme"));
    assert!(!has_image_extension(".png"));
    assert!(has_image_extension("dir.d/shot.JPG"));
}

#[test]
fn label_is_the_file_name() {
    assert_eq!(progress_label("/shots/2024/a.png"), "a.png");
    assert_eq!(progress_label("a.png"), "a.png");
    assert_eq!(progress_label("/"), "unknown");
    assert_eq!(progress_label(""), "unknown");
    assert_eq!(progress_label("/shots/.."), "unknown");
    assert_eq!(label_from(Some("x".to_string())), "x");
    assert_eq!(label_from(None), "unknown");
}

#[test]
fn text_comparisons() {
    assert!(str_equal("images", "images"));
    assert!(!str_equal("images", "image"));
    assert!(!str_equal("images", "Images"));
    assert!(str_equal("", ""));
    assert!(eq_ignore_ascii_case("PNG", "png"));
    assert!(eq_ignore_ascii_case("", ""));
    assert!(!eq_ignore_ascii_case("png", "pn"));
    assert!(!eq_ignore_ascii_case("p@g", "p`g"));
    assert!(!eq_ignore_ascii_case("p[g", "p{g"));
    assert!(eq_ignore_ascii_case("é", "é"));
    assert!(!eq_ignore_ascii_case("é", "É"));
}

#[test]
fn extension_is_what_follows_the_last_dot() {
    assert_eq!(file_extension("a.png"), Some("png".to_string()));
    assert_eq!(file_extension("a.b.c"), Some("c".to_string()));
    assert_eq!(file_extension("a."), Some("".to_string()));
    assert_eq!(file_extension("..a"), Some("a".to_string()));
    assert_eq!(file_extension(".a.b"), Some("b".to_string()));
    assert_eq!(file_extension("a"), None);
    assert_eq!(file_extension(""), None);
    assert_eq!(file_extension(".hidden"), None);
    assert_eq!(file_extension("."), None);
    assert_eq!(file_extension(".."), None);
    assert_eq!(file_extension("é.ñ"), Some("ñ".to_string()));
}

#[test]
fn extension_agrees_with_the_standard_library() {
    for path in [
        "a.png",
        "dir/a.PNG",
        "dir.d/a",
        "dir/.hidden",
        "dir/..",
        "dir/.",
        "dir/a.tar.gz",
        "dir/a.",
        "dir/...",
        "dir/..a",
        "a.png/",
        "",
        "/",
        "é/ü.ö",
    ] {
        let expected = Path::new(path).extension().map(|e| e.to_string_lossy().into_owned());
        let name = Path::new(path).file_name().map(|n| n.to_string_lossy().into_owned());
        let got = match name {
            Some(name) => file_extension(&name),
            None => None,
        };
        assert_eq!(got, expected, "{}", path);
        assert_eq!(
            has_image_extension(path),
            is_image_extension(expected.as_deref()),
            "{}",
            path
        );
    }
}
