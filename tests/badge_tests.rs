use bcr_registry::badge::BadgeStyle;
use bcr_registry::badge::generate_badge_svg;

#[test]
fn test_badge_style_default() {
    let style = BadgeStyle::default();
    assert_eq!(style.label, "bcr");
    assert_eq!(style.color, "44cc11");
    assert_eq!(style.style, "flat");
}

#[test]
fn test_badge_style_parse_color_named() {
    assert_eq!(BadgeStyle::parse_color("brightgreen"), "44cc11");
    assert_eq!(BadgeStyle::parse_color("success"), "44cc11");
    assert_eq!(BadgeStyle::parse_color("red"), "e05d44");
    assert_eq!(BadgeStyle::parse_color("blue"), "007ec6");
    assert_eq!(BadgeStyle::parse_color("critical"), "e05d44");
}

#[test]
fn test_badge_style_parse_color_hex() {
    assert_eq!(BadgeStyle::parse_color("5c5"), "5c5");
    assert_eq!(BadgeStyle::parse_color("007ec6"), "007ec6");
    assert_eq!(BadgeStyle::parse_color("invalid"), "007ec6");
}

#[test]
fn test_generate_badge_svg_flat() {
    let style = BadgeStyle {
        style: "flat".to_string(),
        color: "44cc11".to_string(),
        label: "bcr".to_string(),
    };
    let svg = generate_badge_svg("bcr", "1.0.0", &style);

    assert!(svg.contains("<svg"));
    assert!(svg.contains("bcr"));
    assert!(svg.contains("1.0.0"));
    assert!(svg.contains("#44cc11"));
    assert!(svg.contains("linearGradient"));
}

#[test]
fn test_generate_badge_svg_flat_square() {
    let style = BadgeStyle {
        style: "flat-square".to_string(),
        color: "e05d44".to_string(),
        label: "test".to_string(),
    };
    let svg = generate_badge_svg("test", "error", &style);

    assert!(svg.contains("<svg"));
    assert!(svg.contains("test"));
    assert!(svg.contains("error"));
    assert!(svg.contains("#e05d44"));
    assert!(!svg.contains("linearGradient"));
}

#[test]
fn test_generate_badge_svg_width_calculation() {
    let style = BadgeStyle::default();
    let svg_short = generate_badge_svg("a", "b", &style);
    let svg_long = generate_badge_svg("bazel-central-registry", "1.2.3", &style);
    assert!(svg_long.len() > svg_short.len());
}

#[test]
fn color_table_and_fallbacks() {
    assert_eq!(BadgeStyle::parse_color("success"), "44cc11");
    assert_eq!(BadgeStyle::parse_color("abc123"), "abc123");
    assert_eq!(BadgeStyle::parse_color("not-a-color"), "007ec6");
    assert_eq!(BadgeStyle::parse_color("green"), "97ca00");
    assert_eq!(BadgeStyle::parse_color("yellowgreen"), "a4a61d");
    assert_eq!(BadgeStyle::parse_color("yellow"), "dfb317");
    assert_eq!(BadgeStyle::parse_color("orange"), "fe7d37");
    assert_eq!(BadgeStyle::parse_color("lightgrey"), "9f9f9f");
    assert_eq!(BadgeStyle::parse_color("important"), "fe7d37");
    assert_eq!(BadgeStyle::parse_color("informational"), "007ec6");
    assert_eq!(BadgeStyle::parse_color("ABCDEF"), "ABCDEF");
    assert_eq!(BadgeStyle::parse_color("Red"), "007ec6");
}

#[test]
fn flat_square_document_is_exact() {
    let style = BadgeStyle {
        style: "flat-square".to_string(),
        color: "e05d44".to_string(),
        label: "x".to_string(),
    };
    let svg = generate_badge_svg("a", "bc", &style);
    let expected = "<svg xmlns=\"http://www.w3.org/2000/svg\" width=\"38\" height=\"20\" role=\"img\" aria-label=\"a: bc\"><title>a: bc</title><g><rect width=\"16\" height=\"20\" fill=\"#555\"/><rect x=\"16\" width=\"22\" height=\"20\" fill=\"#e05d44\"/></g><g fill=\"#fff\" text-anchor=\"middle\" font-family=\"Verdana,Geneva,DejaVu Sans,sans-serif\" font-size=\"11\"><text x=\"8\" y=\"14\">a</text><text x=\"27\" y=\"14\">bc</text></g></svg>";
    assert_eq!(svg, expected);
}

#[test]
fn flat_document_is_exact() {
    let style = BadgeStyle::default();
    let svg = generate_badge_svg("bcr", "1.0", &style);
    let expected = "<svg xmlns=\"http://www.w3.org/2000/svg\" width=\"56\" height=\"20\" role=\"img\" aria-label=\"bcr: 1.0\"><title>bcr: 1.0</title><linearGradient id=\"s\" x2=\"0\" y2=\"100%\"><stop offset=\"0\" stop-color=\"#bbb\" stop-opacity=\".1\"/><stop offset=\"1\" stop-opacity=\".1\"/></linearGradient><clipPath id=\"r\"><rect width=\"56\" height=\"20\" rx=\"3\" fill=\"#fff\"/></clipPath><g clip-path=\"url(#r)\"><rect width=\"28\" height=\"20\" fill=\"#555\"/><rect x=\"28\" width=\"28\" height=\"20\" fill=\"#44cc11\"/><rect width=\"56\" height=\"20\" fill=\"url(#s)\"/></g><g fill=\"#fff\" text-anchor=\"middle\" font-family=\"Verdana,Geneva,DejaVu Sans,sans-serif\" font-size=\"11\"><text x=\"14\" y=\"15\" fill=\"#010101\" fill-opacity=\".3\">bcr</text><text x=\"14\" y=\"14\">bcr</text><text x=\"42\" y=\"15\" fill=\"#010101\" fill-opacity=\".3\">1.0</text><text x=\"42\" y=\"14\">1.0</text></g></svg>";
    assert_eq!(svg, expected);
}

#[test]
fn width_counts_characters() {
    let style = BadgeStyle {
        style: "flat-square".to_string(),
        color: "007ec6".to_string(),
        label: "bcr".to_string(),
    };
    // 22 characters: 6 * 22 + 10 = 142; 5 characters: 40; total 182.
    let svg = generate_badge_svg("bazel-central-registry", "1.2.3", &style);
    assert!(svg.contains("width=\"182\""));
    assert!(svg.contains("<text x=\"71\" y=\"14\">"));
    assert!(svg.contains("<text x=\"162\" y=\"14\">"));
    // A two-byte character counts once.
    let svg = generate_badge_svg("é", "b", &style);
    assert!(svg.contains("width=\"32\""));
}

#[test]
fn rendering_is_deterministic() {
    let style = BadgeStyle::default();
    let a = generate_badge_svg("bcr", "2.0.0", &style);
    let b = generate_badge_svg("bcr", "2.0.0", &style.clone());
    assert_eq!(a, b);
}

#[test]
fn unknown_variant_draws_flat() {
    let style = BadgeStyle {
        style: "plastic".to_string(),
        color: "007ec6".to_string(),
        label: "bcr".to_string(),
    };
    let svg = generate_badge_svg("bcr", "1.0", &style);
    assert!(svg.contains("linearGradient"));
    assert!(svg.contains("clip-path"));
}
